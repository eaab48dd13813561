use impulse_ring::proto::status;
use impulse_ring::registry::{check_fp, check_key, ChannelMeta, FunctionMeta, Registry};
use impulse_ring::util;

fn channel(id: i64, name: &str, owner: i64) -> ChannelMeta {
    ChannelMeta {
        id,
        name: name.to_string(),
        owner,
        schema_fp: 0xABCD,
        key: None,
        arena: util::channel_arena(id as u64),
    }
}

fn function(id: i64, name: &str, owner: i64) -> FunctionMeta {
    FunctionMeta {
        id,
        name: name.to_string(),
        owner,
        req_fp: 1,
        resp_fp: 2,
        key: Some(util::key_hash("fk")),
        req_arena: util::function_arena(id as u64),
    }
}

#[test]
fn key_acl() {
    let h = util::key_hash("secret");
    assert!(check_key(&None, "").is_ok());
    assert!(check_key(&None, "whatever").is_ok());
    assert!(check_key(&Some(h), "secret").is_ok());
    assert_eq!(check_key(&Some(h), "wrong").unwrap_err().0, status::ERR_DENIED);
}

#[test]
fn fp_compat() {
    assert!(check_fp(0, 123).is_ok());
    assert!(check_fp(123, 123).is_ok());
    assert_eq!(check_fp(123, 456).unwrap_err().0, status::ERR_SCHEMA_MISMATCH);
    assert_eq!(
        check_fp(123, 456).unwrap_err().1,
        "schema mismatch: expected 0x7b, got 0x1c8"
    );
}

#[test]
fn subscribe_resolution() {
    let mut r = Registry::new();
    let cid = r.alloc_channel_id();
    r.insert_channel(ChannelMeta {
        id: cid,
        name: "metrics".into(),
        owner: 1,
        schema_fp: 0xABCD,
        key: Some(util::key_hash("k")),
        arena: "/impulse-ring.arena.1.v1".into(),
    });
    assert_eq!(r.resolve_subscribe(cid, "bad", 0).unwrap_err().0, status::ERR_DENIED);
    assert_eq!(
        r.resolve_subscribe(cid, "k", 0x1111).unwrap_err().0,
        status::ERR_SCHEMA_MISMATCH
    );
    let (arena, fp) = r.resolve_subscribe(cid, "k", 0xABCD).unwrap();
    assert_eq!(fp, 0xABCD);
    assert!(arena.ends_with(".v1"));
    assert_eq!(r.resolve_subscribe(999, "k", 0).unwrap_err().0, status::ERR_NOT_FOUND);
}

#[test]
fn leaving_frees_names_and_hands_back_arenas() {
    let mut r = Registry::new();
    let a = r.add_client("a".to_string(), 10);
    let b = r.add_client("b".to_string(), 20);
    assert_eq!((a, b), (1, 2));
    let c1 = r.alloc_channel_id();
    r.insert_channel(channel(c1, "one", a));
    let c2 = r.alloc_channel_id();
    r.insert_channel(channel(c2, "two", b));
    let f1 = r.alloc_fn_id();
    r.insert_function(function(f1, "add", a));
    assert!(r.channel_name_taken("one") && r.function_name_taken("add"));
    assert_eq!(r.channel_owner("one"), Some((a, 10)));
    assert_eq!(r.function_owner("add"), Some((a, 10)));
    assert_eq!(r.channel_owner("none"), None);
    assert_eq!(r.remove_client_channels(a), vec!["/impulse-ring.arena.1.v1".to_string()]);
    assert_eq!(r.remove_client_functions(a), vec!["/impulse-ring.fn.1.v1".to_string()]);
    r.remove_client(a);
    assert!(!r.channel_name_taken("one") && !r.function_name_taken("add"));
    assert!(r.channel_name_taken("two"));
    assert!(r.find_channel_by_name("one").is_none());
    assert_eq!(r.find_channel_by_name("two").unwrap().id, c2);
    assert_eq!(r.alloc_channel_id(), 3, "ids are not given again");
}

#[test]
fn listing_names_the_owner() {
    let mut r = Registry::new();
    let a = r.add_client("app".to_string(), 0);
    let c1 = r.alloc_channel_id();
    let mut locked = channel(c1, "one", a);
    locked.key = Some(util::key_hash("k"));
    r.insert_channel(locked);
    let c2 = r.alloc_channel_id();
    r.insert_channel(channel(c2, "two", 99));
    let mut list = r.list_channels();
    list.sort_by_key(|c| c.channel_id);
    assert_eq!(list.len(), 2);
    assert_eq!((list[0].name.as_str(), list[0].owner_app.as_str()), ("one", "app"));
    assert!(list[0].requires_key);
    assert_eq!((list[1].name.as_str(), list[1].owner_app.as_str()), ("two", ""));
    assert!(!list[1].requires_key);
    assert_eq!(list[1].schema_fp, 0xABCD);
}

#[test]
fn lookup_resolution() {
    let mut r = Registry::new();
    let f = r.alloc_fn_id();
    r.insert_function(function(f, "add", 1));
    assert_eq!(r.resolve_lookup("none", "fk").unwrap_err(), (
        status::ERR_NOT_FOUND,
        "no such function".to_string(),
    ));
    assert_eq!(r.resolve_lookup("add", "x").unwrap_err(), (
        status::ERR_DENIED,
        "invalid access key".to_string(),
    ));
    assert_eq!(
        r.resolve_lookup("add", "fk").unwrap(),
        (1, 1, 2, "/impulse-ring.fn.1.v1".to_string())
    );
    assert_eq!(r.find_function_by_name("add").unwrap().id, f);
}
