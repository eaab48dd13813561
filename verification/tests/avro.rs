use impulse_ring::avro::{
    decode, encode, fingerprint, parse, AvroError, Record, Scalar, SchemaRegistry,
};
use impulse_ring::outline::{check_canonical_form, check_plainly_named};

const ADD_REQ: &str = r#"{
        "type":"record","name":"AddReq",
        "fields":[{"name":"a","type":"long"},{"name":"b","type":"long"}]
    }"#;

fn long(name: &str, x: i64) -> (String, Scalar) {
    (name.to_string(), Scalar::Long(x))
}

fn as_long(f: &(String, Scalar)) -> (String, i64) {
    match &f.1 {
        Scalar::Long(x) => (f.0.clone(), *x),
        _ => panic!("not a long"),
    }
}

#[test]
fn fingerprint_is_stable_and_nonzero() {
    let (s1, fp1) = parse(ADD_REQ).unwrap();
    let (_s2, fp2) = parse(ADD_REQ).unwrap();
    assert_eq!(fp1, fp2, "same schema -> same fingerprint");
    assert_ne!(fp1, 0);
    let (_s3, fp3) = parse(&ADD_REQ.replace('\n', " ")).unwrap();
    assert_eq!(fp1, fp3);
    assert_eq!(fingerprint(&s1), fp1);
}

#[test]
fn encode_decode_roundtrip() {
    let (schema, _) = parse(ADD_REQ).unwrap();
    let msg = Record { fields: vec![long("a", 7), long("b", 35)], rows: vec![] };
    let bytes = encode(&schema, msg).unwrap();
    assert_eq!(bytes, vec![14, 70]);
    let back: Record = decode(&schema, &bytes).unwrap();
    assert_eq!(back.fields.len(), 2);
    assert_eq!(as_long(&back.fields[0]), ("a".to_string(), 7));
    assert_eq!(as_long(&back.fields[1]), ("b".to_string(), 35));
    assert!(back.rows.is_empty());
}

#[test]
fn different_schema_different_fingerprint() {
    let (_s, fp_a) = parse(ADD_REQ).unwrap();
    let (_s2, fp_b) =
        parse(r#"{"type":"record","name":"AddReq","fields":[{"name":"a","type":"string"}]}"#).unwrap();
    assert!(!SchemaRegistry::compatible(fp_a, fp_b));
    assert!(SchemaRegistry::compatible(fp_a, fp_a));
}

#[test]
fn fingerprint_is_the_rabin_of_the_canonical_form() {
    // Fingerprints that Avro publishes.
    let (_s, fp) = parse("\"null\"").unwrap();
    assert_eq!(fp, 0x63dd24e7cc258f8a);
    let (_s, fp) = parse("\"long\"").unwrap();
    assert_eq!(fp, 0xd054e14493f41db7);
}

#[test]
fn texts_that_are_no_schemas_are_rejected() {
    match parse("{\"type\":\"nonsense\"}") {
        Err(AvroError::Rejected(words)) => assert!(!words.is_empty()),
        _ => panic!("accepted"),
    }
    match parse("not json") {
        Err(AvroError::Rejected(_)) => {}
        _ => panic!("accepted"),
    }
    assert!(check_canonical_form(ADD_REQ));
    let odd = r#"{"type":"fixed","name":"F","size":9999999999999999999}"#;
    assert!(!check_canonical_form(odd));
    match parse(odd) {
        Err(AvroError::NoCanonicalForm) => {}
        _ => panic!("accepted"),
    }
}

#[test]
fn records_as_defaults() {
    let inner = r#"{"type":"record","name":"a.Inner","fields":[{"name":"x","type":"long","default":3}]}"#;
    let outer = |name: &str| {
        format!(
            r#"{{"type":"record","name":"{name}","fields":[{{"name":"i","type":{inner},"default":{{"x":4}}}}]}}"#
        )
    };
    assert!(check_canonical_form(&outer("Outer")));
    assert!(parse(&outer("Outer")).is_ok());
    assert!(parse(&outer("b.Inner")).is_ok());
    assert!(parse(&outer("Ou\\u0074er")).is_ok());
    assert!(parse(&outer("Inner")).is_ok());
    assert!(parse(&outer("a.Inner")).is_ok());
}

fn record(name: &str, fields: &str) -> String {
    format!(r#"{{"type":"record","name":"{name}","fields":[{fields}]}}"#)
}

#[test]
fn default_values_come_to_an_end() {
    // Each of the two records fills in a field of the other.
    let map = r#"{"type":"map","values":"int"}"#;
    let r2 = record("R2", &format!(r#"{{"name":"f","type":["R1",{map}],"default":{{}}}}"#));
    let r1 = record("R1", &format!(r#"{{"name":"x","type":[{r2},{map}],"default":{{}}}}"#));
    let text = record(
        "R0",
        &format!(r#"{{"name":"a","type":{r1}}},{{"name":"z","type":"R2","default":{{}}}}"#),
    );
    assert!(matches!(parse(&text), Err(AvroError::NoCanonicalForm)));

    // Records that are made of themselves, but not of what their default values fill in.
    for fields in [
        r#"{"name":"next","type":["null","N"],"default":null},{"name":"m","type":{"type":"map","values":"int"},"default":{}}"#,
        r#"{"name":"kids","type":{"type":"array","items":"N"},"default":[]}"#,
        r#"{"name":"kids","type":{"type":"map","values":"N"},"default":{}}"#,
        r#"{"name":"kids","type":[{"type":"array","items":"N"},"null"],"default":[]}"#,
    ] {
        let node = record("N", fields);
        assert!(parse(&node).is_ok(), "{fields}");
        let root = record(
            "Tree",
            &format!(r#"{{"name":"a","type":{node}}},{{"name":"root","type":"N","default":{{}}}}"#),
        );
        assert!(parse(&root).is_ok(), "{fields}");
    }
    let deep = r#"{"name":"a","type":"long","default":1},{"name":"n","type":["null","N"],"default":null}"#;
    let text = record("T", &format!(
        r#"{{"name":"r","type":{},"default":{{"n":null}}}}"#,
        record("N", deep),
    ));
    assert!(parse(&text).is_ok());
}

#[test]
fn default_values_lead_on_within_bounds() {
    // Every record fills in the one before it.
    let chain = |n: usize, times: usize, end: &str| {
        let mut fields = format!(r#"{{"name":"f0","type":{}}}"#, record("R0", ""));
        for i in 1..n {
            let each: Vec<String> = (0..times)
                .map(|k| format!(r#"{{"name":"g{k}","type":"R{}","default":{{}}}}"#, i - 1))
                .collect();
            fields += &format!(r#",{{"name":"f{i}","type":{}}}"#, record(&format!("R{i}"), &each.join(",")));
        }
        record("Root", &format!("{fields}{end}"))
    };
    assert!(parse(&chain(100, 1, "")).is_ok());
    assert!(matches!(parse(&chain(1000, 1, "")), Err(AvroError::NoCanonicalForm)));
    assert!(parse(&chain(8, 2, "")).is_ok());
    assert!(matches!(parse(&chain(40, 2, "")), Err(AvroError::NoCanonicalForm)));
    // A default value that does not fit has its type written out in the error.
    let plain = |n: usize| {
        let mut fields = format!(r#"{{"name":"f0","type":{}}}"#, record("R0", ""));
        for i in 1..n {
            let one = format!(r#"{{"name":"g","type":"R{}"}}"#, i - 1);
            fields += &format!(r#",{{"name":"f{i}","type":{}}}"#, record(&format!("R{i}"), &one));
        }
        let last = n - 1;
        record("Root", &format!(r#"{fields},{{"name":"z","type":"R{last}","default":5}}"#))
    };
    assert!(matches!(parse(&plain(100)), Err(AvroError::Rejected(_))));
    assert!(matches!(parse(&plain(5000)), Err(AvroError::NoCanonicalForm)));
}

#[test]
fn decimals_of_many_bytes() {
    let decimal = |size: u64| {
        format!(
            r#"{{"type":"record","name":"R","fields":[{{"name":"d","type":{{"type":"fixed","name":"F","size":{size},"logicalType":"decimal","precision":2}},"default":"a"}}]}}"#
        )
    };
    assert!(matches!(parse(&decimal(300_000_000)), Err(AvroError::NoCanonicalForm)));
    assert!(matches!(parse(&decimal(0x1000_0000)), Err(AvroError::NoCanonicalForm)));
    assert!(check_canonical_form(&decimal(0xfff_ffff)));
    assert!(parse(&decimal(16)).is_ok());
    assert!(parse(r#"{"type":"fixed","name":"F","size":300000000}"#).is_ok());
}

#[test]
fn members_that_the_canonical_form_writes_out() {
    let record = |more: &str| {
        format!(r#"{{"type":"record","name":"R","fields":[{{"name":"x","type":"long"}}{more}}}"#)
    };
    let plain = parse(&record("]")).unwrap().1;
    for more in [
        r#"],"doc":null"#,
        r#"],"size":-7"#,
        r#"],"size":-9223372036854775808"#,
        r#"],"precision":1234567890123456789"#,
        r#"],"scale":"+4""#,
        r#"],"order":"up","symbols":[],"values":{"type":"record","name":{"a":true}}"#,
        r#"],"anything":[1,null,{"size":true}]"#,
        r#",5,null]"#,
    ] {
        assert!(check_canonical_form(&record(more)), "{more}");
        assert!(parse(&record(more)).is_ok(), "{more}");
    }
    assert_eq!(parse(&record(r#",5,null]"#)).unwrap().1, plain);
    for more in [
        r#"],"size":true"#,
        r#"],"size":-0"#,
        r#"],"size":1.5"#,
        r#"],"size":9223372036854775808"#,
        r#"],"precision":"many""#,
        r#"],"order":7"#,
        r#"],"symbols":["a",2]"#,
        r#"],"items":{"name":null}"#,
        r#"],"s\u0069ze":true"#,
    ] {
        assert!(!check_canonical_form(&record(more)), "{more}");
        match parse(&record(more)) {
            Err(AvroError::NoCanonicalForm) => {}
            _ => panic!("accepted {more}"),
        }
    }
    for fine in [
        r#"{"type":"array","items":"long","name":5}"#,
        r#"{"type":"string","size":true}"#,
        r#"{"t\u0079pe":"rec\u006frd","name":"R","fields":[]}"#,
        r#"{"type":"enum","name":"E","symbols":["\u0041"]}"#,
        r#"{"type":"fixed","name":"F","size":9223372036854775807}"#,
        r#"{"type":"bytes","logicalType":"decimal","precision":4,"scale":2}"#,
    ] {
        assert!(parse(fine).is_ok(), "{fine}");
    }
    let nested = format!("{}\"long\"{}", "[".repeat(400), "]".repeat(400));
    assert!(matches!(parse(&nested), Err(AvroError::Rejected(_))));
}

#[test]
fn records_that_cannot_be_found_by_name_are_not_written() {
    let twice = r#"{"type":"record","name":"A","fields":[{"name":"l","type":
        {"type":"array","items":{"type":"record","name":"A","fields":[{"name":"x","type":"long"}]}}}]}"#;
    assert!(!check_plainly_named(twice));
    let (schema, _) = parse(twice).unwrap();
    let msg = Record { fields: vec![("l".to_string(), Scalar::List)], rows: vec![] };
    assert!(matches!(encode(&schema, msg), Err(AvroError::Rejected(_))));
    let aliased = r#"{"type":"record","name":"A","fields":[{"name":"a","type":"long"},
        {"name":"b","type":"string","aliases":["a"]}]}"#;
    assert!(!check_plainly_named(aliased));
    let (schema, _) = parse(aliased).unwrap();
    let msg = Record {
        fields: vec![long("a", 1), ("b".to_string(), Scalar::Text("x".to_string()))],
        rows: vec![],
    };
    assert!(matches!(encode(&schema, msg), Err(AvroError::Rejected(_))));
    assert!(check_plainly_named(ADD_REQ));
}

#[test]
fn documentation_does_not_matter() {
    let (_s, bare) = parse(ADD_REQ).unwrap();
    let documented = r#"{"doc":"sums","type":"record","name":"AddReq","fields":[
        {"name":"a","doc":"left","type":"long"},{"name":"b","type":"long","doc":"right"}]}"#;
    let (_s, fp) = parse(documented).unwrap();
    assert_eq!(fp, bare);
}

#[test]
fn space_between_tokens_does_not_matter() {
    let tight: String = ADD_REQ.chars().filter(|c| !c.is_whitespace()).collect();
    let wide = tight.replace(':', " :\n\t").replace(',', "\r , ");
    let (_s, a) = parse(&tight).unwrap();
    let (_s, b) = parse(&wide).unwrap();
    assert_eq!(a, b);
    assert!(parse(&tight.replace("long", "lo ng")).is_err());
}

#[test]
fn schemas_beyond_plain_fields_are_not_coded() {
    let nested = r#"{"type":"record","name":"R","fields":[{"name":"x","type":"double"}]}"#;
    let (schema, _) = parse(nested).unwrap();
    let msg = Record { fields: vec![long("x", 1)], rows: vec![] };
    match encode(&schema, msg) {
        Err(AvroError::NotFlat) => {}
        _ => panic!("coded"),
    }
    match decode(&schema, &[0; 8]) {
        Err(AvroError::NotFlat) => {}
        _ => panic!("coded"),
    }
    assert_eq!(AvroError::NotFlat.message(), "schema is not a record of plain fields");
    assert_eq!(AvroError::NoCanonicalForm.message(), "schema has no canonical form");
}

#[test]
fn records_of_another_shape_are_rejected() {
    let (schema, _) = parse(ADD_REQ).unwrap();
    let msg = Record { fields: vec![("a".to_string(), Scalar::Text("x".to_string()))], rows: vec![] };
    match encode(&schema, msg) {
        Err(AvroError::Rejected(_)) => {}
        _ => panic!("written"),
    }
    match decode(&schema, &[14]) {
        Err(AvroError::Rejected(_)) => {}
        _ => panic!("read"),
    }
}

#[test]
fn every_plain_type_comes_back() {
    let json = r#"{"type":"record","name":"All","fields":[
        {"name":"t","type":"string"},{"name":"i","type":"int"},{"name":"l","type":"long"},
        {"name":"o","type":"boolean"},{"name":"y","type":"bytes"},
        {"name":"rows","type":{"type":"array","items":{"type":"record","name":"Row","fields":[
            {"name":"k","type":"string"},{"name":"n","type":"long"},{"name":"on","type":"boolean"}]}}}]}"#;
    let (schema, _) = parse(json).unwrap();
    let msg = Record {
        fields: vec![
            ("t".to_string(), Scalar::Text("hällo".to_string())),
            ("i".to_string(), Scalar::Int(-3)),
            ("l".to_string(), Scalar::Long(i64::MIN)),
            ("o".to_string(), Scalar::Boolean(true)),
            ("y".to_string(), Scalar::Bytes(vec![0, 255, 7])),
            ("rows".to_string(), Scalar::List),
        ],
        rows: vec![vec![
            ("k".to_string(), Scalar::Text("x".to_string())),
            ("n".to_string(), Scalar::Long(9)),
            ("on".to_string(), Scalar::Boolean(false)),
        ]],
    };
    let printed = format!("{:?}", msg);
    let bytes = encode(&schema, msg).unwrap();
    let back = decode(&schema, &bytes).unwrap();
    assert_eq!(format!("{:?}", back), printed);
}

#[test]
fn registry_keeps_one_schema_per_fingerprint() {
    let mut reg = SchemaRegistry::new();
    let a = reg.register_json(ADD_REQ).unwrap();
    let (again, _) = parse(&ADD_REQ.replace('\n', " ")).unwrap();
    let b = reg.register(again);
    assert_eq!(a, b);
    assert_eq!(fingerprint(reg.get(a).unwrap()), a);
    assert!(reg.get(a.wrapping_add(1)).is_none());
    assert!(reg.register_json("{").is_err());
}
