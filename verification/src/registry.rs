//! What the broker knows: applications, channels, functions, and who may use them.
use std::collections::HashMap;

use vstd::hash_map::StringHashMap;
use vstd::prelude::*;

use crate::avro::Fingerprint;
use crate::proto;
use crate::proto::status;
use crate::proto::ChannelInfo;
use crate::text;
use crate::util;

verus! {

broadcast use vstd::std_specs::hash::group_hash_axioms;

/// An application on the bus. `pid` is its process, 0 where it is not known.
#[derive(Debug)]
pub struct ClientMeta {
    pub app_name: String,
    pub pid: i32,
}

/// A channel: who owns it, what it carries, the hash of its access key if it has one, and its
/// arena.
#[derive(Debug)]
pub struct ChannelMeta {
    pub id: i64,
    pub name: String,
    pub owner: i64,
    pub schema_fp: Fingerprint,
    pub key: Option<[u8; 32]>,
    pub arena: String,
}

/// A function: who owns it, what it takes and gives, the hash of its access key if it has one,
/// and its request arena.
#[derive(Debug)]
pub struct FunctionMeta {
    pub id: i64,
    pub name: String,
    pub owner: i64,
    pub req_fp: Fingerprint,
    pub resp_fp: Fingerprint,
    pub key: Option<[u8; 32]>,
    pub req_arena: String,
}

/// The outcome of a check: a status and a message where it fails.
pub type AccessResult = Result<(), (i32, String)>;

// ---- access --------------------------------------------------------------------------------

/// An outcome with its message as a text.
pub open spec fn refusal<T>(r: Result<T, (i32, String)>) -> Option<(i32, Seq<char>)> {
    match r {
        Ok(_) => None,
        Err(e) => Some((e.0, e.1@)),
    }
}

/// Why a presented key is refused: a policy without a key lets everyone in, and one with a key
/// lets in who presents it.
pub open spec fn key_refusal(policy: Option<[u8; 32]>, presented: Seq<char>) -> Option<
    (i32, Seq<char>),
> {
    match policy {
        None => None,
        Some(hash) => if util::hashed_key(presented) == hash@ {
            None
        } else {
            Some((status::ERR_DENIED, "invalid access key"@))
        },
    }
}

/// Checks a presented key.
pub fn check_key(policy: &Option<[u8; 32]>, presented: &str) -> (r: AccessResult)
    ensures
        refusal(r) == key_refusal(*policy, presented@),
{
    match policy {
        None => Ok(()),
        Some(hash) => if util::key_matches(presented, hash) {
            Ok(())
        } else {
            Err((status::ERR_DENIED, "invalid access key".to_owned()))
        },
    }
}

/// Why a schema is refused: it is not the one that was expected. An expectation of 0 is none.
pub open spec fn fp_refusal(expected: Fingerprint, actual: Fingerprint) -> Option<(i32, Seq<char>)> {
    if expected == 0 || expected == actual {
        None
    } else {
        Some(
            (
                status::ERR_SCHEMA_MISMATCH,
                "schema mismatch: expected 0x"@ + text::hex(expected as nat) + ", got 0x"@
                    + text::hex(actual as nat),
            ),
        )
    }
}

/// Checks a schema against an expectation.
pub fn check_fp(expected: Fingerprint, actual: Fingerprint) -> (r: AccessResult)
    ensures
        refusal(r) == fp_refusal(expected, actual),
{
    if expected == 0 || expected == actual {
        Ok(())
    } else {
        let mut s: String = "schema mismatch: expected 0x".to_owned();
        s.append(text::hex_string(expected).as_str());
        s.append(", got 0x");
        s.append(text::hex_string(actual).as_str());
        Err((status::ERR_SCHEMA_MISMATCH, s))
    }
}

/// The owner of a key is let in, and everyone is let in where there is no key.
pub proof fn law_key_lets_owner_in(key: Seq<char>, policy: [u8; 32])
    requires
        policy@ == util::hashed_key(key),
    ensures
        key_refusal(Some(policy), key) is None,
        forall|k: Seq<char>| #[trigger] key_refusal(None, k) is None,
        forall|k: Seq<char>|
            util::hashed_key(k) != policy@ ==> (#[trigger] key_refusal(Some(policy), k))
                == Some((status::ERR_DENIED, "invalid access key"@)),
{
}

// ---- the registry --------------------------------------------------------------------------

/// Applications, channels and functions, the latter two also by name.
pub struct Registry {
    pub clients: HashMap<i64, ClientMeta>,
    pub channels: HashMap<i64, ChannelMeta>,
    pub chan_by_name: StringHashMap<i64>,
    pub functions: HashMap<i64, FunctionMeta>,
    pub fn_by_name: StringHashMap<i64>,
    pub next_client: i64,
    pub next_channel: i64,
    pub next_fn: i64,
}

#[verifier::ext_equal]
pub ghost struct RegistryView {
    pub clients: Map<i64, ClientMeta>,
    pub channels: Map<i64, ChannelMeta>,
    pub chan_by_name: Map<Seq<char>, i64>,
    pub functions: Map<i64, FunctionMeta>,
    pub fn_by_name: Map<Seq<char>, i64>,
    pub next_client: i64,
    pub next_channel: i64,
    pub next_fn: i64,
}

impl View for Registry {
    type V = RegistryView;

    open spec fn view(&self) -> RegistryView {
        RegistryView {
            clients: self.clients@,
            channels: self.channels@,
            chan_by_name: self.chan_by_name@,
            functions: self.functions@,
            fn_by_name: self.fn_by_name@,
            next_client: self.next_client,
            next_channel: self.next_channel,
            next_fn: self.next_fn,
        }
    }
}

impl RegistryView {
    /// Channels and functions stand under their ids and their names, and ids that were not
    /// given out yet are free.
    pub open spec fn wf(self) -> bool {
        &&& 1 <= self.next_client && 1 <= self.next_channel && 1 <= self.next_fn
        &&& forall|id: i64| #[trigger]
            self.clients.dom().contains(id) ==> 1 <= id < self.next_client
        &&& forall|id: i64| #[trigger]
            self.channels.dom().contains(id) ==> {
                &&& 1 <= id < self.next_channel
                &&& self.channels[id].id == id
                &&& self.chan_by_name.dom().contains(self.channels[id].name@)
                &&& self.chan_by_name[self.channels[id].name@] == id
            }
        &&& forall|n: Seq<char>| #[trigger]
            self.chan_by_name.dom().contains(n) ==> {
                &&& self.channels.dom().contains(self.chan_by_name[n])
                &&& self.channels[self.chan_by_name[n]].name@ == n
            }
        &&& forall|id: i64| #[trigger]
            self.functions.dom().contains(id) ==> {
                &&& 1 <= id < self.next_fn
                &&& self.functions[id].id == id
                &&& self.fn_by_name.dom().contains(self.functions[id].name@)
                &&& self.fn_by_name[self.functions[id].name@] == id
            }
        &&& forall|n: Seq<char>| #[trigger]
            self.fn_by_name.dom().contains(n) ==> {
                &&& self.functions.dom().contains(self.fn_by_name[n])
                &&& self.functions[self.fn_by_name[n]].name@ == n
            }
    }

    /// The registry before anything happened.
    pub open spec fn fresh() -> RegistryView {
        RegistryView {
            clients: Map::empty(),
            channels: Map::empty(),
            chan_by_name: Map::empty(),
            functions: Map::empty(),
            fn_by_name: Map::empty(),
            next_client: 1,
            next_channel: 1,
            next_fn: 1,
        }
    }

    /// The registry with one more application.
    pub open spec fn with_client(self, c: ClientMeta) -> RegistryView {
        RegistryView {
            clients: self.clients.insert(self.next_client, c),
            next_client: (self.next_client + 1) as i64,
            ..self
        }
    }

    /// The registry with one more channel.
    pub open spec fn with_channel(self, c: ChannelMeta) -> RegistryView {
        RegistryView {
            channels: self.channels.insert(c.id, c),
            chan_by_name: self.chan_by_name.insert(c.name@, c.id),
            ..self
        }
    }

    /// The registry with one more function.
    pub open spec fn with_function(self, f: FunctionMeta) -> RegistryView {
        RegistryView {
            functions: self.functions.insert(f.id, f),
            fn_by_name: self.fn_by_name.insert(f.name@, f.id),
            ..self
        }
    }

    /// The channels of an application.
    pub open spec fn channels_of(self, owner: i64) -> Set<i64> {
        Set::new(|id: i64| self.channels.dom().contains(id) && self.channels[id].owner == owner)
    }

    /// The functions of an application.
    pub open spec fn functions_of(self, owner: i64) -> Set<i64> {
        Set::new(|id: i64| self.functions.dom().contains(id) && self.functions[id].owner == owner)
    }

    /// The names of some channels.
    pub open spec fn channel_names(self, ids: Set<i64>) -> Set<Seq<char>> {
        Set::new(|n: Seq<char>| exists|id: i64| #[trigger]
            ids.contains(id) && self.channels[id].name@ == n)
    }

    /// The names of some functions.
    pub open spec fn function_names(self, ids: Set<i64>) -> Set<Seq<char>> {
        Set::new(|n: Seq<char>| exists|id: i64| #[trigger]
            ids.contains(id) && self.functions[id].name@ == n)
    }

    /// The registry without some channels.
    pub open spec fn without_channels(self, ids: Set<i64>) -> RegistryView {
        RegistryView {
            channels: self.channels.remove_keys(ids),
            chan_by_name: self.chan_by_name.remove_keys(self.channel_names(ids)),
            ..self
        }
    }

    /// The registry without some functions.
    pub open spec fn without_functions(self, ids: Set<i64>) -> RegistryView {
        RegistryView {
            functions: self.functions.remove_keys(ids),
            fn_by_name: self.fn_by_name.remove_keys(self.function_names(ids)),
            ..self
        }
    }

    /// The registry without an application.
    pub open spec fn without_client(self, id: i64) -> RegistryView {
        RegistryView { clients: self.clients.remove(id), ..self }
    }

    /// The registry once an application left and everything that it owned was given up.
    pub open spec fn released(self, id: i64) -> RegistryView {
        self.without_channels(self.channels_of(id)).without_functions(
            self.functions_of(id),
        ).without_client(id)
    }

    /// The name of a channel's application, empty where it is not known.
    pub open spec fn owner_app(self, owner: i64) -> Seq<char> {
        if self.clients.dom().contains(owner) {
            self.clients[owner].app_name@
        } else {
            Seq::empty()
        }
    }

    /// What a list of channels says of a channel.
    pub open spec fn describes(self, id: i64, info: ChannelInfo) -> bool {
        let c = self.channels[id];
        &&& info.channel_id == c.id
        &&& info.name@ == c.name@
        &&& info.owner_app@ == self.owner_app(c.owner)
        &&& info.schema_fp == c.schema_fp as i64
        &&& info.requires_key == (c.key is Some)
    }

    /// Why a channel may not be read.
    pub open spec fn subscribe_refusal(
        self,
        channel_id: i64,
        access_key: Seq<char>,
        expected_fp: Fingerprint,
    ) -> Option<(i32, Seq<char>)> {
        if !self.channels.dom().contains(channel_id) {
            Some((status::ERR_NOT_FOUND, "no such channel"@))
        } else {
            let c = self.channels[channel_id];
            match key_refusal(c.key, access_key) {
                Some(e) => Some(e),
                None => fp_refusal(expected_fp, c.schema_fp),
            }
        }
    }

    /// A function by its name.
    pub open spec fn function_named(self, name: Seq<char>) -> Option<FunctionMeta> {
        if self.fn_by_name.dom().contains(name) && self.functions.dom().contains(
            self.fn_by_name[name],
        ) {
            Some(self.functions[self.fn_by_name[name]])
        } else {
            None
        }
    }

    /// A channel by its name.
    pub open spec fn channel_named(self, name: Seq<char>) -> Option<ChannelMeta> {
        if self.chan_by_name.dom().contains(name) && self.channels.dom().contains(
            self.chan_by_name[name],
        ) {
            Some(self.channels[self.chan_by_name[name]])
        } else {
            None
        }
    }

    /// Why a function may not be called.
    pub open spec fn lookup_refusal(self, name: Seq<char>, access_key: Seq<char>) -> Option<
        (i32, Seq<char>),
    > {
        match self.function_named(name) {
            None => Some((status::ERR_NOT_FOUND, "no such function"@)),
            Some(f) => key_refusal(f.key, access_key),
        }
    }

    /// The process of an application, 0 where the application or its process is not known.
    pub open spec fn pid_of(self, client: i64) -> i32 {
        if self.clients.dom().contains(client) {
            self.clients[client].pid
        } else {
            0
        }
    }
}

/// `names` are the arenas of the channels `ids`, in some order.
pub open spec fn lists_arenas(v: RegistryView, ids: Set<i64>, names: Seq<String>) -> bool {
    exists|order: Seq<i64>| #[trigger]
        order.no_duplicates() && order.to_set() == ids && order.len() == names.len() && forall|i: int|
            0 <= i < order.len() ==> (#[trigger] names[i])@ == v.channels[order[i]].arena@
}

/// `names` are the request arenas of the functions `ids`, in some order.
pub open spec fn lists_req_arenas(v: RegistryView, ids: Set<i64>, names: Seq<String>) -> bool {
    exists|order: Seq<i64>| #[trigger]
        order.no_duplicates() && order.to_set() == ids && order.len() == names.len() && forall|i: int|
            0 <= i < order.len() ==> (#[trigger] names[i])@ == v.functions[order[i]].req_arena@
}

/// `infos` describe all channels, in some order.
pub open spec fn lists_channels(v: RegistryView, infos: Seq<ChannelInfo>) -> bool {
    exists|order: Seq<i64>| #[trigger]
        order.no_duplicates() && order.to_set() == v.channels.dom() && order.len() == infos.len()
            && forall|i: int| 0 <= i < order.len() ==> v.describes(order[i], #[trigger] infos[i])
}

/// The keys of a map, each once, in some order.
fn keys_of<V>(m: &HashMap<i64, V>) -> (r: Vec<i64>)
    ensures
        r@.no_duplicates(),
        r@.to_set() == m@.dom(),
{
    let mut r: Vec<i64> = Vec::new();
    let ghost all = vstd::std_specs::iter::IteratorSpec::remaining(&m.keys()).unref();
    for k in it: m.keys()
        invariant
            it.seq().unref() == all,
            r@ =~= all.take(it.index() as int),
    {
        r.push(*k);
    }
    proof {
        assert(all.take(all.len() as int) =~= all);
        assert(all.no_duplicates());
    }
    r
}

proof fn lemma_push_contains(s: Seq<i64>, x: i64)
    ensures
        forall|y: i64| #[trigger] s.push(x).contains(y) <==> s.contains(y) || y == x,
{
    assert forall|y: i64| #[trigger] s.push(x).contains(y) <==> s.contains(y) || y == x by {
        if s.push(x).contains(y) {
            let k = choose|k: int| 0 <= k < s.push(x).len() && s.push(x)[k] == y;
            if k < s.len() {
                assert(s[k] == y);
            }
        }
        if s.contains(y) {
            let k = choose|k: int| 0 <= k < s.len() && s[k] == y;
            assert(s.push(x)[k] == y);
        }
        assert(s.push(x)[s.len() as int] == x);
    }
}

impl Registry {
    pub fn new() -> (r: Registry)
        ensures
            r@ == RegistryView::fresh(),
            r@.wf(),
    {
        Registry {
            clients: HashMap::new(),
            channels: HashMap::new(),
            chan_by_name: StringHashMap::new(),
            functions: HashMap::new(),
            fn_by_name: StringHashMap::new(),
            next_client: 1,
            next_channel: 1,
            next_fn: 1,
        }
    }

    /// Adds an application and returns its id.
    pub fn add_client(&mut self, app_name: String, pid: i32) -> (id: i64)
        requires
            old(self)@.next_client < i64::MAX,
        ensures
            id == old(self)@.next_client,
            final(self)@ == old(self)@.with_client(ClientMeta { app_name, pid }),
    {
        let id: i64 = self.next_client;
        self.next_client = self.next_client + 1;
        self.clients.insert(id, ClientMeta { app_name, pid });
        id
    }

    /// Forgets an application.
    pub fn remove_client(&mut self, id: i64)
        ensures
            final(self)@ == old(self)@.without_client(id),
    {
        self.clients.remove(&id);
    }

    /// Gives up every channel of an application and returns the names of their arenas.
    pub fn remove_client_channels(&mut self, owner: i64) -> (r: Vec<String>)
        ensures
            final(self)@ == old(self)@.without_channels(old(self)@.channels_of(owner)),
            lists_arenas(old(self)@, old(self)@.channels_of(owner), r@),
    {
        let ghost v = self@;
        let ids: Vec<i64> = keys_of(&self.channels);
        let mut arenas: Vec<String> = Vec::new();
        let ghost mut gone: Seq<i64> = Seq::empty();
        let mut i: usize = 0;
        proof {
            assert(gone.to_set() =~= Set::<i64>::empty());
            assert(v.channel_names(gone.to_set()) =~= Set::<Seq<char>>::empty());
            assert(self@ =~= v.without_channels(gone.to_set()));
        }
        while i < ids.len()
            invariant
                i <= ids@.len(),
                ids@.no_duplicates(),
                ids@.to_set() == v.channels.dom(),
                self@ == v.without_channels(gone.to_set()),
                gone.no_duplicates(),
                gone.len() == arenas@.len(),
                forall|id: i64| #[trigger]
                    gone.contains(id) <==> ids@.take(i as int).contains(id) && v.channels[id].owner
                        == owner,
                forall|k: int|
                    0 <= k < gone.len() ==> (#[trigger] arenas@[k])@ == v.channels[gone[k]].arena@,
            decreases ids@.len() - i,
        {
            let id: i64 = ids[i];
            let ghost gone0 = gone;
            proof {
                assert(ids@.to_set().contains(id)) by {
                    assert(ids@[i as int] == id);
                }
                assert(ids@.take(i + 1) =~= ids@.take(i as int).push(id));
                assert(!ids@.take(i as int).contains(id)) by {
                    if ids@.take(i as int).contains(id) {
                        let j = choose|j: int|
                            0 <= j < i && #[trigger] ids@.take(i as int)[j] == id;
                        assert(ids@[j] == ids@[i as int]);
                    }
                }
                assert(!gone.contains(id));
                assert(!gone.to_set().contains(id));
                assert(self.channels@.dom().contains(id));
                assert(self.channels@[id] == v.channels[id]);
            }
            let taken: Option<(String, String)> = match self.channels.get(&id) {
                Some(c) => if c.owner == owner {
                    Some((c.name.clone(), c.arena.clone()))
                } else {
                    None
                },
                None => None,
            };
            if let Some((name, arena)) = taken {
                self.channels.remove(&id);
                self.chan_by_name.remove(name.as_str());
                arenas.push(arena);
                proof {
                    gone = gone.push(id);
                    assert(gone.to_set() =~= gone0.to_set().insert(id)) by {
                        lemma_push_contains(gone0, id);
                    }
                    lemma_push_contains(gone0, id);
                    assert(v.channel_names(gone.to_set()) =~= v.channel_names(gone0.to_set()).insert(name@)) by {
                        assert forall|n: Seq<char>| v.channel_names(gone.to_set()).contains(n)
                            <==> #[trigger] v.channel_names(gone0.to_set()).insert(name@).contains(n) by {
                            if v.channel_names(gone.to_set()).contains(n) {
                                let x = choose|x: i64| #[trigger]
                                    gone.to_set().contains(x) && v.channels[x].name@ == n;
                                if x != id {
                                    assert(gone0.to_set().contains(x));
                                }
                            }
                            if v.channel_names(gone0.to_set()).contains(n) {
                                let x = choose|x: i64| #[trigger]
                                    gone0.to_set().contains(x) && v.channels[x].name@ == n;
                                assert(gone.to_set().contains(x));
                            }
                            if n == name@ {
                                assert(gone.to_set().contains(id));
                            }
                        }
                    }
                    assert(self@ =~= v.without_channels(gone.to_set()));
                }
            }
            proof {
                assert forall|x: i64| #[trigger] gone.contains(x) <==> ids@.take(i + 1).contains(x)
                    && v.channels[x].owner == owner by {
                    lemma_push_contains(ids@.take(i as int), id);
                    lemma_push_contains(gone0, id);
                }
            }
            i = i + 1;
        }
        proof {
            assert(ids@.take(i as int) =~= ids@);
            assert(gone.to_set() =~= v.channels_of(owner)) by {
                assert forall|x: i64| gone.to_set().contains(x) <==> #[trigger] v.channels_of(
                    owner,
                ).contains(x) by {
                    assert(gone.contains(x) == gone.to_set().contains(x));
                    assert(ids@.contains(x) == ids@.to_set().contains(x));
                }
            }
            assert(gone.no_duplicates());
        }
        arenas
    }

    /// Gives up every function of an application and returns the names of their request arenas.
    pub fn remove_client_functions(&mut self, owner: i64) -> (r: Vec<String>)
        ensures
            final(self)@ == old(self)@.without_functions(old(self)@.functions_of(owner)),
            lists_req_arenas(old(self)@, old(self)@.functions_of(owner), r@),
    {
        let ghost v = self@;
        let ids: Vec<i64> = keys_of(&self.functions);
        let mut arenas: Vec<String> = Vec::new();
        let ghost mut gone: Seq<i64> = Seq::empty();
        let mut i: usize = 0;
        proof {
            assert(gone.to_set() =~= Set::<i64>::empty());
            assert(v.function_names(gone.to_set()) =~= Set::<Seq<char>>::empty());
            assert(self@ =~= v.without_functions(gone.to_set()));
        }
        while i < ids.len()
            invariant
                i <= ids@.len(),
                ids@.no_duplicates(),
                ids@.to_set() == v.functions.dom(),
                self@ == v.without_functions(gone.to_set()),
                gone.no_duplicates(),
                gone.len() == arenas@.len(),
                forall|id: i64| #[trigger]
                    gone.contains(id) <==> ids@.take(i as int).contains(id) && v.functions[id].owner
                        == owner,
                forall|k: int|
                    0 <= k < gone.len() ==> (#[trigger] arenas@[k])@ == v.functions[gone[k]].req_arena@,
            decreases ids@.len() - i,
        {
            let id: i64 = ids[i];
            let ghost gone0 = gone;
            proof {
                assert(ids@.to_set().contains(id)) by {
                    assert(ids@[i as int] == id);
                }
                assert(ids@.take(i + 1) =~= ids@.take(i as int).push(id));
                assert(!ids@.take(i as int).contains(id)) by {
                    if ids@.take(i as int).contains(id) {
                        let j = choose|j: int|
                            0 <= j < i && #[trigger] ids@.take(i as int)[j] == id;
                        assert(ids@[j] == ids@[i as int]);
                    }
                }
                assert(!gone.contains(id));
                assert(!gone.to_set().contains(id));
                assert(self.functions@.dom().contains(id));
                assert(self.functions@[id] == v.functions[id]);
            }
            let taken: Option<(String, String)> = match self.functions.get(&id) {
                Some(c) => if c.owner == owner {
                    Some((c.name.clone(), c.req_arena.clone()))
                } else {
                    None
                },
                None => None,
            };
            if let Some((name, arena)) = taken {
                self.functions.remove(&id);
                self.fn_by_name.remove(name.as_str());
                arenas.push(arena);
                proof {
                    gone = gone.push(id);
                    assert(gone.to_set() =~= gone0.to_set().insert(id)) by {
                        lemma_push_contains(gone0, id);
                    }
                    lemma_push_contains(gone0, id);
                    assert(v.function_names(gone.to_set()) =~= v.function_names(gone0.to_set()).insert(name@)) by {
                        assert forall|n: Seq<char>| v.function_names(gone.to_set()).contains(n)
                            <==> #[trigger] v.function_names(gone0.to_set()).insert(name@).contains(n) by {
                            if v.function_names(gone.to_set()).contains(n) {
                                let x = choose|x: i64| #[trigger]
                                    gone.to_set().contains(x) && v.functions[x].name@ == n;
                                if x != id {
                                    assert(gone0.to_set().contains(x));
                                }
                            }
                            if v.function_names(gone0.to_set()).contains(n) {
                                let x = choose|x: i64| #[trigger]
                                    gone0.to_set().contains(x) && v.functions[x].name@ == n;
                                assert(gone.to_set().contains(x));
                            }
                            if n == name@ {
                                assert(gone.to_set().contains(id));
                            }
                        }
                    }
                    assert(self@ =~= v.without_functions(gone.to_set()));
                }
            }
            proof {
                assert forall|x: i64| #[trigger] gone.contains(x) <==> ids@.take(i + 1).contains(x)
                    && v.functions[x].owner == owner by {
                    lemma_push_contains(ids@.take(i as int), id);
                    lemma_push_contains(gone0, id);
                }
            }
            i = i + 1;
        }
        proof {
            assert(ids@.take(i as int) =~= ids@);
            assert(gone.to_set() =~= v.functions_of(owner)) by {
                assert forall|x: i64| gone.to_set().contains(x) <==> #[trigger] v.functions_of(
                    owner,
                ).contains(x) by {
                    assert(gone.contains(x) == gone.to_set().contains(x));
                    assert(ids@.contains(x) == ids@.to_set().contains(x));
                }
            }
            assert(gone.no_duplicates());
        }
        arenas
    }

    /// An id that no channel has had.
    pub fn alloc_channel_id(&mut self) -> (id: i64)
        requires
            old(self)@.next_channel < i64::MAX,
        ensures
            id == old(self)@.next_channel,
            final(self)@ == (RegistryView {
                next_channel: (old(self)@.next_channel + 1) as i64,
                ..old(self)@
            }),
    {
        let id: i64 = self.next_channel;
        self.next_channel = self.next_channel + 1;
        id
    }

    /// An id that no function has had.
    pub fn alloc_fn_id(&mut self) -> (id: i64)
        requires
            old(self)@.next_fn < i64::MAX,
        ensures
            id == old(self)@.next_fn,
            final(self)@ == (RegistryView {
                next_fn: (old(self)@.next_fn + 1) as i64,
                ..old(self)@
            }),
    {
        let id: i64 = self.next_fn;
        self.next_fn = self.next_fn + 1;
        id
    }

    pub fn channel_name_taken(&self, name: &str) -> (r: bool)
        ensures
            r == self@.chan_by_name.dom().contains(name@),
    {
        self.chan_by_name.contains_key(name)
    }

    /// Adds a channel under its id and its name.
    pub fn insert_channel(&mut self, c: ChannelMeta)
        ensures
            final(self)@ == old(self)@.with_channel(c),
    {
        self.chan_by_name.insert(c.name.clone(), c.id);
        self.channels.insert(c.id, c);
    }

    pub fn function_name_taken(&self, name: &str) -> (r: bool)
        ensures
            r == self@.fn_by_name.dom().contains(name@),
    {
        self.fn_by_name.contains_key(name)
    }

    /// Adds a function under its id and its name.
    pub fn insert_function(&mut self, f: FunctionMeta)
        ensures
            final(self)@ == old(self)@.with_function(f),
    {
        self.fn_by_name.insert(f.name.clone(), f.id);
        self.functions.insert(f.id, f);
    }

    /// The function with a name.
    pub fn find_function_by_name(&self, name: &str) -> (r: Option<&FunctionMeta>)
        ensures
            match r {
                Some(f) => self@.function_named(name@) == Some(*f),
                None => self@.function_named(name@) is None,
            },
    {
        match self.fn_by_name.get(name) {
            Some(id) => self.functions.get(id),
            None => None,
        }
    }

    /// The channel with a name.
    pub fn find_channel_by_name(&self, name: &str) -> (r: Option<&ChannelMeta>)
        ensures
            match r {
                Some(c) => self@.channel_named(name@) == Some(*c),
                None => self@.channel_named(name@) is None,
            },
    {
        match self.chan_by_name.get(name) {
            Some(id) => self.channels.get(id),
            None => None,
        }
    }

    fn pid(&self, client: i64) -> (r: i32)
        ensures
            r == self@.pid_of(client),
    {
        match self.clients.get(&client) {
            Some(c) => c.pid,
            None => 0,
        }
    }

    /// Who owns the channel with a name, and in which process.
    pub fn channel_owner(&self, name: &str) -> (r: Option<(i64, i32)>)
        ensures
            r == (match self@.channel_named(name@) {
                Some(c) => Some((c.owner, self@.pid_of(c.owner))),
                None => None,
            }),
    {
        match self.find_channel_by_name(name) {
            Some(c) => Some((c.owner, self.pid(c.owner))),
            None => None,
        }
    }

    /// Who owns the function with a name, and in which process.
    pub fn function_owner(&self, name: &str) -> (r: Option<(i64, i32)>)
        ensures
            r == (match self@.function_named(name@) {
                Some(f) => Some((f.owner, self@.pid_of(f.owner))),
                None => None,
            }),
    {
        match self.find_function_by_name(name) {
            Some(f) => Some((f.owner, self.pid(f.owner))),
            None => None,
        }
    }

    /// All channels.
    pub fn list_channels(&self) -> (r: Vec<ChannelInfo>)
        ensures
            lists_channels(self@, r@),
    {
        let ids: Vec<i64> = keys_of(&self.channels);
        let mut out: Vec<ChannelInfo> = Vec::new();
        let mut i: usize = 0;
        while i < ids.len()
            invariant
                i <= ids@.len(),
                ids@.to_set() == self@.channels.dom(),
                out@.len() == i,
                forall|k: int| 0 <= k < i ==> self@.describes(ids@[k], #[trigger] out@[k]),
            decreases ids@.len() - i,
        {
            proof {
                assert(ids@.to_set().contains(ids@[i as int]));
            }
            if let Some(c) = self.channels.get(&ids[i]) {
                let owner_app: String = match self.clients.get(&c.owner) {
                    Some(m) => m.app_name.clone(),
                    None => {
                        let s: String = String::new();
                        assert(s@ =~= Seq::<char>::empty());
                        s
                    },
                };
                out.push(
                    ChannelInfo {
                        channel_id: c.id,
                        name: c.name.clone(),
                        owner_app,
                        schema_fp: proto::fp_to_i64(c.schema_fp),
                        requires_key: c.key.is_some(),
                    },
                );
            }
            i = i + 1;
        }
        assert(ids@.no_duplicates());
        out
    }

    /// The arena and the schema of a channel, for who may read it.
    pub fn resolve_subscribe(
        &self,
        channel_id: i64,
        access_key: &str,
        expected_fp: Fingerprint,
    ) -> (r: Result<(String, Fingerprint), (i32, String)>)
        ensures
            refusal(r) == self@.subscribe_refusal(channel_id, access_key@, expected_fp),
            r matches Ok(x) ==> x.0@ == self@.channels[channel_id].arena@ && x.1
                == self@.channels[channel_id].schema_fp,
    {
        let c: &ChannelMeta = match self.channels.get(&channel_id) {
            Some(c) => c,
            None => {
                return Err((status::ERR_NOT_FOUND, "no such channel".to_owned()));
            },
        };
        match check_key(&c.key, access_key) {
            Ok(_) => match check_fp(expected_fp, c.schema_fp) {
                Ok(_) => Ok((c.arena.clone(), c.schema_fp)),
                Err(e) => Err(e),
            },
            Err(e) => Err(e),
        }
    }

    /// The id, the schemas and the request arena of a function, for who may call it.
    pub fn resolve_lookup(&self, name: &str, access_key: &str) -> (r: Result<
        (i64, Fingerprint, Fingerprint, String),
        (i32, String),
    >)
        ensures
            refusal(r) == self@.lookup_refusal(name@, access_key@),
            r matches Ok(x) ==> self@.function_named(name@) matches Some(f) && x.0 == f.id && x.1
                == f.req_fp && x.2 == f.resp_fp && x.3@ == f.req_arena@,
    {
        let f: &FunctionMeta = match self.find_function_by_name(name) {
            Some(f) => f,
            None => {
                return Err((status::ERR_NOT_FOUND, "no such function".to_owned()));
            },
        };
        match check_key(&f.key, access_key) {
            Ok(_) => Ok((f.id, f.req_fp, f.resp_fp, f.req_arena.clone())),
            Err(e) => Err(e),
        }
    }
}

// ---- laws ----------------------------------------------------------------------------------

/// Every operation keeps ids and names in order: adding an application; adding a channel or a
/// function under an id that was given out and a name that is free; letting an application go.
pub proof fn law_registry_stays_wf(
    v: RegistryView,
    client: ClientMeta,
    c: ChannelMeta,
    f: FunctionMeta,
    gone: i64,
)
    requires
        v.wf(),
        v.next_client < i64::MAX,
    ensures
        v.with_client(client).wf(),
        1 <= c.id < v.next_channel && !v.channels.dom().contains(c.id)
            && !v.chan_by_name.dom().contains(c.name@) ==> v.with_channel(c).wf(),
        1 <= f.id < v.next_fn && !v.functions.dom().contains(f.id) && !v.fn_by_name.dom().contains(
            f.name@,
        ) ==> v.with_function(f).wf(),
        v.released(gone).wf(),
{
    if 1 <= c.id < v.next_channel && !v.channels.dom().contains(c.id)
        && !v.chan_by_name.dom().contains(c.name@) {
        lemma_channel_added_wf(v, c);
    }
    if 1 <= f.id < v.next_fn && !v.functions.dom().contains(f.id) && !v.fn_by_name.dom().contains(
        f.name@,
    ) {
        lemma_function_added_wf(v, f);
    }
    lemma_released_wf(v, gone);
}

pub proof fn lemma_channel_added_wf(v: RegistryView, c: ChannelMeta)
    requires
        v.wf(),
        1 <= c.id < v.next_channel,
        !v.channels.dom().contains(c.id),
        !v.chan_by_name.dom().contains(c.name@),
    ensures
        v.with_channel(c).wf(),
{
    let w = v.with_channel(c);
    assert forall|n: Seq<char>| #[trigger] w.chan_by_name.dom().contains(n) implies {
        &&& w.channels.dom().contains(w.chan_by_name[n])
        &&& w.channels[w.chan_by_name[n]].name@ == n
    } by {
        if n != c.name@ {
            assert(v.chan_by_name.dom().contains(n));
        }
    }
}

pub proof fn lemma_function_added_wf(v: RegistryView, f: FunctionMeta)
    requires
        v.wf(),
        1 <= f.id < v.next_fn,
        !v.functions.dom().contains(f.id),
        !v.fn_by_name.dom().contains(f.name@),
    ensures
        v.with_function(f).wf(),
{
    let w = v.with_function(f);
    assert forall|n: Seq<char>| #[trigger] w.fn_by_name.dom().contains(n) implies {
        &&& w.functions.dom().contains(w.fn_by_name[n])
        &&& w.functions[w.fn_by_name[n]].name@ == n
    } by {
        if n != f.name@ {
            assert(v.fn_by_name.dom().contains(n));
        }
    }
}

pub proof fn lemma_released_wf(v: RegistryView, gone: i64)
    requires
        v.wf(),
    ensures
        v.released(gone).wf(),
{
    let w = v.released(gone);
    let ids = v.channels_of(gone);
    let fns = v.functions_of(gone);
    assert(w.functions == v.functions.remove_keys(fns));
    assert forall|id: i64| #[trigger] w.channels.dom().contains(id) implies {
        &&& w.chan_by_name.dom().contains(w.channels[id].name@)
        &&& w.chan_by_name[w.channels[id].name@] == id
    } by {
        assert(v.channels.dom().contains(id));
        let n = v.channels[id].name@;
        if v.channel_names(ids).contains(n) {
            let x = choose|x: i64| #[trigger] ids.contains(x) && v.channels[x].name@ == n;
            assert(v.channels.dom().contains(x));
            assert(x == id);
        }
    }
    assert forall|n: Seq<char>| #[trigger] w.chan_by_name.dom().contains(n) implies {
        &&& w.channels.dom().contains(w.chan_by_name[n])
        &&& w.channels[w.chan_by_name[n]].name@ == n
    } by {
        assert(v.chan_by_name.dom().contains(n));
        let id = v.chan_by_name[n];
        if ids.contains(id) {
            assert(v.channel_names(ids).contains(n));
        }
    }
    assert forall|id: i64| #[trigger] w.functions.dom().contains(id) implies {
        &&& w.fn_by_name.dom().contains(w.functions[id].name@)
        &&& w.fn_by_name[w.functions[id].name@] == id
    } by {
        assert(v.functions.dom().contains(id));
        let n = v.functions[id].name@;
        if v.function_names(fns).contains(n) {
            let x = choose|x: i64| #[trigger] fns.contains(x) && v.functions[x].name@ == n;
            assert(v.functions.dom().contains(x));
            assert(x == id);
        }
    }
    assert forall|n: Seq<char>| #[trigger] w.fn_by_name.dom().contains(n) implies {
        &&& w.functions.dom().contains(w.fn_by_name[n])
        &&& w.functions[w.fn_by_name[n]].name@ == n
    } by {
        assert(v.fn_by_name.dom().contains(n));
        let id = v.fn_by_name[n];
        if fns.contains(id) {
            assert(v.function_names(fns).contains(n));
        }
    }
}

/// An application that leaves frees the names that it held, and no others: a name can be taken
/// afterwards if and only if it was free or the leaver's.
pub proof fn law_release_frees_names(v: RegistryView, gone: i64, name: Seq<char>)
    requires
        v.wf(),
    ensures
        v.released(gone).chan_by_name.dom().contains(name) <==> v.chan_by_name.dom().contains(name)
            && v.channels[v.chan_by_name[name]].owner != gone,
        v.released(gone).fn_by_name.dom().contains(name) <==> v.fn_by_name.dom().contains(name)
            && v.functions[v.fn_by_name[name]].owner != gone,
        !v.released(gone).clients.dom().contains(gone),
{
    let ids = v.channels_of(gone);
    let fns = v.functions_of(gone);
    if v.chan_by_name.dom().contains(name) {
        let id = v.chan_by_name[name];
        if v.channels[id].owner == gone {
            assert(ids.contains(id));
        }
        if v.channel_names(ids).contains(name) {
            let x = choose|x: i64| #[trigger] ids.contains(x) && v.channels[x].name@ == name;
            assert(v.channels.dom().contains(x));
        }
    }
    if v.fn_by_name.dom().contains(name) {
        let id = v.fn_by_name[name];
        if v.functions[id].owner == gone {
            assert(fns.contains(id));
        }
        if v.function_names(fns).contains(name) {
            let x = choose|x: i64| #[trigger] fns.contains(x) && v.functions[x].name@ == name;
            assert(v.functions.dom().contains(x));
        }
    }
}

/// A channel that was added can be read by who presents its key and expects its schema, and a
/// function that was added can be called by who presents its key.
pub proof fn law_added_is_found(
    v: RegistryView,
    c: ChannelMeta,
    f: FunctionMeta,
    key: Seq<char>,
)
    ensures
        key_refusal(c.key, key) is None ==> v.with_channel(c).subscribe_refusal(
            c.id,
            key,
            c.schema_fp,
        ) is None && v.with_channel(c).subscribe_refusal(c.id, key, 0) is None,
        key_refusal(f.key, key) is None ==> v.with_function(f).lookup_refusal(f.name@, key) is None,
        v.with_function(f).function_named(f.name@) == Some(f),
        v.with_channel(c).channel_named(c.name@) == Some(c),
{
}

/// The list of channels has one entry for every channel and no other: its id, its name, the
/// fingerprint of its schema, the name of the application that owns it (none where the owner is
/// not known), and whether it asks for a key. The fingerprint is the one that reading the channel
/// gives.
pub proof fn law_list_says_what_there_is(
    reg: Registry,
    r: Vec<ChannelInfo>,
    id: i64,
    access_key: &str,
    got: Result<(String, Fingerprint), (i32, String)>,
)
    requires
        reg@.wf(),
        call_ensures(Registry::list_channels, (&reg,), r),
        call_ensures(Registry::resolve_subscribe, (&reg, id, access_key, 0u64), got),
    ensures
        reg.channels@.dom().contains(id) <==> exists|i: int|
            0 <= i < r@.len() && (#[trigger] r@[i]).channel_id == id,
        forall|i: int, j: int|
            0 <= i < r@.len() && 0 <= j < r@.len() && (#[trigger] r@[i]).channel_id == (
            #[trigger] r@[j]).channel_id ==> i == j,
        forall|i: int|
            0 <= i < r@.len() && (#[trigger] r@[i]).channel_id == id ==> {
                let c = reg.channels@[id];
                &&& r@[i].name@ == c.name@
                &&& r@[i].schema_fp as u64 == c.schema_fp
                &&& r@[i].requires_key <==> c.key is Some
                &&& reg.clients@.dom().contains(c.owner) ==> r@[i].owner_app@
                    == reg.clients@[c.owner].app_name@
                &&& !reg.clients@.dom().contains(c.owner) ==> r@[i].owner_app@.len() == 0
                &&& got matches Ok((arena, fp)) ==> fp == r@[i].schema_fp as u64
            },
{
    let v = reg@;
    let order = choose|order: Seq<i64>| #[trigger]
        order.no_duplicates() && order.to_set() == v.channels.dom() && order.len() == r@.len()
            && forall|i: int| 0 <= i < order.len() ==> v.describes(order[i], #[trigger] r@[i]);
    assert forall|i: int| 0 <= i < r@.len() implies (#[trigger] r@[i]).channel_id == order[i]
        && v.channels.dom().contains(order[i]) by {
        assert(v.describes(order[i], r@[i]));
        assert(order.to_set().contains(order[i]));
    }
    if v.channels.dom().contains(id) {
        assert(order.to_set().contains(id));
        assert(order.contains(id));
        let i = choose|i: int| 0 <= i < order.len() && order[i] == id;
        assert(r@[i].channel_id == id);
        proto::law_fingerprint_as_long(v.channels[id].schema_fp, 0);
    }
}

/// Who joins gets an id that nobody has, and is then known by it with the name and the process
/// that it gave; everybody else stays as it was.
pub proof fn law_joiner_is_known(
    reg: &mut Registry,
    app_name: String,
    pid: i32,
    id: i64,
)
    requires
        old(reg)@.wf(),
        old(reg)@.next_client < i64::MAX,
        call_ensures(Registry::add_client, (reg, app_name, pid), id),
    ensures
        !old(reg).clients@.dom().contains(id),
        final(reg)@.clients.dom().contains(id),
        final(reg)@.clients[id].app_name@ == app_name@,
        final(reg)@.clients[id].pid == pid,
        forall|other: i64| #[trigger]
            old(reg)@.clients.dom().contains(other) ==> final(reg)@.clients.dom().contains(other)
                && final(reg)@.clients[other] == old(reg)@.clients[other],
        forall|other: i64| #[trigger]
            final(reg)@.clients.dom().contains(other)
                ==> other == id || old(reg)@.clients.dom().contains(other),
        final(reg)@.channels == old(reg)@.channels,
        final(reg)@.functions == old(reg)@.functions,
        final(reg)@.next_client > id,
{
}

/// A channel that was added is found by its name and by its id, with all that is known of it, and
/// its owner with the process that it gave; other names and channels stay as they were.
pub proof fn law_added_channel_is_known(
    reg: &mut Registry,
    c: ChannelMeta,
    after: Registry,
    name: &str,
    found: Option<&ChannelMeta>,
    taken: bool,
    owner: Option<(i64, i32)>,
)
    requires
        call_ensures(Registry::insert_channel, (reg, c), ()),
        after@ == final(reg)@,
        call_ensures(Registry::find_channel_by_name, (&after, name), found),
        call_ensures(Registry::channel_name_taken, (&after, name), taken),
        call_ensures(Registry::channel_owner, (&after, name), owner),
    ensures
        name@ == c.name@ ==> found == Some(&c) && taken && (owner matches Some((o, pid)) && o
            == c.owner && pid == if old(reg)@.clients.dom().contains(c.owner) {
            old(reg)@.clients[c.owner].pid
        } else {
            0
        }),
        name@ != c.name@ ==> taken == old(reg)@.chan_by_name.dom().contains(name@),
        final(reg)@.channels.dom().contains(c.id) && final(reg)@.channels[c.id] == c,
        forall|id: i64|
            id != c.id ==> (#[trigger] final(reg)@.channels.dom().contains(id)
                <==> old(reg)@.channels.dom().contains(id))
                && final(reg)@.channels[id] == old(reg)@.channels[id],
        final(reg)@.clients == old(reg)@.clients,
        final(reg)@.functions == old(reg)@.functions,
{
}

/// A function that was added is found by its name and by its id, with all that is known of it,
/// and its owner with the process that it gave; other names and functions stay as they were.
pub proof fn law_added_function_is_known(
    reg: &mut Registry,
    f: FunctionMeta,
    after: Registry,
    name: &str,
    found: Option<&FunctionMeta>,
    taken: bool,
    owner: Option<(i64, i32)>,
)
    requires
        call_ensures(Registry::insert_function, (reg, f), ()),
        after@ == final(reg)@,
        call_ensures(Registry::find_function_by_name, (&after, name), found),
        call_ensures(Registry::function_name_taken, (&after, name), taken),
        call_ensures(Registry::function_owner, (&after, name), owner),
    ensures
        name@ == f.name@ ==> found == Some(&f) && taken && (owner matches Some((o, pid)) && o
            == f.owner && pid == if old(reg)@.clients.dom().contains(f.owner) {
            old(reg)@.clients[f.owner].pid
        } else {
            0
        }),
        name@ != f.name@ ==> taken == old(reg)@.fn_by_name.dom().contains(name@),
        final(reg)@.functions.dom().contains(f.id) && final(reg)@.functions[f.id] == f,
        forall|id: i64|
            id != f.id ==> (#[trigger] final(reg)@.functions.dom().contains(id)
                <==> old(reg)@.functions.dom().contains(id))
                && final(reg)@.functions[id] == old(reg)@.functions[id],
        final(reg)@.clients == old(reg)@.clients,
        final(reg)@.channels == old(reg)@.channels,
{
}

/// An id for a channel or a function is one that none has, and is not given again.
pub proof fn law_ids_are_new(reg: &mut Registry, other: &mut Registry, id: i64, fn_id: i64)
    requires
        old(reg)@.wf(),
        old(other)@.wf(),
        old(reg)@.next_channel < i64::MAX,
        old(other)@.next_fn < i64::MAX,
        call_ensures(Registry::alloc_channel_id, (reg,), id),
        call_ensures(Registry::alloc_fn_id, (other,), fn_id),
    ensures
        !old(reg)@.channels.dom().contains(id),
        !old(other)@.functions.dom().contains(fn_id),
        id < final(reg)@.next_channel && old(reg)@.next_channel <= id,
        fn_id < final(other)@.next_fn && old(other)@.next_fn <= fn_id,
        final(reg)@.wf() && final(other)@.wf(),
        final(reg)@.channels == old(reg)@.channels && final(reg)@.clients == old(reg)@.clients,
        final(other)@.functions == old(other)@.functions
            && final(other)@.clients == old(other)@.clients,
{
}

/// A channel is read by its id exactly where there is one, the presented key is the one that it
/// asks for, if it asks for one, and the expected schema is its own, if one is expected. Who may
/// read it is given its arena and the fingerprint of its schema, and who may not is told why.
pub proof fn law_channel_is_read_by_who_may(
    reg: Registry,
    id: i64,
    access_key: &str,
    expected_fp: Fingerprint,
    r: Result<(String, Fingerprint), (i32, String)>,
)
    requires
        call_ensures(Registry::resolve_subscribe, (&reg, id, access_key, expected_fp), r),
    ensures
        ({
            let known = reg.channels@.dom().contains(id);
            let c = reg.channels@[id];
            let opens = c.key matches Some(hash) ==> util::hashed_key(access_key@) == hash@;
            let agrees = expected_fp == 0 || expected_fp == c.schema_fp;
            &&& r is Ok <==> known && opens && agrees
            &&& r matches Ok((arena, fp)) ==> arena@ == c.arena@ && fp == c.schema_fp
            &&& r matches Err((code, words)) ==> code == if !known {
                status::ERR_NOT_FOUND
            } else if !opens {
                status::ERR_DENIED
            } else {
                status::ERR_SCHEMA_MISMATCH
            }
            &&& r matches Err((code, words)) ==> words@ == if !known {
                "no such channel"@
            } else if !opens {
                "invalid access key"@
            } else {
                "schema mismatch: expected 0x"@ + text::hex(expected_fp as nat) + ", got 0x"@
                    + text::hex(c.schema_fp as nat)
            }
        }),
{
}

/// A function is called by its name exactly where there is one and the presented key is the one
/// that it asks for, if it asks for one. Who may call it is given its id, the fingerprints of its
/// schemas and its request arena, and who may not is told why.
pub proof fn law_function_is_called_by_who_may(
    reg: Registry,
    name: &str,
    access_key: &str,
    r: Result<(i64, Fingerprint, Fingerprint, String), (i32, String)>,
)
    requires
        reg@.wf(),
        call_ensures(Registry::resolve_lookup, (&reg, name, access_key), r),
    ensures
        ({
            let known = reg.fn_by_name@.dom().contains(name@);
            let f = reg.functions@[reg.fn_by_name@[name@]];
            let opens = f.key matches Some(hash) ==> util::hashed_key(access_key@) == hash@;
            &&& r is Ok <==> known && opens
            &&& r matches Ok((id, req_fp, resp_fp, arena)) ==> id == f.id && req_fp == f.req_fp
                && resp_fp == f.resp_fp && arena@ == f.req_arena@ && f.name@ == name@
            &&& r matches Err((code, words)) ==> code == if !known {
                status::ERR_NOT_FOUND
            } else {
                status::ERR_DENIED
            }
            &&& r matches Err((code, words)) ==> words@ == if !known {
                "no such function"@
            } else {
                "invalid access key"@
            }
        }),
{
}

/// A channel of an application lies in an arena.
pub open spec fn channel_lies_in(v: RegistryView, owner: i64, arena: Seq<char>) -> bool {
    exists|id: i64| #[trigger]
        v.channels.dom().contains(id) && v.channels[id].owner == owner && v.channels[id].arena@
            == arena
}

/// A function of an application takes its requests from an arena.
pub open spec fn function_lies_in(v: RegistryView, owner: i64, arena: Seq<char>) -> bool {
    exists|id: i64| #[trigger]
        v.functions.dom().contains(id) && v.functions[id].owner == owner
            && v.functions[id].req_arena@ == arena
}

/// What an application owned is given up, and nothing else: the arenas that are returned are
/// those of its channels, each once.
pub proof fn law_own_channels_are_given_up(reg: &mut Registry, owner: i64, r: Vec<String>)
    requires
        old(reg)@.wf(),
        call_ensures(Registry::remove_client_channels, (reg, owner), r),
    ensures
        forall|id: i64| #[trigger]
            final(reg)@.channels.dom().contains(id) <==> old(reg)@.channels.dom().contains(id)
                && old(reg)@.channels[id].owner != owner,
        forall|id: i64| #[trigger]
            final(reg)@.channels.dom().contains(id)
                ==> final(reg)@.channels[id] == old(reg)@.channels[id],
        forall|name: Seq<char>| #[trigger]
            final(reg)@.chan_by_name.dom().contains(name)
                <==> old(reg)@.chan_by_name.dom().contains(
                name,
            ) && old(reg)@.channels[old(reg)@.chan_by_name[name]].owner != owner,
        forall|id: i64| #[trigger]
            old(reg)@.channels.dom().contains(id) && old(reg)@.channels[id].owner == owner
                ==> exists|i: int|
                0 <= i < r@.len() && (#[trigger] r@[i])@ == old(reg)@.channels[id].arena@,
        forall|i: int| 0 <= i < r@.len() ==> channel_lies_in(old(reg)@, owner, (#[trigger] r@[i])@),
        final(reg)@.clients == old(reg)@.clients,
        final(reg)@.functions == old(reg)@.functions,
        final(reg)@.fn_by_name == old(reg)@.fn_by_name,
{
    let v = old(reg)@;
    let ids = v.channels_of(owner);
    let order = choose|order: Seq<i64>| #[trigger]
        order.no_duplicates() && order.to_set() == ids && order.len() == r@.len() && forall|i: int|
            0 <= i < order.len() ==> (#[trigger] r@[i])@ == v.channels[order[i]].arena@;
    assert forall|name: Seq<char>| #[trigger]
        final(reg)@.chan_by_name.dom().contains(name) <==> v.chan_by_name.dom().contains(name)
            && v.channels[v.chan_by_name[name]].owner != owner by {
        if v.chan_by_name.dom().contains(name) {
            let id = v.chan_by_name[name];
            if v.channels[id].owner == owner {
                assert(ids.contains(id));
            }
            if v.channel_names(ids).contains(name) {
                let x = choose|x: i64| #[trigger] ids.contains(x) && v.channels[x].name@ == name;
                assert(v.channels.dom().contains(x));
            }
        }
    }
    assert forall|id: i64| #[trigger]
        v.channels.dom().contains(id) && v.channels[id].owner == owner implies exists|i: int|
        0 <= i < r@.len() && (#[trigger] r@[i])@ == v.channels[id].arena@ by {
        assert(order.to_set().contains(id));
        assert(order.contains(id));
        let i = choose|i: int| 0 <= i < order.len() && order[i] == id;
        assert(r@[i]@ == v.channels[id].arena@);
    }
    assert forall|i: int| 0 <= i < r@.len()
        implies channel_lies_in(v, owner, (#[trigger] r@[i])@) by {
        assert(order.to_set().contains(order[i]));
        assert(v.channels.dom().contains(order[i]));
    }
}

/// What an application offered is given up, and nothing else: the arenas that are returned are
/// those of its functions, each once.
pub proof fn law_own_functions_are_given_up(reg: &mut Registry, owner: i64, r: Vec<String>)
    requires
        old(reg)@.wf(),
        call_ensures(Registry::remove_client_functions, (reg, owner), r),
    ensures
        forall|id: i64| #[trigger]
            final(reg)@.functions.dom().contains(id) <==> old(reg)@.functions.dom().contains(id)
                && old(reg)@.functions[id].owner != owner,
        forall|id: i64| #[trigger]
            final(reg)@.functions.dom().contains(id)
                ==> final(reg)@.functions[id] == old(reg)@.functions[id],
        forall|name: Seq<char>| #[trigger]
            final(reg)@.fn_by_name.dom().contains(name) <==> old(reg)@.fn_by_name.dom().contains(
                name,
            ) && old(reg)@.functions[old(reg)@.fn_by_name[name]].owner != owner,
        forall|id: i64| #[trigger]
            old(reg)@.functions.dom().contains(id) && old(reg)@.functions[id].owner == owner
                ==> exists|i: int|
                0 <= i < r@.len() && (#[trigger] r@[i])@ == old(reg)@.functions[id].req_arena@,
        forall|i: int| 0 <= i < r@.len()
            ==> function_lies_in(old(reg)@, owner, (#[trigger] r@[i])@),
        final(reg)@.clients == old(reg)@.clients,
        final(reg)@.channels == old(reg)@.channels,
        final(reg)@.chan_by_name == old(reg)@.chan_by_name,
{
    let v = old(reg)@;
    let ids = v.functions_of(owner);
    let order = choose|order: Seq<i64>| #[trigger]
        order.no_duplicates() && order.to_set() == ids && order.len() == r@.len() && forall|i: int|
            0 <= i < order.len() ==> (#[trigger] r@[i])@ == v.functions[order[i]].req_arena@;
    assert forall|name: Seq<char>| #[trigger]
        final(reg)@.fn_by_name.dom().contains(name) <==> v.fn_by_name.dom().contains(name)
            && v.functions[v.fn_by_name[name]].owner != owner by {
        if v.fn_by_name.dom().contains(name) {
            let id = v.fn_by_name[name];
            if v.functions[id].owner == owner {
                assert(ids.contains(id));
            }
            if v.function_names(ids).contains(name) {
                let x = choose|x: i64| #[trigger] ids.contains(x) && v.functions[x].name@ == name;
                assert(v.functions.dom().contains(x));
            }
        }
    }
    assert forall|id: i64| #[trigger]
        v.functions.dom().contains(id) && v.functions[id].owner == owner implies exists|i: int|
        0 <= i < r@.len() && (#[trigger] r@[i])@ == v.functions[id].req_arena@ by {
        assert(order.to_set().contains(id));
        assert(order.contains(id));
        let i = choose|i: int| 0 <= i < order.len() && order[i] == id;
        assert(r@[i]@ == v.functions[id].req_arena@);
    }
    assert forall|i: int| 0 <= i < r@.len()
        implies function_lies_in(v, owner, (#[trigger] r@[i])@) by {
        assert(order.to_set().contains(order[i]));
        assert(v.functions.dom().contains(order[i]));
    }
}

/// An application that is forgotten is not known any more, and nobody else is forgotten.
pub proof fn law_forgotten_client_is_unknown(reg: &mut Registry, id: i64)
    requires
        call_ensures(Registry::remove_client, (reg, id), ()),
    ensures
        forall|other: i64| #[trigger]
            final(reg)@.clients.dom().contains(other) <==> other != id
                && old(reg)@.clients.dom().contains(other),
        forall|other: i64| #[trigger]
            final(reg)@.clients.dom().contains(other)
                ==> final(reg)@.clients[other] == old(reg)@.clients[other],
        final(reg)@.channels == old(reg)@.channels,
        final(reg)@.functions == old(reg)@.functions,
{
}

/// A key lets in exactly who presents it, and everyone where there is none; a schema agrees with
/// itself alone, or with no expectation.
pub proof fn law_checks_let_in_who_may(
    policy: Option<[u8; 32]>,
    presented: &str,
    by_key: AccessResult,
    expected: Fingerprint,
    actual: Fingerprint,
    by_fp: AccessResult,
)
    requires
        call_ensures(check_key, (&policy, presented), by_key),
        call_ensures(check_fp, (expected, actual), by_fp),
    ensures
        by_key is Ok <==> (policy matches Some(hash) ==> hash@ == util::hashed_key(presented@)),
        by_key matches Err((code, words)) ==> code == status::ERR_DENIED && words@
            == "invalid access key"@,
        by_fp is Ok <==> expected == 0 || expected == actual,
        by_fp matches Err((code, words)) ==> code == status::ERR_SCHEMA_MISMATCH && words@
            == "schema mismatch: expected 0x"@ + text::hex(expected as nat) + ", got 0x"@ + text::hex(
            actual as nat,
        ),
{
}

} // verus!
