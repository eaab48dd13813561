//! The broker's decisions: what a control message changes, and what has to be done about it.
//!
//! The broker's state is plain. What only the system can do is handed out as an action: to open
//! a connector's reply segment, to ask whether a process lives, to create an arena, to send a
//! frame. Who performs the action comes back with what came of it, and the broker goes on from
//! there.
use std::collections::HashMap;

use vstd::prelude::*;

use crate::avro;
use crate::avro::{AvroError, RecordView};
use crate::control;
use crate::frame;
use crate::frame::{Frame, FrameError, FrameView};
use crate::proto;
use crate::proto::messages::Message;
use crate::proto::status;
use crate::proto::{
    Catalog, ChannelList, ExposeFunction, ExposeReply, Kind, ListChannels, LookupFunction,
    LookupReply, ProtoError, PublishChannel, PublishReply, Register, RegisterReply, Subscribe,
    SubscribeReply, Unregister,
};
use crate::registry;
use crate::registry::{ChannelMeta, ClientMeta, FunctionMeta, Registry, RegistryView};
use crate::ring;
use crate::ring::{PopStep, Ring};
use crate::shm;
use crate::shm::{Failure, ShmError};
use crate::text;
use crate::util;

verus! {

broadcast use vstd::std_specs::hash::group_hash_axioms;

/// How long the broker waits for room in a connector's reply ring, in nanoseconds.
pub const REPLY_NANOS: u64 = 2_000_000_000;

/// How long the broker waits for a message before it looks whether to go on, in nanoseconds.
pub const IDLE_NANOS: u64 = 200_000_000;

// ---- starting ------------------------------------------------------------------------------

/// Why the broker did not start.
#[derive(Debug)]
pub enum StartError {
    /// Another broker owns the bus.
    AlreadyRunning,
    /// The system refused something, in its words.
    Io(String),
}

impl StartError {
    /// The error in words.
    pub open spec fn text(self) -> Seq<char> {
        match self {
            StartError::AlreadyRunning => "another impulsed broker is already running"@,
            StartError::Io(s) => s@,
        }
    }

    /// The error in words.
    pub fn message(&self) -> (r: String)
        ensures
            r@ == self.text(),
    {
        match self {
            StartError::AlreadyRunning => "another impulsed broker is already running".to_owned(),
            StartError::Io(s) => s.clone(),
        }
    }
}

/// What a look at the control segment found.
#[derive(Clone, Copy, Debug, PartialEq, Eq, Structural)]
pub enum Found {
    /// There is none.
    Missing,
    /// There is one that may not be opened.
    Denied,
    /// There is one, which is or is not a valid control segment of a process that lives.
    Segment { valid: bool, alive: bool },
    /// The look failed otherwise.
    Failed,
}

/// What a look at the control segment found, by what came of opening it: whether it is a valid
/// control segment and whether the process in it lives, or why it was not opened. A segment
/// without a size is there, and is not valid.
pub fn found_of(opened: Result<(bool, bool), Failure>) -> (r: Found)
    ensures
        r == (match opened {
            Ok((valid, alive)) => Found::Segment { valid, alive },
            Err(Failure::Os { errno }) => if errno == shm::ENOENT {
                Found::Missing
            } else if errno == shm::EACCES {
                Found::Denied
            } else {
                Found::Failed
            },
            Err(Failure::Shm(ShmError::ZeroSize)) => Found::Segment { valid: false, alive: false },
            Err(Failure::Shm(ShmError::NulInName)) => Found::Failed,
        }),
{
    match opened {
        Ok((valid, alive)) => Found::Segment { valid, alive },
        Err(Failure::Os { errno }) => if errno == shm::ENOENT {
            Found::Missing
        } else if errno == shm::EACCES {
            Found::Denied
        } else {
            Found::Failed
        },
        Err(Failure::Shm(ShmError::ZeroSize)) => Found::Segment { valid: false, alive: false },
        Err(Failure::Shm(ShmError::NulInName)) => Found::Failed,
    }
}

/// What to do about a control segment before the broker starts.
#[derive(Clone, Copy, Debug, PartialEq, Eq, Structural)]
pub enum Guard {
    Start,
    /// Remove the segment that is there, and start.
    Reclaim,
    /// Leave everything as it is.
    AlreadyRunning,
    /// Pass the failure on.
    Fail,
}

/// At most one broker owns the bus: one that lives, or that belongs to another user, is left
/// alone, and what a dead one left is removed.
pub fn guard_singleton(found: Found) -> (r: Guard)
    ensures
        r == (match found {
            Found::Missing => Guard::Start,
            Found::Denied => Guard::AlreadyRunning,
            Found::Segment { valid, alive } => if valid && alive {
                Guard::AlreadyRunning
            } else {
                Guard::Reclaim
            },
            Found::Failed => Guard::Fail,
        }),
{
    match found {
        Found::Missing => Guard::Start,
        Found::Denied => Guard::AlreadyRunning,
        Found::Segment { valid, alive } => if valid && alive {
            Guard::AlreadyRunning
        } else {
            Guard::Reclaim
        },
        Found::Failed => Guard::Fail,
    }
}

// ---- errors --------------------------------------------------------------------------------

/// Why a message was not answered.
#[derive(Debug)]
pub enum BrokerError {
    Frame(FrameError),
    UnknownFingerprint,
    /// A kind that the broker does not take.
    Unexpected(Kind),
    Proto(ProtoError),
    Avro(AvroError),
    NoReplyRing,
    ReplyRingFull,
}

impl BrokerError {
    /// The error in words.
    pub open spec fn text(self) -> Seq<char> {
        match self {
            BrokerError::Frame(e) => e.text(),
            BrokerError::UnknownFingerprint => "unknown control schema fingerprint"@,
            BrokerError::Unexpected(kind) => "unexpected control kind "@ + proto::kind_text(kind),
            BrokerError::Proto(e) => e.text(),
            BrokerError::Avro(e) => e.text(),
            BrokerError::NoReplyRing => "reply ring for client not found"@,
            BrokerError::ReplyRingFull => "reply ring full (client stuck?)"@,
        }
    }

    /// The error in words.
    pub fn message(&self) -> (r: String)
        ensures
            r@ == self.text(),
    {
        match self {
            BrokerError::Frame(e) => e.message(),
            BrokerError::UnknownFingerprint => "unknown control schema fingerprint".to_owned(),
            BrokerError::Unexpected(kind) => {
                let mut s: String = "unexpected control kind ".to_owned();
                s.append(proto::kind_name(*kind));
                s
            },
            BrokerError::Proto(e) => e.message(),
            BrokerError::Avro(e) => e.message(),
            BrokerError::NoReplyRing => "reply ring for client not found".to_owned(),
            BrokerError::ReplyRingFull => "reply ring full (client stuck?)".to_owned(),
        }
    }
}

/// What became of a frame that was to be sent, by whether the ring took it.
pub fn sent(pushed: bool) -> (r: Result<(), BrokerError>)
    ensures
        r is Ok <==> pushed,
        r matches Err(e) ==> e is ReplyRingFull,
{
    if pushed {
        Ok(())
    } else {
        Err(BrokerError::ReplyRingFull)
    }
}

// ---- actions -------------------------------------------------------------------------------

/// A channel or a function that waits for its arena, with the correlation id of its request.
#[derive(Debug)]
pub enum Pending {
    Channel { correlation_id: i64, meta: ChannelMeta },
    Function { correlation_id: i64, meta: FunctionMeta },
}

/// A request that waits to learn whether the owner of a name lives.
#[derive(Debug)]
pub enum Question {
    Publish(PublishChannel),
    Expose(ExposeFunction),
}

/// What has to be done next.
#[derive(Debug)]
pub enum Action {
    Done,
    /// Open the reply segment, attach to its ring and go on with `opened`.
    OpenReply(Register),
    /// Find out whether the process lives and go on with `probed`.
    Probe { pid: i32, question: Question },
    /// Create an arena with an empty ring of this capacity and go on with `created`.
    Create { arena: String, cap: usize, pending: Pending },
    /// Push the frame onto the connector's reply ring.
    Send { client_id: i64, frame: Frame },
    Fail(BrokerError),
}

/// An application that left: its reply ring is let go, and its arenas are removed.
#[derive(Debug)]
pub struct Release {
    pub client_id: i64,
    pub arenas: Vec<String>,
}

/// What has to be let go at once, and what has to be done then.
#[derive(Debug)]
pub struct Step {
    pub released: Option<Release>,
    pub action: Action,
}

/// What a round of the broker's loop came to.
#[derive(Debug)]
pub enum Round {
    Handled(Step),
    TimedOut,
    /// Sleep for at most `nanos` while the data word is `seen`, and look again.
    Park { seen: u32, nanos: u64 },
}

// ---- state ---------------------------------------------------------------------------------

/// What the broker remembers: the registry, the reply segment of every application on the bus,
/// and every reply segment that it ever opened.
pub struct Broker {
    pub reg: Registry,
    pub rings: HashMap<i64, String>,
    pub reply_names: Vec<String>,
}

#[verifier::ext_equal]
pub ghost struct BrokerView {
    pub reg: RegistryView,
    pub rings: Map<i64, String>,
    pub reply_names: Seq<String>,
}

impl View for Broker {
    type V = BrokerView;

    open spec fn view(&self) -> BrokerView {
        BrokerView { reg: self.reg@, rings: self.rings@, reply_names: self.reply_names@ }
    }
}

impl BrokerView {
    /// The registry is in order, exactly the applications on the bus can be answered, and every
    /// arena has the name that its id gives it.
    pub open spec fn wf(self) -> bool {
        &&& self.reg.wf()
        &&& self.rings.dom() == self.reg.clients.dom()
        &&& forall|id: i64| #[trigger]
            self.reg.channels.dom().contains(id) ==> self.reg.channels[id].arena@ == util::numbered(
                "/impulse-ring.arena."@,
                id as nat,
            )
        &&& forall|id: i64| #[trigger]
            self.reg.functions.dom().contains(id) ==> self.reg.functions[id].req_arena@
                == util::numbered("/impulse-ring.fn."@, id as nat)
    }

    /// The broker once an application left.
    pub open spec fn released(self, client_id: i64) -> BrokerView {
        BrokerView {
            reg: self.reg.released(client_id),
            rings: self.rings.remove(client_id),
            ..self
        }
    }

    /// The broker once an application joined.
    pub open spec fn joined(self, m: Register) -> BrokerView {
        BrokerView {
            reg: self.reg.with_client(ClientMeta { app_name: m.app_name, pid: m.pid as i32 }),
            rings: self.rings.insert(self.reg.next_client, m.reply_segment),
            reply_names: self.reply_names.push(m.reply_segment),
        }
    }
}

/// What is let go when an application leaves: its channels' arenas and its functions' arenas.
pub open spec fn releases(v: BrokerView, client_id: i64, r: Release) -> bool {
    &&& r.client_id == client_id
    &&& exists|n: int|
        0 <= n <= r.arenas@.len() && registry::lists_arenas(
            v.reg,
            v.reg.channels_of(client_id),
            #[trigger] r.arenas@.take(n),
        ) && registry::lists_req_arenas(
            v.reg,
            v.reg.functions_of(client_id),
            r.arenas@.skip(n),
        )
}

/// A record is sent to an application, if it has a reply ring and the record can be written.
pub open spec fn replies(
    v: BrokerView,
    client_id: i64,
    kind: Kind,
    fields: RecordView,
    action: Action,
) -> bool {
    &&& match action {
        Action::Send { client_id: to, frame } => to == client_id && v.rings.dom().contains(client_id)
            && proto::frame_holds(frame@, kind, fields),
        Action::Fail(BrokerError::NoReplyRing) => !v.rings.dom().contains(client_id),
        Action::Fail(BrokerError::Avro(_)) => v.rings.dom().contains(client_id)
            && avro::avro_written(proto::schema_text(kind), fields) is None,
        _ => false,
    }
    &&& v.rings.dom().contains(client_id) && avro::typed(fields, proto::kind_shape(kind))
        ==> action is Send
    &&& v.rings.dom().contains(client_id) && avro::conforms(fields, proto::kind_shape(kind))
        ==> action is Send && avro::avro_read(proto::schema_text(kind), action->frame.body@)
        == Some(fields)
}

/// The hash that a channel or a function is locked with: none for the empty key.
pub open spec fn is_policy(key: Seq<char>, policy: Option<[u8; 32]>) -> bool {
    match policy {
        None => key.len() == 0,
        Some(hash) => key.len() > 0 && hash@ == util::hashed_key(key),
    }
}

fn policy_of(key: &str) -> (r: Option<[u8; 32]>)
    ensures
        is_policy(key@, r),
{
    if key.unicode_len() == 0 {
        None
    } else {
        Some(util::key_hash(key))
    }
}

/// Who locks with a key can open with it.
pub proof fn law_own_key_opens(key: Seq<char>, policy: Option<[u8; 32]>)
    requires
        is_policy(key, policy),
    ensures
        registry::key_refusal(policy, key) is None,
{
}

/// Whether an owner is taken to live: one whose process is not known is, and otherwise what was
/// found out, `None` where nothing was yet.
pub open spec fn taken_alive(pid: i32, probed: Option<bool>) -> Option<bool> {
    if pid == 0 {
        Some(true)
    } else {
        probed
    }
}

/// Whether the owner of a name is taken to live.
pub fn owner_alive(pid: i32, probed: Option<bool>) -> (r: Option<bool>)
    ensures
        r == taken_alive(pid, probed),
{
    if pid == 0 {
        Some(true)
    } else {
        probed
    }
}

impl Broker {
    /// A broker that knows nobody yet.
    pub fn new() -> (r: Broker)
        ensures
            r@.reg == RegistryView::fresh(),
            r@.rings == Map::<i64, String>::empty(),
            r@.reply_names == Seq::<String>::empty(),
            r@.wf(),
    {
        let r = Broker { reg: Registry::new(), rings: HashMap::new(), reply_names: Vec::new() };
        assert(r@.rings.dom() =~= r@.reg.clients.dom());
        r
    }

    /// The action that answers a connector.
    fn reply<T: Message>(&self, catalog: &Catalog, client_id: i64, kind: Kind, msg: &T) -> (r: Action)
        ensures
            replies(self@, client_id, kind, msg.fields(), r),
    {
        if !self.rings.contains_key(&client_id) {
            return Action::Fail(BrokerError::NoReplyRing);
        }
        match proto::to_frame(catalog, kind, msg) {
            Ok(frame) => Action::Send { client_id, frame },
            Err(e) => Action::Fail(BrokerError::Avro(e)),
        }
    }

    /// Gives up everything that an application owned.
    pub fn release_client(&mut self, client_id: i64) -> (r: Release)
        requires
            old(self)@.wf(),
        ensures
            final(self)@ == old(self)@.released(client_id),
            releases(old(self)@, client_id, r),
            final(self)@.wf(),
    {
        let ghost v = self@;
        let mut arenas: Vec<String> = self.reg.remove_client_channels(client_id);
        let ghost v1 = self@;
        let ghost first = arenas@;
        let mut more: Vec<String> = self.reg.remove_client_functions(client_id);
        let ghost second = more@;
        arenas.append(&mut more);
        self.reg.remove_client(client_id);
        self.rings.remove(&client_id);
        proof {
            assert(arenas@.take(first.len() as int) =~= first);
            assert(arenas@.skip(first.len() as int) =~= second);
            assert(v1.reg.functions == v.reg.functions);
            assert(v1.reg.functions_of(client_id) =~= v.reg.functions_of(client_id));
            assert(registry::lists_req_arenas(v.reg, v.reg.functions_of(client_id), second)) by {
                let order = choose|order: Seq<i64>| #[trigger]
                    order.no_duplicates() && order.to_set() == v1.reg.functions_of(client_id)
                        && order.len() == second.len() && forall|i: int|
                        0 <= i < order.len() ==> (#[trigger] second[i])@
                            == v1.reg.functions[order[i]].req_arena@;
                assert(order.no_duplicates());
            }
            assert(v1.reg.function_names(v1.reg.functions_of(client_id)) =~= v.reg.without_channels(
                v.reg.channels_of(client_id),
            ).function_names(v.reg.functions_of(client_id)));
            assert(self@ =~= v.released(client_id));
            lemma_released_wf(v, client_id);
        }
        let r = Release { client_id, arenas };
        proof {
            let n = first.len() as int;
            assert(registry::lists_arenas(
                v.reg,
                v.reg.channels_of(client_id),
                r.arenas@.take(n),
            ));
            assert(registry::lists_req_arenas(
                v.reg,
                v.reg.functions_of(client_id),
                r.arenas@.skip(n),
            ));
        }
        r
    }
}

proof fn lemma_released_wf(v: BrokerView, client_id: i64)
    requires
        v.wf(),
    ensures
        v.released(client_id).wf(),
{
    registry::lemma_released_wf(v.reg, client_id);
    let w = v.released(client_id);
    assert(w.rings.dom() =~= w.reg.clients.dom());
}

// ---- joining and leaving -------------------------------------------------------------------

impl Broker {
    /// A connector's reply segment was opened: the connector joins, under the id that is
    /// returned, and is told so.
    pub fn opened(&mut self, catalog: &Catalog, m: Register) -> (r: (i64, Action))
        requires
            old(self)@.wf(),
            old(self)@.reg.next_client < i64::MAX,
        ensures
            r.0 == old(self)@.reg.next_client,
            final(self)@ == old(self)@.joined(m),
            replies(
                final(self)@,
                r.0,
                Kind::RegisterReply,
                RegisterReply::record(m.correlation_id, r.0, status::OK, ""@),
                r.1,
            ),
            final(self)@.wf(),
    {
        let pid: i32 = #[verifier::truncate]
        (m.pid as i32);
        let app_name: String = m.app_name.clone();
        let client_id: i64 = self.reg.add_client(app_name, pid);
        self.rings.insert(client_id, m.reply_segment.clone());
        self.reply_names.push(m.reply_segment.clone());
        proof {
            assert(self@ =~= old(self)@.joined(m));
            assert(self@.rings.dom() =~= self@.reg.clients.dom());
        }
        let reply = RegisterReply {
            correlation_id: m.correlation_id,
            client_id,
            status: status::OK,
            message: "".to_owned(),
        };
        (client_id, self.reply(catalog, client_id, Kind::RegisterReply, &reply))
    }

    /// A connector leaves.
    pub fn on_unregister(&mut self, m: &Unregister) -> (r: Release)
        requires
            old(self)@.wf(),
        ensures
            final(self)@ == old(self)@.released(m.client_id),
            releases(old(self)@, m.client_id, r),
            final(self)@.wf(),
    {
        self.release_client(m.client_id)
    }
}

// ---- channels ------------------------------------------------------------------------------

/// The owner of a channel's name with its process.
pub open spec fn channel_holder(v: BrokerView, name: Seq<char>) -> Option<(i64, i32)> {
    match v.reg.channel_named(name) {
        Some(c) => Some((c.owner, v.reg.pid_of(c.owner))),
        None => None,
    }
}

/// The owner of a function's name with its process.
pub open spec fn function_holder(v: BrokerView, name: Seq<char>) -> Option<(i64, i32)> {
    match v.reg.function_named(name) {
        Some(f) => Some((f.owner, v.reg.pid_of(f.owner))),
        None => None,
    }
}

/// What a name that somebody asks for calls for.
pub ghost enum Claim {
    /// The name is free.
    Free,
    /// The name is taken by one that lives.
    Taken,
    /// The name is taken, and its owner's process has to be looked for.
    Ask(i32),
    /// The name is taken by one that died, who is let go.
    Reclaim(i64),
}

/// What a name calls for, by whether it is taken, its owner and what was found out of the owner.
pub open spec fn claim(taken: bool, holder: Option<(i64, i32)>, probed: Option<bool>) -> Claim {
    if !taken {
        Claim::Free
    } else {
        match holder {
            None => Claim::Taken,
            Some((owner, pid)) => match taken_alive(pid, probed) {
                None => Claim::Ask(pid),
                Some(alive) => if alive {
                    Claim::Taken
                } else {
                    Claim::Reclaim(owner)
                },
            },
        }
    }
}

pub open spec fn channel_claim(v: BrokerView, m: PublishChannel, probed: Option<bool>) -> Claim {
    claim(
        v.reg.chan_by_name.dom().contains(m.channel@),
        channel_holder(v, m.channel@),
        probed,
    )
}

pub open spec fn function_claim(v: BrokerView, m: ExposeFunction, probed: Option<bool>) -> Claim {
    claim(
        v.reg.fn_by_name.dom().contains(m.fn_name@),
        function_holder(v, m.fn_name@),
        probed,
    )
}

/// The broker once the owner of a claimed name, if it died, is let go.
pub open spec fn cleared(v: BrokerView, c: Claim) -> BrokerView {
    match c {
        Claim::Reclaim(owner) => v.released(owner),
        _ => v,
    }
}

/// What is let go for a claim.
pub open spec fn clears(v: BrokerView, c: Claim, released: Option<Release>) -> bool {
    match c {
        Claim::Reclaim(owner) => released matches Some(r) && releases(v, owner, r),
        _ => released is None,
    }
}

/// A channel as it was asked for, under a new id.
pub open spec fn new_channel(meta: ChannelMeta, id: i64, m: PublishChannel) -> bool {
    &&& meta.id == id
    &&& meta.name@ == m.channel@
    &&& meta.owner == m.client_id
    &&& meta.schema_fp as nat == avro::schema_fp(m.schema_json@)
    &&& is_policy(m.access_key@, meta.key)
    &&& meta.arena@ == util::numbered("/impulse-ring.arena."@, id as nat)
}

/// What a request for a channel does: a name that is taken is refused, a text that is no schema
/// too; otherwise the channel gets an id and waits for its arena.
pub open spec fn publishes(
    v: BrokerView,
    w: BrokerView,
    m: PublishChannel,
    probed: Option<bool>,
    step: Step,
) -> bool {
    let c = channel_claim(v, m, probed);
    let clear = cleared(v, c);
    &&& clears(v, c, step.released)
    &&& match c {
        Claim::Taken => w == v && replies(
            v,
            m.client_id,
            Kind::PublishReply,
            PublishReply::record(
                m.correlation_id,
                0,
                0,
                ""@,
                status::ERR_EXISTS,
                "channel already exists"@,
            ),
            step.action,
        ),
        Claim::Ask(pid) => w == v && step.action == (Action::Probe {
            pid,
            question: Question::Publish(m),
        }),
        _ => if !avro::is_schema(m.schema_json@) {
            w == clear && exists|why: Seq<char>| #[trigger]
                replies(
                    clear,
                    m.client_id,
                    Kind::PublishReply,
                    PublishReply::record(
                        m.correlation_id,
                        0,
                        0,
                        ""@,
                        status::ERR_INTERNAL,
                        "bad schema: "@ + why,
                    ),
                    step.action,
                )
        } else {
            let id = clear.reg.next_channel;
            &&& w == (BrokerView {
                reg: RegistryView { next_channel: (id + 1) as i64, ..clear.reg },
                ..clear
            })
            &&& step.action matches Action::Create { arena, cap, pending }
            &&& arena@ == util::numbered("/impulse-ring.arena."@, id as nat)
            &&& cap == control::ARENA_CAP
            &&& pending matches Pending::Channel { correlation_id, meta }
            &&& correlation_id == m.correlation_id
            &&& new_channel(meta, id, m)
        },
    }
}

/// A function as it was asked for, under a new id.
pub open spec fn new_function(meta: FunctionMeta, id: i64, m: ExposeFunction) -> bool {
    &&& meta.id == id
    &&& meta.name@ == m.fn_name@
    &&& meta.owner == m.client_id
    &&& meta.req_fp as nat == avro::schema_fp(m.req_schema_json@)
    &&& meta.resp_fp as nat == avro::schema_fp(m.resp_schema_json@)
    &&& is_policy(m.access_key@, meta.key)
    &&& meta.req_arena@ == util::numbered("/impulse-ring.fn."@, id as nat)
}

/// The capacity of a function's request arena: the default where none or a negative size is
/// asked for, and otherwise the smallest power of two that holds the size within the bounds.
pub open spec fn is_arena_cap(requested: i64, cap: usize) -> bool {
    let want = control::clamped(
        requested as int,
        control::MIN_ARENA_CAP as int,
        control::MAX_ARENA_CAP as int,
    );
    &&& requested <= 0 ==> cap == control::ARENA_CAP
    &&& requested > 0 ==> want <= cap && forall|p: int| #[trigger]
        vstd::arithmetic::power2::is_pow2(p) && want <= p ==> cap <= p
    &&& vstd::arithmetic::power2::is_pow2(cap as int)
}

/// What a request for a function does: a name that is taken is refused, texts that are no
/// schemas too; otherwise the function gets an id and waits for its arena.
pub open spec fn exposes(
    v: BrokerView,
    w: BrokerView,
    m: ExposeFunction,
    probed: Option<bool>,
    step: Step,
) -> bool {
    let c = function_claim(v, m, probed);
    let clear = cleared(v, c);
    &&& clears(v, c, step.released)
    &&& match c {
        Claim::Taken => w == v && replies(
            v,
            m.client_id,
            Kind::ExposeReply,
            ExposeReply::record(
                m.correlation_id,
                0,
                0,
                0,
                ""@,
                status::ERR_EXISTS,
                "function exists"@,
            ),
            step.action,
        ),
        Claim::Ask(pid) => w == v && step.action == (Action::Probe {
            pid,
            question: Question::Expose(m),
        }),
        _ => if !avro::is_schema(m.req_schema_json@) || !avro::is_schema(m.resp_schema_json@) {
            w == clear && replies(
                clear,
                m.client_id,
                Kind::ExposeReply,
                ExposeReply::record(
                    m.correlation_id,
                    0,
                    0,
                    0,
                    ""@,
                    status::ERR_INTERNAL,
                    "bad schema"@,
                ),
                step.action,
            )
        } else {
            let id = clear.reg.next_fn;
            &&& w == (BrokerView {
                reg: RegistryView { next_fn: (id + 1) as i64, ..clear.reg },
                ..clear
            })
            &&& step.action matches Action::Create { arena, cap, pending }
            &&& arena@ == util::numbered("/impulse-ring.fn."@, id as nat)
            &&& is_arena_cap(m.req_arena_cap, cap)
            &&& pending matches Pending::Function { correlation_id, meta }
            &&& correlation_id == m.correlation_id
            &&& new_function(meta, id, m)
        },
    }
}

/// The refusal of a function.
fn err_expose(correlation_id: i64, code: i32, msg: &str) -> (r: ExposeReply)
    ensures
        r.fields() == ExposeReply::record(correlation_id, 0, 0, 0, ""@, code, msg@),
{
    ExposeReply {
        correlation_id,
        fn_id: 0,
        req_fp: 0,
        resp_fp: 0,
        req_arena: "".to_owned(),
        status: code,
        message: msg.to_owned(),
    }
}

/// The refusal of a channel.
fn err_publish(correlation_id: i64, code: i32, msg: &str) -> (r: PublishReply)
    ensures
        r.fields() == PublishReply::record(correlation_id, 0, 0, ""@, code, msg@),
{
    PublishReply {
        correlation_id,
        channel_id: 0,
        schema_fp: 0,
        arena: "".to_owned(),
        status: code,
        message: msg.to_owned(),
    }
}

fn arena_cap(requested: i64) -> (r: usize)
    ensures
        is_arena_cap(requested, r),
{
    if requested <= 0 {
        control::clamp_arena_cap(0)
    } else if requested > control::MAX_ARENA_CAP as i64 {
        control::clamp_arena_cap(control::MAX_ARENA_CAP)
    } else {
        control::clamp_arena_cap(requested as usize)
    }
}

impl Broker {
    /// A connector asks for a channel. `probed` says whether the owner of the channel's name
    /// lives, where that was found out.
    pub fn on_publish(&mut self, catalog: &Catalog, m: PublishChannel, probed: Option<bool>) -> (r: Step)
        requires
            old(self)@.wf(),
            old(self)@.reg.next_channel < i64::MAX,
        ensures
            publishes(old(self)@, final(self)@, m, probed, r),
            final(self)@.wf(),
    {
        let ghost v = self@;
        let ghost c = channel_claim(v, m, probed);
        let mut released: Option<Release> = None;
        if self.reg.channel_name_taken(m.channel.as_str()) {
            let dead: Option<i64> = match self.reg.channel_owner(m.channel.as_str()) {
                Some((owner, pid)) => match owner_alive(pid, probed) {
                    Some(alive) => if alive {
                        None
                    } else {
                        Some(owner)
                    },
                    None => {
                        return Step {
                            released: None,
                            action: Action::Probe { pid, question: Question::Publish(m) },
                        };
                    },
                },
                None => None,
            };
            match dead {
                Some(owner) => {
                    released = Some(self.release_client(owner));
                },
                None => {
                    let reply: PublishReply = err_publish(
                        m.correlation_id,
                        status::ERR_EXISTS,
                        "channel already exists",
                    );
                    let action: Action = self.reply(
                        catalog,
                        m.client_id,
                        Kind::PublishReply,
                        &reply,
                    );
                    return Step { released: None, action };
                },
            }
        }
        let ghost clear = self@;
        assert(clear == cleared(v, c));
        let fp: u64 = match avro::parse(m.schema_json.as_str()) {
            Ok((_schema, fp)) => fp,
            Err(e) => {
                let mut why: String = "bad schema: ".to_owned();
                let words: String = e.message();
                why.append(words.as_str());
                let reply: PublishReply = err_publish(
                    m.correlation_id,
                    status::ERR_INTERNAL,
                    why.as_str(),
                );
                let action: Action = self.reply(catalog, m.client_id, Kind::PublishReply, &reply);
                assert(replies(
                    clear,
                    m.client_id,
                    Kind::PublishReply,
                    PublishReply::record(
                        m.correlation_id,
                        0,
                        0,
                        ""@,
                        status::ERR_INTERNAL,
                        "bad schema: "@ + words@,
                    ),
                    action,
                ));
                return Step { released, action };
            },
        };
        let id: i64 = self.reg.alloc_channel_id();
        let arena: String = util::channel_arena(id as u64);
        let meta = ChannelMeta {
            id,
            name: m.channel.clone(),
            owner: m.client_id,
            schema_fp: fp,
            key: policy_of(m.access_key.as_str()),
            arena: arena.clone(),
        };
        let pending = Pending::Channel { correlation_id: m.correlation_id, meta };
        Step { released, action: Action::Create { arena, cap: control::ARENA_CAP, pending } }
    }

    /// A connector offers a function. `probed` says whether the owner of the function's name
    /// lives, where that was found out.
    pub fn on_expose(&mut self, catalog: &Catalog, m: ExposeFunction, probed: Option<bool>) -> (r: Step)
        requires
            old(self)@.wf(),
            old(self)@.reg.next_fn < i64::MAX,
        ensures
            exposes(old(self)@, final(self)@, m, probed, r),
            final(self)@.wf(),
    {
        let ghost v = self@;
        let ghost c = function_claim(v, m, probed);
        let mut released: Option<Release> = None;
        if self.reg.function_name_taken(m.fn_name.as_str()) {
            let dead: Option<i64> = match self.reg.function_owner(m.fn_name.as_str()) {
                Some((owner, pid)) => match owner_alive(pid, probed) {
                    Some(alive) => if alive {
                        None
                    } else {
                        Some(owner)
                    },
                    None => {
                        return Step {
                            released: None,
                            action: Action::Probe { pid, question: Question::Expose(m) },
                        };
                    },
                },
                None => None,
            };
            match dead {
                Some(owner) => {
                    released = Some(self.release_client(owner));
                },
                None => {
                    let reply: ExposeReply = err_expose(
                        m.correlation_id,
                        status::ERR_EXISTS,
                        "function exists",
                    );
                    let action: Action = self.reply(catalog, m.client_id, Kind::ExposeReply, &reply);
                    return Step { released: None, action };
                },
            }
        }
        let ghost clear = self@;
        assert(clear == cleared(v, c));
        let parsed: Option<(u64, u64)> = match avro::parse(m.req_schema_json.as_str()) {
            Ok((_req, a)) => match avro::parse(m.resp_schema_json.as_str()) {
                Ok((_resp, b)) => Some((a, b)),
                Err(_) => None,
            },
            Err(_) => None,
        };
        let (req_fp, resp_fp): (u64, u64) = match parsed {
            Some(fps) => fps,
            None => {
                let reply: ExposeReply = err_expose(
                    m.correlation_id,
                    status::ERR_INTERNAL,
                    "bad schema",
                );
                let action: Action = self.reply(catalog, m.client_id, Kind::ExposeReply, &reply);
                return Step { released, action };
            },
        };
        let id: i64 = self.reg.alloc_fn_id();
        let cap: usize = arena_cap(m.req_arena_cap);
        let arena: String = util::function_arena(id as u64);
        let meta = FunctionMeta {
            id,
            name: m.fn_name.clone(),
            owner: m.client_id,
            req_fp,
            resp_fp,
            key: policy_of(m.access_key.as_str()),
            req_arena: arena.clone(),
        };
        let pending = Pending::Function { correlation_id: m.correlation_id, meta };
        Step { released, action: Action::Create { arena, cap, pending } }
    }
}

/// A channel or a function that may be added: its id was given out and is not in use, its name
/// is free, and its arena has the name that its id gives it.
pub open spec fn addable(v: BrokerView, p: Pending) -> bool {
    match p {
        Pending::Channel { correlation_id, meta } => {
            &&& 1 <= meta.id < v.reg.next_channel
            &&& !v.reg.channels.dom().contains(meta.id)
            &&& !v.reg.chan_by_name.dom().contains(meta.name@)
            &&& meta.arena@ == util::numbered("/impulse-ring.arena."@, meta.id as nat)
        },
        Pending::Function { correlation_id, meta } => {
            &&& 1 <= meta.id < v.reg.next_fn
            &&& !v.reg.functions.dom().contains(meta.id)
            &&& !v.reg.fn_by_name.dom().contains(meta.name@)
            &&& meta.req_arena@ == util::numbered("/impulse-ring.fn."@, meta.id as nat)
        },
    }
}

/// A request that was granted can be completed once its arena is there.
pub proof fn law_granted_is_addable(
    v: BrokerView,
    w: BrokerView,
    m: PublishChannel,
    f: ExposeFunction,
    probed: Option<bool>,
    step: Step,
)
    requires
        v.wf(),
        step.action is Create,
        v.reg.next_channel < i64::MAX,
        v.reg.next_fn < i64::MAX,
        publishes(v, w, m, probed, step) || exposes(v, w, f, probed, step),
    ensures
        addable(w, step.action->pending),
{
    if publishes(v, w, m, probed, step) {
        match channel_claim(v, m, probed) {
            Claim::Reclaim(owner) => {
                lemma_released_wf(v, owner);
                registry::law_release_frees_names(v.reg, owner, m.channel@);
            },
            _ => {},
        }
    } else {
        match function_claim(v, f, probed) {
            Claim::Reclaim(owner) => {
                lemma_released_wf(v, owner);
                registry::law_release_frees_names(v.reg, owner, f.fn_name@);
            },
            _ => {},
        }
    }
}

/// What completing a request does: the channel or the function is added, and its owner is told
/// where its arena is.
pub open spec fn completes(v: BrokerView, w: BrokerView, p: Pending, action: Action) -> bool {
    match p {
        Pending::Channel { correlation_id, meta } => {
            &&& w == (BrokerView { reg: v.reg.with_channel(meta), ..v })
            &&& replies(
                w,
                meta.owner,
                Kind::PublishReply,
                PublishReply::record(
                    correlation_id,
                    meta.id,
                    meta.schema_fp as i64,
                    meta.arena@,
                    status::OK,
                    ""@,
                ),
                action,
            )
        },
        Pending::Function { correlation_id, meta } => {
            &&& w == (BrokerView { reg: v.reg.with_function(meta), ..v })
            &&& replies(
                w,
                meta.owner,
                Kind::ExposeReply,
                ExposeReply::record(
                    correlation_id,
                    meta.id,
                    meta.req_fp as i64,
                    meta.resp_fp as i64,
                    meta.req_arena@,
                    status::OK,
                    ""@,
                ),
                action,
            )
        },
    }
}

impl Broker {
    /// The arena of a channel or a function was created.
    pub fn created(&mut self, catalog: &Catalog, pending: Pending) -> (r: Action)
        requires
            old(self)@.wf(),
            addable(old(self)@, pending),
        ensures
            completes(old(self)@, final(self)@, pending, r),
            final(self)@.wf(),
    {
        let ghost v = self@;
        match pending {
            Pending::Channel { correlation_id, meta } => {
                let reply = PublishReply {
                    correlation_id,
                    channel_id: meta.id,
                    schema_fp: proto::fp_to_i64(meta.schema_fp),
                    arena: meta.arena.clone(),
                    status: status::OK,
                    message: "".to_owned(),
                };
                let owner: i64 = meta.owner;
                self.reg.insert_channel(meta);
                proof {
                    lemma_channel_added(v, meta);
                    assert(self@ =~= (BrokerView { reg: v.reg.with_channel(meta), ..v }));
                }
                self.reply(catalog, owner, Kind::PublishReply, &reply)
            },
            Pending::Function { correlation_id, meta } => {
                let reply = ExposeReply {
                    correlation_id,
                    fn_id: meta.id,
                    req_fp: proto::fp_to_i64(meta.req_fp),
                    resp_fp: proto::fp_to_i64(meta.resp_fp),
                    req_arena: meta.req_arena.clone(),
                    status: status::OK,
                    message: "".to_owned(),
                };
                let owner: i64 = meta.owner;
                self.reg.insert_function(meta);
                proof {
                    lemma_function_added(v, meta);
                    assert(self@ =~= (BrokerView { reg: v.reg.with_function(meta), ..v }));
                }
                self.reply(catalog, owner, Kind::ExposeReply, &reply)
            },
        }
    }
}

proof fn lemma_channel_added(v: BrokerView, meta: ChannelMeta)
    requires
        v.wf(),
        addable(v, (Pending::Channel { correlation_id: 0, meta })),
    ensures
        (BrokerView { reg: v.reg.with_channel(meta), ..v }).wf(),
{
    registry::lemma_channel_added_wf(v.reg, meta);
}

proof fn lemma_function_added(v: BrokerView, meta: FunctionMeta)
    requires
        v.wf(),
        addable(v, (Pending::Function { correlation_id: 0, meta })),
    ensures
        (BrokerView { reg: v.reg.with_function(meta), ..v }).wf(),
{
    registry::lemma_function_added_wf(v.reg, meta);
}

// ---- questions -----------------------------------------------------------------------------

/// What a request to read a channel is answered.
pub open spec fn subscribe_reply(v: BrokerView, m: Subscribe) -> RecordView {
    match v.reg.subscribe_refusal(m.channel_id, m.access_key@, m.expected_fp as u64) {
        None => SubscribeReply::record(
            m.correlation_id,
            v.reg.channels[m.channel_id].arena@,
            v.reg.channels[m.channel_id].schema_fp as i64,
            status::OK,
            ""@,
        ),
        Some((code, why)) => SubscribeReply::record(m.correlation_id, ""@, 0, code, why),
    }
}

/// What a request for a function is answered.
pub open spec fn lookup_reply(v: BrokerView, m: LookupFunction) -> RecordView {
    match v.reg.lookup_refusal(m.fn_name@, m.access_key@) {
        None => {
            let f = v.reg.function_named(m.fn_name@)->Some_0;
            LookupReply::record(
                m.correlation_id,
                f.id,
                f.req_fp as i64,
                f.resp_fp as i64,
                f.req_arena@,
                status::OK,
                ""@,
            )
        },
        Some((code, why)) => LookupReply::record(m.correlation_id, 0, 0, 0, ""@, code, why),
    }
}

impl Broker {
    /// A connector asks for the channels on the bus.
    pub fn on_list(&self, catalog: &Catalog, m: &ListChannels) -> (r: Action)
        ensures
            exists|list: ChannelList| #[trigger]
                replies(self@, m.client_id, Kind::ChannelList, list.fields(), r)
                    && list.correlation_id == m.correlation_id && registry::lists_channels(
                    self@.reg,
                    list.channels@,
                ),
    {
        let list = ChannelList {
            correlation_id: m.correlation_id,
            channels: self.reg.list_channels(),
        };
        let action: Action = self.reply(catalog, m.client_id, Kind::ChannelList, &list);
        assert(replies(self@, m.client_id, Kind::ChannelList, list.fields(), action));
        action
    }

    /// A connector asks to read a channel.
    pub fn on_subscribe(&self, catalog: &Catalog, m: &Subscribe) -> (r: Action)
        ensures
            replies(self@, m.client_id, Kind::SubscribeReply, subscribe_reply(self@, *m), r),
    {
        let reply: SubscribeReply = match self.reg.resolve_subscribe(
            m.channel_id,
            m.access_key.as_str(),
            proto::i64_to_fp(m.expected_fp),
        ) {
            Ok((arena, fp)) => SubscribeReply {
                correlation_id: m.correlation_id,
                arena,
                schema_fp: proto::fp_to_i64(fp),
                status: status::OK,
                message: "".to_owned(),
            },
            Err((code, why)) => SubscribeReply {
                correlation_id: m.correlation_id,
                arena: "".to_owned(),
                schema_fp: 0,
                status: code,
                message: why,
            },
        };
        assert(reply.fields() == subscribe_reply(self@, *m));
        self.reply(catalog, m.client_id, Kind::SubscribeReply, &reply)
    }

    /// A connector asks for a function.
    pub fn on_lookup(&self, catalog: &Catalog, m: &LookupFunction) -> (r: Action)
        ensures
            replies(self@, m.client_id, Kind::LookupReply, lookup_reply(self@, *m), r),
    {
        let reply: LookupReply = match self.reg.resolve_lookup(
            m.fn_name.as_str(),
            m.access_key.as_str(),
        ) {
            Ok((fn_id, req_fp, resp_fp, req_arena)) => LookupReply {
                correlation_id: m.correlation_id,
                fn_id,
                req_fp: proto::fp_to_i64(req_fp),
                resp_fp: proto::fp_to_i64(resp_fp),
                req_arena,
                status: status::OK,
                message: "".to_owned(),
            },
            Err((code, why)) => LookupReply {
                correlation_id: m.correlation_id,
                fn_id: 0,
                req_fp: 0,
                resp_fp: 0,
                req_arena: "".to_owned(),
                status: code,
                message: why,
            },
        };
        assert(reply.fields() == lookup_reply(self@, *m));
        self.reply(catalog, m.client_id, Kind::LookupReply, &reply)
    }
}

// ---- messages ------------------------------------------------------------------------------

/// A step that changes nothing and lets nothing go.
pub open spec fn only(v: BrokerView, w: BrokerView, step: Step) -> bool {
    w == v && step.released is None
}

/// What a frame of a kind does.
pub open spec fn serves(v: BrokerView, w: BrokerView, kind: Kind, f: FrameView, step: Step) -> bool {
    let json = proto::schema_text(kind);
    if step.action matches Action::Fail(BrokerError::Proto(_)) {
        // The body is not a record of the kind.
        only(v, w, step) && match kind {
            Kind::Register => proto::register_in(f, None),
            Kind::Unregister => proto::read_as::<Unregister>(json, f.body, None),
            Kind::PublishChannel => proto::read_as::<PublishChannel>(json, f.body, None),
            Kind::ListChannels => proto::read_as::<ListChannels>(json, f.body, None),
            Kind::Subscribe => proto::read_as::<Subscribe>(json, f.body, None),
            Kind::ExposeFunction => proto::expose_in(f, None),
            Kind::LookupFunction => proto::read_as::<LookupFunction>(json, f.body, None),
            _ => false,
        }
    } else {
        match kind {
            Kind::Register => only(v, w, step) && (step.action matches Action::OpenReply(m)
                && proto::register_in(f, Some(m))),
            Kind::Unregister => exists|m: Unregister| #[trigger]
                proto::read_as(json, f.body, Some(m)) && w == v.released(m.client_id)
                    && step.released is Some && releases(v, m.client_id, step.released->Some_0)
                    && step.action is Done,
            Kind::PublishChannel => exists|m: PublishChannel| #[trigger]
                proto::read_as(json, f.body, Some(m)) && publishes(v, w, m, None, step),
            Kind::ListChannels => only(v, w, step) && exists|m: ListChannels, list: ChannelList|
                #![trigger proto::read_as(json, f.body, Some(m)), list.fields()]
                proto::read_as(json, f.body, Some(m)) && replies(
                    v,
                    m.client_id,
                    Kind::ChannelList,
                    list.fields(),
                    step.action,
                ) && list.correlation_id == m.correlation_id && registry::lists_channels(
                    v.reg,
                    list.channels@,
                ),
            Kind::Subscribe => only(v, w, step) && exists|m: Subscribe| #[trigger]
                proto::read_as(json, f.body, Some(m)) && replies(
                    v,
                    m.client_id,
                    Kind::SubscribeReply,
                    subscribe_reply(v, m),
                    step.action,
                ),
            Kind::ExposeFunction => exists|m: ExposeFunction| #[trigger]
                proto::expose_in(f, Some(m)) && exposes(v, w, m, None, step),
            Kind::LookupFunction => only(v, w, step) && exists|m: LookupFunction| #[trigger]
                proto::read_as(json, f.body, Some(m)) && replies(
                    v,
                    m.client_id,
                    Kind::LookupReply,
                    lookup_reply(v, m),
                    step.action,
                ),
            Kind::Heartbeat => only(v, w, step) && step.action is Done,
            _ => only(v, w, step) && step.action == Action::Fail(BrokerError::Unexpected(kind)),
        }
    }
}

/// What the bytes of a submission do.
pub open spec fn handles(v: BrokerView, w: BrokerView, bytes: Seq<u8>, step: Step) -> bool {
    match frame::parse_frame(bytes) {
        Err(e) => only(v, w, step) && step.action == Action::Fail(BrokerError::Frame(e)),
        Ok(f) => {
            ||| exists|kind: Kind| #[trigger]
                proto::announces(f.schema_fp as nat, kind) && serves(v, w, kind, f, step)
            ||| (forall|kind: Kind| !#[trigger] proto::announces(f.schema_fp as nat, kind)) && only(
                v,
                w,
                step,
            ) && step.action == Action::Fail(BrokerError::UnknownFingerprint)
        },
    }
}

fn step_of(action: Action) -> (r: Step)
    ensures
        r == (Step { released: None, action }),
{
    Step { released: None, action }
}

impl Broker {
    /// A submission came in.
    pub fn handle(&mut self, catalog: &Catalog, bytes: &[u8]) -> (r: Step)
        requires
            old(self)@.wf(),
            old(self)@.reg.next_channel < i64::MAX,
            old(self)@.reg.next_fn < i64::MAX,
        ensures
            handles(old(self)@, final(self)@, bytes@, r),
            final(self)@.wf(),
    {
        let frame: Frame = match Frame::decode(bytes) {
            Ok(frame) => frame,
            Err(e) => {
                return step_of(Action::Fail(BrokerError::Frame(e)));
            },
        };
        let kind: Kind = match catalog.kind_of(frame.schema_fp) {
            Some(kind) => kind,
            None => {
                return step_of(Action::Fail(BrokerError::UnknownFingerprint));
            },
        };
        assert(proto::announces(frame@.schema_fp as nat, kind));
        let ghost v = self@;
        let step: Step = match kind {
            Kind::Register => match proto::register_from_frame(catalog, &frame) {
                Ok(m) => step_of(Action::OpenReply(m)),
                Err(e) => step_of(Action::Fail(BrokerError::Proto(e))),
            },
            Kind::Unregister => match proto::from_frame::<Unregister>(catalog, kind, &frame) {
                Ok(m) => {
                    let released: Release = self.on_unregister(&m);
                    assert(proto::read_as(proto::schema_text(kind), frame@.body, Some(m)));
                    Step { released: Some(released), action: Action::Done }
                },
                Err(e) => step_of(Action::Fail(BrokerError::Proto(e))),
            },
            Kind::PublishChannel => match proto::from_frame::<PublishChannel>(
                catalog,
                kind,
                &frame,
            ) {
                Ok(m) => {
                    assert(proto::read_as(proto::schema_text(kind), frame@.body, Some(m)));
                    self.on_publish(catalog, m, None)
                },
                Err(e) => step_of(Action::Fail(BrokerError::Proto(e))),
            },
            Kind::ListChannels => match proto::from_frame::<ListChannels>(catalog, kind, &frame) {
                Ok(m) => {
                    assert(proto::read_as(proto::schema_text(kind), frame@.body, Some(m)));
                    step_of(self.on_list(catalog, &m))
                },
                Err(e) => step_of(Action::Fail(BrokerError::Proto(e))),
            },
            Kind::Subscribe => match proto::from_frame::<Subscribe>(catalog, kind, &frame) {
                Ok(m) => {
                    assert(proto::read_as(proto::schema_text(kind), frame@.body, Some(m)));
                    step_of(self.on_subscribe(catalog, &m))
                },
                Err(e) => step_of(Action::Fail(BrokerError::Proto(e))),
            },
            Kind::ExposeFunction => match proto::expose_from_frame(catalog, &frame) {
                Ok(m) => {
                    assert(proto::expose_in(frame@, Some(m)));
                    self.on_expose(catalog, m, None)
                },
                Err(e) => step_of(Action::Fail(BrokerError::Proto(e))),
            },
            Kind::LookupFunction => match proto::from_frame::<LookupFunction>(
                catalog,
                kind,
                &frame,
            ) {
                Ok(m) => {
                    assert(proto::read_as(proto::schema_text(kind), frame@.body, Some(m)));
                    step_of(self.on_lookup(catalog, &m))
                },
                Err(e) => step_of(Action::Fail(BrokerError::Proto(e))),
            },
            Kind::Heartbeat => step_of(Action::Done),
            other => step_of(Action::Fail(BrokerError::Unexpected(other))),
        };
        assert(serves(v, self@, kind, frame@, step));
        step
    }

    /// One round of the broker's loop: takes a submission off its ring and handles it, with
    /// `remaining` nanoseconds to wait for one.
    pub fn run(&mut self, catalog: &Catalog, submission: &mut Ring, remaining: u64) -> (r: Round)
        requires
            old(self)@.wf(),
            old(self)@.reg.next_channel < i64::MAX,
            old(self)@.reg.next_fn < i64::MAX,
            old(submission)@.wf(),
        ensures
            final(self)@.wf(),
            match r {
                Round::Handled(step) => ring::popped(
                    old(submission)@,
                    final(submission)@,
                    Some(old(submission)@.queue()[0]),
                ) && handles(old(self)@, final(self)@, old(submission)@.queue()[0], step),
                Round::TimedOut => ring::popped(old(submission)@, final(submission)@, None)
                    && final(self)@ == old(self)@ && remaining == 0,
                Round::Park { seen, nanos } => ring::popped(
                    old(submission)@,
                    final(submission)@,
                    None,
                ) && final(self)@ == old(self)@ && seen as nat == old(submission)@.data_seq() && 0
                    < nanos == remaining,
            },
            final(submission).seg.name == old(submission).seg.name,
    {
        match submission.pop_blocking(Some(remaining)) {
            PopStep::Popped(bytes) => Round::Handled(self.handle(catalog, bytes.as_slice())),
            PopStep::TimedOut => Round::TimedOut,
            PopStep::Park { seen, nanos } => Round::Park { seen, nanos },
        }
    }

    /// It was found out whether the owner of a name lives.
    pub fn probed(&mut self, catalog: &Catalog, question: Question, alive: bool) -> (r: Step)
        requires
            old(self)@.wf(),
            old(self)@.reg.next_channel < i64::MAX,
            old(self)@.reg.next_fn < i64::MAX,
        ensures
            match question {
                Question::Publish(m) => publishes(old(self)@, final(self)@, m, Some(alive), r),
                Question::Expose(m) => exposes(old(self)@, final(self)@, m, Some(alive), r),
            },
            !(r.action is Probe),
            final(self)@.wf(),
    {
        match question {
            Question::Publish(m) => self.on_publish(catalog, m, Some(alive)),
            Question::Expose(m) => self.on_expose(catalog, m, Some(alive)),
        }
    }
}

// ---- what the bus promises -----------------------------------------------------------------

/// A channel's name stays with an owner that lives, or whose process is not known: another
/// request for it is refused and changes nothing. Once the owner's process is known to be gone,
/// the next request with a schema gets the name, and all that the owner had is let go.
pub proof fn law_channel_name_passes_on(
    v: BrokerView,
    w: BrokerView,
    m: PublishChannel,
    alive: bool,
    step: Step,
)
    requires
        v.wf(),
        v.reg.chan_by_name.dom().contains(m.channel@),
        publishes(v, w, m, Some(alive), step),
    ensures
        ({
            let owner = v.reg.channels[v.reg.chan_by_name[m.channel@]].owner;
            if alive || v.reg.pid_of(owner) == 0 {
                w == v && step.released is None && replies(
                    v,
                    m.client_id,
                    Kind::PublishReply,
                    PublishReply::record(
                        m.correlation_id,
                        0,
                        0,
                        ""@,
                        status::ERR_EXISTS,
                        "channel already exists"@,
                    ),
                    step.action,
                )
            } else {
                &&& step.released matches Some(r) && releases(v, owner, r)
                &&& avro::is_schema(m.schema_json@) ==> step.action is Create
            }
        }),
{
}

/// A function's name stays with an owner that lives, or whose process is not known, and passes
/// on once the owner's process is known to be gone.
pub proof fn law_function_name_passes_on(
    v: BrokerView,
    w: BrokerView,
    m: ExposeFunction,
    alive: bool,
    step: Step,
)
    requires
        v.wf(),
        v.reg.fn_by_name.dom().contains(m.fn_name@),
        exposes(v, w, m, Some(alive), step),
    ensures
        ({
            let owner = v.reg.functions[v.reg.fn_by_name[m.fn_name@]].owner;
            if alive || v.reg.pid_of(owner) == 0 {
                w == v && step.released is None && replies(
                    v,
                    m.client_id,
                    Kind::ExposeReply,
                    ExposeReply::record(
                        m.correlation_id,
                        0,
                        0,
                        0,
                        ""@,
                        status::ERR_EXISTS,
                        "function exists"@,
                    ),
                    step.action,
                )
            } else {
                &&& step.released matches Some(r) && releases(v, owner, r)
                &&& avro::is_schema(m.req_schema_json@) && avro::is_schema(m.resp_schema_json@)
                    ==> step.action is Create
            }
        }),
{
}

/// Who left can come back: once an application left, the names of its channels and functions
/// are free, and a request for such a name with good schemas is granted at once.
pub proof fn law_leaver_can_return(
    v: BrokerView,
    w: BrokerView,
    gone: i64,
    m: PublishChannel,
    f: ExposeFunction,
    step: Step,
)
    requires
        v.wf(),
        publishes(v.released(gone), w, m, None, step) && v.reg.chan_by_name.dom().contains(
            m.channel@,
        ) && v.reg.channels[v.reg.chan_by_name[m.channel@]].owner == gone && avro::is_schema(
            m.schema_json@,
        ) || exposes(v.released(gone), w, f, None, step) && v.reg.fn_by_name.dom().contains(
            f.fn_name@,
        ) && v.reg.functions[v.reg.fn_by_name[f.fn_name@]].owner == gone && avro::is_schema(
            f.req_schema_json@,
        ) && avro::is_schema(f.resp_schema_json@),
    ensures
        step.action is Create,
        step.released is None,
{
    registry::law_release_frees_names(v.reg, gone, m.channel@);
    registry::law_release_frees_names(v.reg, gone, f.fn_name@);
}

/// A channel can be read by who presents its key and expects its schema or none; a wrong key is
/// denied, and a wrong schema is a mismatch.
pub proof fn law_published_is_served(
    v: BrokerView,
    w: BrokerView,
    correlation_id: i64,
    meta: ChannelMeta,
    action: Action,
    m: Subscribe,
)
    requires
        completes(v, w, (Pending::Channel { correlation_id, meta }), action),
        m.channel_id == meta.id,
    ensures
        ({
            let opens = match meta.key {
                None => true,
                Some(hash) => util::hashed_key(m.access_key@) == hash@,
            };
            let reply = subscribe_reply(w, m);
            if !opens {
                reply == SubscribeReply::record(
                    m.correlation_id,
                    ""@,
                    0,
                    status::ERR_DENIED,
                    "invalid access key"@,
                )
            } else if m.expected_fp as u64 == 0 || m.expected_fp as u64 == meta.schema_fp {
                reply == SubscribeReply::record(
                    m.correlation_id,
                    meta.arena@,
                    meta.schema_fp as i64,
                    status::OK,
                    ""@,
                )
            } else {
                reply == SubscribeReply::record(
                    m.correlation_id,
                    ""@,
                    0,
                    status::ERR_SCHEMA_MISMATCH,
                    "schema mismatch: expected 0x"@ + text::hex(m.expected_fp as u64 as nat)
                        + ", got 0x"@ + text::hex(meta.schema_fp as nat),
                )
            }
        }),
{
}

/// A function can be called by who presents its key; a wrong key is denied.
pub proof fn law_exposed_is_served(
    v: BrokerView,
    w: BrokerView,
    correlation_id: i64,
    meta: FunctionMeta,
    action: Action,
    m: LookupFunction,
)
    requires
        completes(v, w, (Pending::Function { correlation_id, meta }), action),
        m.fn_name@ == meta.name@,
    ensures
        ({
            let opens = match meta.key {
                None => true,
                Some(hash) => util::hashed_key(m.access_key@) == hash@,
            };
            if opens {
                lookup_reply(w, m) == LookupReply::record(
                    m.correlation_id,
                    meta.id,
                    meta.req_fp as i64,
                    meta.resp_fp as i64,
                    meta.req_arena@,
                    status::OK,
                    ""@,
                )
            } else {
                lookup_reply(w, m) == LookupReply::record(
                    m.correlation_id,
                    0,
                    0,
                    0,
                    ""@,
                    status::ERR_DENIED,
                    "invalid access key"@,
                )
            }
        }),
{
}

/// What an application owned is gone once it left, and what others own is untouched.
pub proof fn law_leaving_touches_own_only(v: BrokerView, gone: i64, m: Subscribe)
    requires
        v.wf(),
    ensures
        v.reg.channels.dom().contains(m.channel_id) && v.reg.channels[m.channel_id].owner == gone
            ==> subscribe_reply(v.released(gone), m) == SubscribeReply::record(
            m.correlation_id,
            ""@,
            0,
            status::ERR_NOT_FOUND,
            "no such channel"@,
        ),
        v.reg.channels.dom().contains(m.channel_id) && v.reg.channels[m.channel_id].owner != gone
            ==> subscribe_reply(v.released(gone), m) == subscribe_reply(v, m),
        forall|id: i64|
            id != gone && #[trigger] v.rings.dom().contains(id) ==> v.released(
                gone,
            ).rings.dom().contains(id),
{
    let ids = v.reg.channels_of(gone);
    if v.reg.channels.dom().contains(m.channel_id) {
        assert(ids.contains(m.channel_id) <==> v.reg.channels[m.channel_id].owner == gone);
    }
}

/// One thing that happens to the broker: a submission, an application that joins, an owner that
/// was looked for, an arena that was created.
pub open spec fn happens(v: BrokerView, w: BrokerView) -> bool {
    ||| exists|bytes: Seq<u8>, step: Step| #[trigger] handles(v, w, bytes, step)
    ||| exists|m: Register| w == #[trigger] v.joined(m)
    ||| exists|m: PublishChannel, alive: bool, step: Step| #[trigger]
        publishes(v, w, m, Some(alive), step)
    ||| exists|m: ExposeFunction, alive: bool, step: Step| #[trigger]
        exposes(v, w, m, Some(alive), step)
    ||| exists|p: Pending, action: Action| addable(v, p) && #[trigger] completes(v, w, p, action)
}

/// There are ids left to give.
pub open spec fn has_ids(v: BrokerView) -> bool {
    v.reg.next_client < i64::MAX && v.reg.next_channel < i64::MAX && v.reg.next_fn < i64::MAX
}

/// No id was taken back from `v` to `w`.
pub open spec fn ids_grow(v: BrokerView, w: BrokerView) -> bool {
    &&& v.reg.next_client <= w.reg.next_client
    &&& v.reg.next_channel <= w.reg.next_channel
    &&& v.reg.next_fn <= w.reg.next_fn
}

proof fn lemma_publishes_wf(
    v: BrokerView,
    w: BrokerView,
    m: PublishChannel,
    probed: Option<bool>,
    step: Step,
)
    requires
        v.wf(),
        has_ids(v),
        publishes(v, w, m, probed, step),
    ensures
        w.wf(),
        ids_grow(v, w),
{
    match channel_claim(v, m, probed) {
        Claim::Reclaim(owner) => {
            lemma_released_wf(v, owner);
        },
        _ => {},
    }
}

proof fn lemma_exposes_wf(
    v: BrokerView,
    w: BrokerView,
    m: ExposeFunction,
    probed: Option<bool>,
    step: Step,
)
    requires
        v.wf(),
        has_ids(v),
        exposes(v, w, m, probed, step),
    ensures
        w.wf(),
        ids_grow(v, w),
{
    match function_claim(v, m, probed) {
        Claim::Reclaim(owner) => {
            lemma_released_wf(v, owner);
        },
        _ => {},
    }
}

proof fn lemma_serves_wf(v: BrokerView, w: BrokerView, kind: Kind, f: FrameView, step: Step)
    requires
        v.wf(),
        has_ids(v),
        serves(v, w, kind, f, step),
    ensures
        w.wf(),
        ids_grow(v, w),
{
    let json = proto::schema_text(kind);
    if step.action matches Action::Fail(BrokerError::Proto(_)) {
    } else {
        match kind {
            Kind::Unregister => {
                let m = choose|m: Unregister| #[trigger]
                    proto::read_as(json, f.body, Some(m)) && w == v.released(m.client_id);
                lemma_released_wf(v, m.client_id);
            },
            Kind::PublishChannel => {
                let m = choose|m: PublishChannel| #[trigger]
                    proto::read_as(json, f.body, Some(m)) && publishes(v, w, m, None, step);
                lemma_publishes_wf(v, w, m, None, step);
            },
            Kind::ExposeFunction => {
                let m = choose|m: ExposeFunction| #[trigger]
                    proto::expose_in(f, Some(m)) && exposes(v, w, m, None, step);
                lemma_exposes_wf(v, w, m, None, step);
            },
            _ => {},
        }
    }
}

proof fn lemma_happens_wf(v: BrokerView, w: BrokerView)
    requires
        v.wf(),
        has_ids(v),
        happens(v, w),
    ensures
        w.wf(),
        ids_grow(v, w),
{
    if exists|bytes: Seq<u8>, step: Step| #[trigger] handles(v, w, bytes, step) {
        let (bytes, step) = choose|bytes: Seq<u8>, step: Step| #[trigger]
            handles(v, w, bytes, step);
        match frame::parse_frame(bytes) {
            Err(_) => {},
            Ok(f) => {
                if exists|kind: Kind| #[trigger]
                    proto::announces(f.schema_fp as nat, kind) && serves(v, w, kind, f, step) {
                    let kind = choose|kind: Kind| #[trigger]
                        proto::announces(f.schema_fp as nat, kind) && serves(v, w, kind, f, step);
                    lemma_serves_wf(v, w, kind, f, step);
                }
            },
        }
    } else if exists|m: Register| w == #[trigger] v.joined(m) {
        let m = choose|m: Register| w == #[trigger] v.joined(m);
        assert(w.rings.dom() =~= w.reg.clients.dom());
    } else if exists|m: PublishChannel, alive: bool, step: Step| #[trigger]
        publishes(v, w, m, Some(alive), step) {
        let (m, alive, step) = choose|m: PublishChannel, alive: bool, step: Step| #[trigger]
            publishes(v, w, m, Some(alive), step);
        lemma_publishes_wf(v, w, m, Some(alive), step);
    } else if exists|m: ExposeFunction, alive: bool, step: Step| #[trigger]
        exposes(v, w, m, Some(alive), step) {
        let (m, alive, step) = choose|m: ExposeFunction, alive: bool, step: Step| #[trigger]
            exposes(v, w, m, Some(alive), step);
        lemma_exposes_wf(v, w, m, Some(alive), step);
    } else {
        let (p, action) = choose|p: Pending, action: Action|
            addable(v, p) && #[trigger] completes(v, w, p, action);
        match p {
            Pending::Channel { correlation_id, meta } => {
                lemma_channel_added(v, meta);
            },
            Pending::Function { correlation_id, meta } => {
                lemma_function_added(v, meta);
            },
        }
    }
}

/// The state behind a state of a history comes of it.
pub open spec fn follows(states: Seq<BrokerView>, i: int) -> bool {
    happens(states[i], states[i + 1])
}

/// Whatever happens to a broker, it stays in order: names belong to one channel and to one
/// function, and exactly the applications on the bus can be answered. An id that was given out
/// is not given again, so who keeps the id of a channel that is gone never reads another one.
#[verifier::spinoff_prover]
pub proof fn law_broker_stays_in_order(states: Seq<BrokerView>)
    requires
        states.len() > 0,
        states[0].wf(),
        forall|i: int| 0 <= i < states.len() ==> has_ids(#[trigger] states[i]),
        forall|i: int| 0 <= i < states.len() - 1 ==> #[trigger] follows(states, i),
    ensures
        forall|i: int| 0 <= i < states.len() ==> (#[trigger] states[i]).wf(),
        forall|i: int, j: int|
            0 <= i <= j < states.len() ==> ids_grow(#[trigger] states[i], #[trigger] states[j]),
    decreases states.len(),
{
    if states.len() > 1 {
        let n = states.len() - 1;
        let front = states.drop_last();
        assert forall|i: int| 0 <= i < front.len() - 1 implies #[trigger] follows(front, i) by {
            assert(follows(states, i));
        }
        assert forall|i: int| 0 <= i < front.len() implies has_ids(#[trigger] front[i]) by {
            assert(has_ids(states[i]));
        }
        law_broker_stays_in_order(front);
        assert(front[n - 1] == states[n - 1]);
        assert(follows(states, n - 1));
        assert(has_ids(states[n - 1]));
        lemma_happens_wf(states[n - 1], states[n]);
        assert forall|i: int| 0 <= i < states.len() implies (#[trigger] states[i]).wf() by {
            if i < n {
                assert(front[i] == states[i]);
            }
        }
        assert forall|i: int, j: int| 0 <= i <= j < states.len() implies ids_grow(
            #[trigger] states[i],
            #[trigger] states[j],
        ) by {
            if i < n {
                assert(front[i] == states[i]);
                if j < n {
                    assert(front[j] == states[j]);
                    assert(ids_grow(front[i], front[j]));
                } else {
                    assert(ids_grow(front[i], front[n - 1]));
                }
            }
        }
    }
}

// ---- what the broker does, call by call ------------------------------------------------------

/// A new broker knows nobody: no application, no channel, no function.
pub proof fn law_new_broker_knows_nobody(b: Broker)
    requires
        call_ensures(Broker::new, (), b),
    ensures
        b@.wf(),
        forall|id: i64| !#[trigger] b@.reg.clients.dom().contains(id),
        forall|id: i64| !#[trigger] b@.reg.channels.dom().contains(id),
        forall|id: i64| !#[trigger] b@.reg.functions.dom().contains(id),
        forall|id: i64| !#[trigger] b@.rings.dom().contains(id),
        forall|name: Seq<char>| !#[trigger] b@.reg.chan_by_name.dom().contains(name),
        forall|name: Seq<char>| !#[trigger] b@.reg.fn_by_name.dom().contains(name),
        b@.reply_names.len() == 0,
        has_ids(b@),
{
}

/// Who joins is known under a new id by the name and the process that it gave, and is answered
/// through the reply segment that it named; it is told its id. Everybody else is as before.
pub proof fn law_joiner_is_told_its_id(
    catalog: Catalog,
    b: &mut Broker,
    m: Register,
    r: (i64, Action),
    read: Result<RegisterReply, ProtoError>,
)
    requires
        old(b)@.wf(),
        old(b)@.reg.next_client < i64::MAX,
        call_ensures(Broker::opened, (b, &catalog, m), r),
        r.1 matches Action::Send { client_id, frame } ==> call_ensures(
            proto::from_frame::<RegisterReply>,
            (&catalog, Kind::RegisterReply, &frame),
            read,
        ),
    ensures
        !old(b)@.reg.clients.dom().contains(r.0),
        final(b)@.reg.clients.dom().contains(r.0),
        final(b)@.reg.clients[r.0].app_name@ == m.app_name@,
        final(b)@.reg.clients[r.0].pid == m.pid as i32,
        final(b)@.rings.dom().contains(r.0) && final(b)@.rings[r.0]@ == m.reply_segment@,
        forall|id: i64|
            id != r.0 ==> (#[trigger] final(b)@.reg.clients.dom().contains(id)
                <==> old(b)@.reg.clients.dom().contains(id))
                && final(b)@.reg.clients[id] == old(b)@.reg.clients[id]
                && final(b)@.rings[id] == old(b)@.rings[id],
        final(b)@.reg.channels == old(b)@.reg.channels,
        final(b)@.reg.functions == old(b)@.reg.functions,
        final(b)@.reply_names == old(b)@.reply_names.push(m.reply_segment),
        r.1 matches Action::Send { client_id, frame } && client_id == r.0,
        read matches Ok(n) && n.correlation_id == m.correlation_id && n.client_id == r.0 && n.status
            == status::OK,
{
    reveal_strlit("");
    let fields = RegisterReply::record(m.correlation_id, r.0, status::OK, ""@);
    assert(avro::conforms(fields, proto::kind_shape(Kind::RegisterReply)));
    let n = read->Ok_0;
    assert(n.fields().fields[0] == fields.fields[0]);
    assert(n.fields().fields[1] == fields.fields[1]);
    assert(n.fields().fields[2] == fields.fields[2]);
}

/// Who leaves takes along what it owned, and nothing else: its channels and functions are gone
/// with their names, it is not known or answered any more, and the arenas that are let go are
/// those of its channels and functions.
pub proof fn law_leaver_takes_its_own_along(b: &mut Broker, m: Unregister, r: Release)
    requires
        old(b)@.wf(),
        call_ensures(Broker::on_unregister, (b, &m), r),
    ensures
        r.client_id == m.client_id,
        final(b)@.reply_names == old(b)@.reply_names,
        final(b)@.reg.next_client == old(b)@.reg.next_client,
        forall|id: i64| #[trigger]
            final(b)@.reg.clients.dom().contains(id) <==> id != m.client_id
                && old(b)@.reg.clients.dom().contains(id),
        forall|id: i64| #[trigger]
            final(b)@.rings.dom().contains(id) <==> id != m.client_id
                && old(b)@.rings.dom().contains(id),
        forall|id: i64| #[trigger]
            final(b)@.reg.channels.dom().contains(id) <==> old(b)@.reg.channels.dom().contains(id)
                && old(b)@.reg.channels[id].owner != m.client_id,
        forall|id: i64| #[trigger]
            final(b)@.reg.channels.dom().contains(id)
                ==> final(b)@.reg.channels[id] == old(b)@.reg.channels[id],
        forall|id: i64| #[trigger]
            final(b)@.reg.functions.dom().contains(id) <==> old(b)@.reg.functions.dom().contains(id)
                && old(b)@.reg.functions[id].owner != m.client_id,
        forall|id: i64| #[trigger]
            final(b)@.reg.functions.dom().contains(id)
                ==> final(b)@.reg.functions[id] == old(b)@.reg.functions[id],
        forall|name: Seq<char>| #[trigger]
            final(b)@.reg.chan_by_name.dom().contains(name)
                <==> old(b)@.reg.chan_by_name.dom().contains(name)
                && old(b)@.reg.channels[old(b)@.reg.chan_by_name[name]].owner != m.client_id,
        forall|name: Seq<char>| #[trigger]
            final(b)@.reg.fn_by_name.dom().contains(name)
                <==> old(b)@.reg.fn_by_name.dom().contains(name)
                && old(b)@.reg.functions[old(b)@.reg.fn_by_name[name]].owner != m.client_id,
        forall|id: i64| #[trigger]
            old(b)@.reg.channels.dom().contains(id) && old(b)@.reg.channels[id].owner
                == m.client_id ==> names_arena(r.arenas@, old(b)@.reg.channels[id].arena@),
        forall|id: i64| #[trigger]
            old(b)@.reg.functions.dom().contains(id) && old(b)@.reg.functions[id].owner
                == m.client_id ==> names_arena(r.arenas@, old(b)@.reg.functions[id].req_arena@),
        forall|i: int|
            0 <= i < r.arenas@.len() ==> registry::channel_lies_in(
                old(b)@.reg,
                m.client_id,
                (#[trigger] r.arenas@[i])@,
            ) || registry::function_lies_in(old(b)@.reg, m.client_id, r.arenas@[i]@),
{
    let v = old(b)@.reg;
    let gone = m.client_id;
    assert forall|name: Seq<char>| #[trigger]
        final(b)@.reg.chan_by_name.dom().contains(name) <==> v.chan_by_name.dom().contains(name)
            && v.channels[v.chan_by_name[name]].owner != gone by {
        registry::law_release_frees_names(v, gone, name);
    }
    assert forall|name: Seq<char>| #[trigger]
        final(b)@.reg.fn_by_name.dom().contains(name) <==> v.fn_by_name.dom().contains(name)
            && v.functions[v.fn_by_name[name]].owner != gone by {
        registry::law_release_frees_names(v, gone, name);
    }
    lemma_releases(old(b)@, gone, r);
}

/// An arena is among some.
pub open spec fn names_arena(arenas: Seq<String>, arena: Seq<char>) -> bool {
    exists|i: int| 0 <= i < arenas.len() && (#[trigger] arenas[i])@ == arena
}

proof fn lemma_releases(v: BrokerView, gone: i64, r: Release)
    requires
        releases(v, gone, r),
    ensures
        forall|id: i64| #[trigger]
            v.reg.channels.dom().contains(id) && v.reg.channels[id].owner == gone ==> names_arena(
                r.arenas@,
                v.reg.channels[id].arena@,
            ),
        forall|id: i64| #[trigger]
            v.reg.functions.dom().contains(id) && v.reg.functions[id].owner == gone ==> names_arena(
                r.arenas@,
                v.reg.functions[id].req_arena@,
            ),
        forall|i: int|
            0 <= i < r.arenas@.len() ==> registry::channel_lies_in(
                v.reg,
                gone,
                (#[trigger] r.arenas@[i])@,
            ) || registry::function_lies_in(v.reg, gone, r.arenas@[i]@),
{
    let ids = v.reg.channels_of(gone);
    let fns = v.reg.functions_of(gone);
    let n = choose|n: int|
        0 <= n <= r.arenas@.len() && registry::lists_arenas(
            v.reg,
            ids,
            #[trigger] r.arenas@.take(n),
        ) && registry::lists_req_arenas(v.reg, fns, r.arenas@.skip(n));
    let a = r.arenas@.take(n);
    let f = r.arenas@.skip(n);
    let order = choose|order: Seq<i64>| #[trigger]
        order.no_duplicates() && order.to_set() == ids && order.len() == a.len() && forall|i: int|
            0 <= i < order.len() ==> (#[trigger] a[i])@ == v.reg.channels[order[i]].arena@;
    let forder = choose|order: Seq<i64>| #[trigger]
        order.no_duplicates() && order.to_set() == fns && order.len() == f.len() && forall|i: int|
            0 <= i < order.len() ==> (#[trigger] f[i])@ == v.reg.functions[order[i]].req_arena@;
    assert forall|id: i64| #[trigger]
        v.reg.channels.dom().contains(id) && v.reg.channels[id].owner == gone implies names_arena(
        r.arenas@,
        v.reg.channels[id].arena@,
    ) by {
        assert(order.to_set().contains(id));
        assert(order.contains(id));
        let i = choose|i: int| 0 <= i < order.len() && order[i] == id;
        assert(a[i]@ == v.reg.channels[id].arena@);
        assert(r.arenas@[i] == a[i]);
    }
    assert forall|id: i64| #[trigger]
        v.reg.functions.dom().contains(id) && v.reg.functions[id].owner == gone implies names_arena(
        r.arenas@,
        v.reg.functions[id].req_arena@,
    ) by {
        assert(forder.to_set().contains(id));
        assert(forder.contains(id));
        let i = choose|i: int| 0 <= i < forder.len() && forder[i] == id;
        assert(f[i]@ == v.reg.functions[id].req_arena@);
        assert(r.arenas@[n + i] == f[i]);
    }
    assert forall|i: int| 0 <= i < r.arenas@.len() implies registry::channel_lies_in(
        v.reg,
        gone,
        (#[trigger] r.arenas@[i])@,
    ) || registry::function_lies_in(v.reg, gone, r.arenas@[i]@) by {
        if i < n {
            assert(a[i] == r.arenas@[i]);
            assert(order.to_set().contains(order[i]));
            assert(v.reg.channels.dom().contains(order[i]));
        } else {
            assert(f[i - n] == r.arenas@[i]);
            assert(forder.to_set().contains(forder[i - n]));
            assert(v.reg.functions.dom().contains(forder[i - n]));
        }
    }
}

/// A request for a channel whose name is free and whose text is a schema gets the channel that
/// was asked for: its name, its owner, the fingerprint of its schema, a lock that the key of the
/// request opens, or none for the empty key, an id that no channel had, and an arena of the
/// default size with the name of that id. Nothing that was there changes.
pub proof fn law_channel_is_granted_as_asked(
    catalog: Catalog,
    b: &mut Broker,
    m: PublishChannel,
    probed: Option<bool>,
    step: Step,
    named: String,
)
    requires
        old(b)@.wf(),
        old(b)@.reg.next_channel < i64::MAX,
        call_ensures(Broker::on_publish, (b, &catalog, m, probed), step),
        !old(b)@.reg.chan_by_name.dom().contains(m.channel@),
        avro::is_schema(m.schema_json@),
        step.action matches Action::Create { pending: Pending::Channel { meta, .. }, .. }
            ==> call_ensures(util::channel_arena, (meta.id as u64,), named),
    ensures
        step.released is None,
        step.action matches Action::Create { arena, cap, pending: Pending::Channel {
            correlation_id,
            meta,
        } } && {
            &&& correlation_id == m.correlation_id
            &&& cap == control::ARENA_CAP
            &&& arena@ == named@ && meta.arena@ == named@
            &&& meta.name@ == m.channel@
            &&& meta.owner == m.client_id
            &&& meta.schema_fp as nat == avro::schema_fp(m.schema_json@)
            &&& meta.key is None <==> m.access_key@.len() == 0
            &&& meta.key matches Some(hash) ==> hash@ == util::hashed_key(m.access_key@)
            &&& !old(b)@.reg.channels.dom().contains(meta.id)
            &&& meta.id < final(b)@.reg.next_channel
        },
        final(b)@.reg.channels == old(b)@.reg.channels,
        final(b)@.reg.chan_by_name == old(b)@.reg.chan_by_name,
        final(b)@.reg.clients == old(b)@.reg.clients,
        final(b)@.reg.functions == old(b)@.reg.functions,
        final(b)@.rings == old(b)@.rings,
        final(b)@.reply_names == old(b)@.reply_names,
        final(b)@.reg.next_client == old(b)@.reg.next_client,
{
}

/// An offer of a function whose name is free and whose texts are schemas gets the function that
/// was offered: its name, its owner, the fingerprints of its schemas, a lock that the key of the
/// offer opens, or none for the empty key, an id that no function had, and an arena with the name
/// of that id and a size that holds what was asked for. Nothing that was there changes.
pub proof fn law_function_is_granted_as_offered(
    catalog: Catalog,
    b: &mut Broker,
    m: ExposeFunction,
    probed: Option<bool>,
    step: Step,
    named: String,
)
    requires
        old(b)@.wf(),
        old(b)@.reg.next_fn < i64::MAX,
        call_ensures(Broker::on_expose, (b, &catalog, m, probed), step),
        !old(b)@.reg.fn_by_name.dom().contains(m.fn_name@),
        avro::is_schema(m.req_schema_json@),
        avro::is_schema(m.resp_schema_json@),
        step.action matches Action::Create { pending: Pending::Function { meta, .. }, .. }
            ==> call_ensures(util::function_arena, (meta.id as u64,), named),
    ensures
        step.released is None,
        step.action matches Action::Create { arena, cap, pending: Pending::Function {
            correlation_id,
            meta,
        } } && {
            &&& correlation_id == m.correlation_id
            &&& arena@ == named@ && meta.req_arena@ == named@
            &&& meta.name@ == m.fn_name@
            &&& meta.owner == m.client_id
            &&& meta.req_fp as nat == avro::schema_fp(m.req_schema_json@)
            &&& meta.resp_fp as nat == avro::schema_fp(m.resp_schema_json@)
            &&& meta.key is None <==> m.access_key@.len() == 0
            &&& meta.key matches Some(hash) ==> hash@ == util::hashed_key(m.access_key@)
            &&& !old(b)@.reg.functions.dom().contains(meta.id)
            &&& meta.id < final(b)@.reg.next_fn
            &&& vstd::arithmetic::power2::is_pow2(cap as int)
            &&& m.req_arena_cap <= 0 ==> cap == control::ARENA_CAP
            &&& 0 < m.req_arena_cap <= control::MAX_ARENA_CAP ==> m.req_arena_cap <= cap
            &&& m.req_arena_cap > 0 ==> control::MIN_ARENA_CAP <= cap <= control::MAX_ARENA_CAP
            &&& m.req_arena_cap > control::MAX_ARENA_CAP ==> cap == control::MAX_ARENA_CAP
            &&& forall|c: int| #[trigger]
                vstd::arithmetic::power2::is_pow2(c) && m.req_arena_cap <= c
                    && control::MIN_ARENA_CAP <= c && m.req_arena_cap > 0 ==> cap <= c
        },
        final(b)@.reg.functions == old(b)@.reg.functions,
        final(b)@.reg.fn_by_name == old(b)@.reg.fn_by_name,
        final(b)@.reg.clients == old(b)@.reg.clients,
        final(b)@.reg.channels == old(b)@.reg.channels,
        final(b)@.rings == old(b)@.rings,
        final(b)@.reply_names == old(b)@.reply_names,
        final(b)@.reg.next_client == old(b)@.reg.next_client,
{
    control::lemma_caps_are_powers();
}

/// A request for a channel that is not granted changes nothing and is refused in words: one whose
/// name is held by an owner that lives, or whose process is not known, for the name, and one
/// whose text is no schema for the schema. Before a name is refused or passed on, its owner's
/// process is looked for, if it is known.
pub proof fn law_channel_is_refused(
    catalog: Catalog,
    b: &mut Broker,
    m: PublishChannel,
    probed: Option<bool>,
    step: Step,
    read: Result<PublishReply, ProtoError>,
)
    requires
        old(b)@.wf(),
        call_ensures(Broker::on_publish, (b, &catalog, m, probed), step),
        step.action matches Action::Send { client_id, frame } ==> call_ensures(
            proto::from_frame::<PublishReply>,
            (&catalog, Kind::PublishReply, &frame),
            read,
        ),
        old(b)@.rings.dom().contains(m.client_id),
        old(b)@.reg.chan_by_name.dom().contains(m.channel@),
    ensures
        ({
            let owner = old(b)@.reg.channels[old(b)@.reg.chan_by_name[m.channel@]].owner;
            let pid = if old(b)@.reg.clients.dom().contains(owner) {
                old(b)@.reg.clients[owner].pid
            } else {
                0
            };
            &&& pid == 0 || probed == Some(true) ==> {
                &&& final(b)@ == old(b)@ && step.released is None
                &&& step.action matches Action::Send { client_id, frame } && client_id
                    == m.client_id
                &&& read matches Ok(n) && n.correlation_id == m.correlation_id && n.status
                    == status::ERR_EXISTS && n.message@ == "channel already exists"@
            }
            &&& pid != 0 && probed is None ==> {
                &&& final(b)@ == old(b)@ && step.released is None
                &&& step.action matches Action::Probe { pid: asked, question: Question::Publish(n) }
                    && asked == pid && n == m
            }
            &&& pid != 0 && probed == Some(false) ==> {
                &&& step.released matches Some(r) && r.client_id == owner
                &&& !final(b)@.reg.clients.dom().contains(owner)
                &&& !final(b)@.reg.chan_by_name.dom().contains(m.channel@)
                &&& avro::is_schema(m.schema_json@) ==> (step.action matches Action::Create {
                    pending: Pending::Channel { meta, .. },
                    ..
                } && meta.name@ == m.channel@ && meta.owner == m.client_id)
            }
        }),
{
    reveal_strlit("");
    reveal_strlit("channel already exists");
    let fields = PublishReply::record(
        m.correlation_id,
        0,
        0,
        ""@,
        status::ERR_EXISTS,
        "channel already exists"@,
    );
    lemma_short("channel already exists"@);
    lemma_short(""@);
    assert(avro::conforms(fields, proto::kind_shape(Kind::PublishReply)));
    let v = old(b)@;
    let owner = v.reg.channels[v.reg.chan_by_name[m.channel@]].owner;
    registry::law_release_frees_names(v.reg, owner, m.channel@);
    if step.action is Send && read is Ok {
        let n = read->Ok_0;
        assert(n.fields().fields[0] == fields.fields[0] || n.fields() != fields);
        assert(n.fields().fields[4] == fields.fields[4] || n.fields() != fields);
        assert(n.fields().fields[5] == fields.fields[5] || n.fields() != fields);
    }
}

proof fn lemma_short(s: Seq<char>)
    requires
        s.len() <= 0x100,
    ensures
        vstd::utf8::encode_utf8(s).len() <= avro::MAX_BYTES,
{
    lemma_utf8_len(s);
}

proof fn lemma_utf8_len(s: Seq<char>)
    ensures
        vstd::utf8::encode_utf8(s).len() <= 4 * s.len(),
    decreases s.len(),
{
    reveal_with_fuel(vstd::utf8::encode_utf8, 2);
    if s.len() > 0 {
        lemma_utf8_len(s.drop_first());
    }
}

/// An offer of a function that is not granted for its name changes nothing and is refused in
/// words, while the name's owner lives or its process is not known; the owner's process is looked
/// for first, if it is known, and once it is gone the name passes on.
pub proof fn law_function_is_refused(
    catalog: Catalog,
    b: &mut Broker,
    m: ExposeFunction,
    probed: Option<bool>,
    step: Step,
    read: Result<ExposeReply, ProtoError>,
)
    requires
        old(b)@.wf(),
        call_ensures(Broker::on_expose, (b, &catalog, m, probed), step),
        step.action matches Action::Send { client_id, frame } ==> call_ensures(
            proto::from_frame::<ExposeReply>,
            (&catalog, Kind::ExposeReply, &frame),
            read,
        ),
        old(b)@.rings.dom().contains(m.client_id),
        old(b)@.reg.fn_by_name.dom().contains(m.fn_name@),
    ensures
        ({
            let owner = old(b)@.reg.functions[old(b)@.reg.fn_by_name[m.fn_name@]].owner;
            let pid = if old(b)@.reg.clients.dom().contains(owner) {
                old(b)@.reg.clients[owner].pid
            } else {
                0
            };
            &&& pid == 0 || probed == Some(true) ==> {
                &&& final(b)@ == old(b)@ && step.released is None
                &&& step.action matches Action::Send { client_id, frame } && client_id
                    == m.client_id
                &&& read matches Ok(n) && n.correlation_id == m.correlation_id && n.status
                    == status::ERR_EXISTS && n.message@ == "function exists"@
            }
            &&& pid != 0 && probed is None ==> {
                &&& final(b)@ == old(b)@ && step.released is None
                &&& step.action matches Action::Probe { pid: asked, question: Question::Expose(n) }
                    && asked == pid && n == m
            }
            &&& pid != 0 && probed == Some(false) ==> {
                &&& step.released matches Some(r) && r.client_id == owner
                &&& !final(b)@.reg.clients.dom().contains(owner)
                &&& !final(b)@.reg.fn_by_name.dom().contains(m.fn_name@)
                &&& avro::is_schema(m.req_schema_json@) && avro::is_schema(m.resp_schema_json@)
                    ==> (step.action matches Action::Create {
                    pending: Pending::Function { meta, .. },
                    ..
                } && meta.name@ == m.fn_name@ && meta.owner == m.client_id)
            }
        }),
{
    reveal_strlit("");
    reveal_strlit("function exists");
    let fields = ExposeReply::record(
        m.correlation_id,
        0,
        0,
        0,
        ""@,
        status::ERR_EXISTS,
        "function exists"@,
    );
    lemma_short("function exists"@);
    lemma_short(""@);
    assert(avro::conforms(fields, proto::kind_shape(Kind::ExposeReply)));
    let v = old(b)@;
    let owner = v.reg.functions[v.reg.fn_by_name[m.fn_name@]].owner;
    registry::law_release_frees_names(v.reg, owner, m.fn_name@);
    if step.action is Send && read is Ok {
        let n = read->Ok_0;
        assert(n.fields().fields[0] == fields.fields[0] || n.fields() != fields);
        assert(n.fields().fields[5] == fields.fields[5] || n.fields() != fields);
        assert(n.fields().fields[6] == fields.fields[6] || n.fields() != fields);
    }
}

/// Texts that are no schemas get nothing: the request is answered, to who sent it, with an
/// internal error, and no channel or function is added.
pub proof fn law_bad_schema_gets_nothing(
    catalog: Catalog,
    b: &mut Broker,
    c: &mut Broker,
    m: PublishChannel,
    f: ExposeFunction,
    channel: Step,
    function: Step,
)
    requires
        old(b)@.wf(),
        old(c)@.wf(),
        call_ensures(Broker::on_publish, (b, &catalog, m, None::<bool>), channel),
        call_ensures(Broker::on_expose, (c, &catalog, f, None::<bool>), function),
        !old(b)@.reg.chan_by_name.dom().contains(m.channel@),
        !old(c)@.reg.fn_by_name.dom().contains(f.fn_name@),
        !avro::is_schema(m.schema_json@),
        !avro::is_schema(f.req_schema_json@) || !avro::is_schema(f.resp_schema_json@),
        old(b)@.rings.dom().contains(m.client_id),
        old(c)@.rings.dom().contains(f.client_id),
    ensures
        final(b)@ == old(b)@ && channel.released is None,
        final(c)@ == old(c)@ && function.released is None,
        channel.action matches Action::Send { client_id, frame } && client_id == m.client_id
            && exists|why: Seq<char>|
            avro::avro_written(
                proto::schema_text(Kind::PublishReply),
                #[trigger] PublishReply::record(m.correlation_id, 0, 0, ""@, 4, "bad schema: "@ + why),
            ) == Some(frame.body@),
        function.action matches Action::Send { client_id, frame } && client_id == f.client_id
            && avro::avro_written(
            proto::schema_text(Kind::ExposeReply),
            ExposeReply::record(
                f.correlation_id,
                0,
                0,
                0,
                ""@,
                status::ERR_INTERNAL,
                "bad schema"@,
            ),
        ) == Some(frame.body@),
{
    let fields = ExposeReply::record(
        f.correlation_id,
        0,
        0,
        0,
        ""@,
        status::ERR_INTERNAL,
        "bad schema"@,
    );
    assert(avro::typed(fields, proto::kind_shape(Kind::ExposeReply)));
    let why = choose|why: Seq<char>| #[trigger]
        replies(
            old(b)@,
            m.client_id,
            Kind::PublishReply,
            PublishReply::record(
                m.correlation_id,
                0,
                0,
                ""@,
                status::ERR_INTERNAL,
                "bad schema: "@ + why,
            ),
            channel.action,
        );
    assert(avro::typed(
        PublishReply::record(
            m.correlation_id,
            0,
            0,
            ""@,
            status::ERR_INTERNAL,
            "bad schema: "@ + why,
        ),
        proto::kind_shape(Kind::PublishReply),
    ));
    assert(avro::avro_written(
        proto::schema_text(Kind::PublishReply),
        PublishReply::record(m.correlation_id, 0, 0, ""@, 4, "bad schema: "@ + why),
    ) == Some(channel.action->frame.body@));
}

/// A channel whose arena was created is there, under its id and its name, as it was granted, and
/// nothing else changed; its owner is told its id, its arena and the fingerprint of its schema.
pub proof fn law_created_channel_is_there(
    catalog: Catalog,
    b: &mut Broker,
    correlation_id: i64,
    meta: ChannelMeta,
    r: Action,
    read: Result<PublishReply, ProtoError>,
)
    requires
        old(b)@.wf(),
        addable(old(b)@, (Pending::Channel { correlation_id, meta })),
        call_ensures(Broker::created, (b, &catalog, Pending::Channel { correlation_id, meta }), r),
        old(b)@.rings.dom().contains(meta.owner),
        vstd::utf8::encode_utf8(meta.arena@).len() <= avro::MAX_BYTES,
        r matches Action::Send { client_id, frame } ==> call_ensures(
            proto::from_frame::<PublishReply>,
            (&catalog, Kind::PublishReply, &frame),
            read,
        ),
    ensures
        final(b)@.reg.channels.dom().contains(meta.id) && final(b)@.reg.channels[meta.id] == meta,
        final(b)@.reg.chan_by_name.dom().contains(meta.name@)
            && final(b)@.reg.chan_by_name[meta.name@]
            == meta.id,
        forall|id: i64|
            id != meta.id ==> (#[trigger] final(b)@.reg.channels.dom().contains(id)
                <==> old(b)@.reg.channels.dom().contains(id))
                && final(b)@.reg.channels[id] == old(b)@.reg.channels[id],
        final(b)@.reg.clients == old(b)@.reg.clients,
        final(b)@.reg.functions == old(b)@.reg.functions,
        final(b)@.rings == old(b)@.rings,
        final(b)@.reply_names == old(b)@.reply_names,
        final(b)@.reg.next_client == old(b)@.reg.next_client,
        r matches Action::Send { client_id, frame } && client_id == meta.owner,
        read matches Ok(n) && n.correlation_id == correlation_id && n.channel_id == meta.id
            && n.schema_fp as u64 == meta.schema_fp && n.arena@ == meta.arena@ && n.status
            == status::OK,
{
    reveal_strlit("");
    let fields = PublishReply::record(
        correlation_id,
        meta.id,
        meta.schema_fp as i64,
        meta.arena@,
        status::OK,
        ""@,
    );
    assert(avro::conforms(fields, proto::kind_shape(Kind::PublishReply)));
    let n = read->Ok_0;
    assert(n.fields().fields[0] == fields.fields[0]);
    assert(n.fields().fields[1] == fields.fields[1]);
    assert(n.fields().fields[2] == fields.fields[2]);
    assert(n.fields().fields[3] == fields.fields[3]);
    assert(n.fields().fields[4] == fields.fields[4]);
    proto::law_fingerprint_as_long(meta.schema_fp, 0);
}

/// A function whose arena was created is there, under its id and its name, as it was granted, and
/// nothing else changed; its owner is told its id, its arena and the fingerprints of its schemas.
pub proof fn law_created_function_is_there(
    catalog: Catalog,
    b: &mut Broker,
    correlation_id: i64,
    meta: FunctionMeta,
    r: Action,
    read: Result<ExposeReply, ProtoError>,
)
    requires
        old(b)@.wf(),
        addable(old(b)@, (Pending::Function { correlation_id, meta })),
        call_ensures(Broker::created, (b, &catalog, Pending::Function { correlation_id, meta }), r),
        old(b)@.rings.dom().contains(meta.owner),
        vstd::utf8::encode_utf8(meta.req_arena@).len() <= avro::MAX_BYTES,
        r matches Action::Send { client_id, frame } ==> call_ensures(
            proto::from_frame::<ExposeReply>,
            (&catalog, Kind::ExposeReply, &frame),
            read,
        ),
    ensures
        final(b)@.reg.functions.dom().contains(meta.id) && final(b)@.reg.functions[meta.id] == meta,
        final(b)@.reg.fn_by_name.dom().contains(meta.name@) && final(b)@.reg.fn_by_name[meta.name@]
            == meta.id,
        forall|id: i64|
            id != meta.id ==> (#[trigger] final(b)@.reg.functions.dom().contains(id)
                <==> old(b)@.reg.functions.dom().contains(id))
                && final(b)@.reg.functions[id] == old(b)@.reg.functions[id],
        final(b)@.reg.clients == old(b)@.reg.clients,
        final(b)@.reg.channels == old(b)@.reg.channels,
        final(b)@.rings == old(b)@.rings,
        final(b)@.reply_names == old(b)@.reply_names,
        final(b)@.reg.next_client == old(b)@.reg.next_client,
        r matches Action::Send { client_id, frame } && client_id == meta.owner,
        read matches Ok(n) && n.correlation_id == correlation_id && n.fn_id == meta.id
            && n.req_fp as u64
            == meta.req_fp && n.resp_fp as u64 == meta.resp_fp && n.req_arena@ == meta.req_arena@
            && n.status == status::OK,
{
    reveal_strlit("");
    let fields = ExposeReply::record(
        correlation_id,
        meta.id,
        meta.req_fp as i64,
        meta.resp_fp as i64,
        meta.req_arena@,
        status::OK,
        ""@,
    );
    assert(avro::conforms(fields, proto::kind_shape(Kind::ExposeReply)));
    let n = read->Ok_0;
    assert(n.fields().fields[0] == fields.fields[0]);
    assert(n.fields().fields[1] == fields.fields[1]);
    assert(n.fields().fields[2] == fields.fields[2]);
    assert(n.fields().fields[3] == fields.fields[3]);
    assert(n.fields().fields[4] == fields.fields[4]);
    assert(n.fields().fields[5] == fields.fields[5]);
    proto::law_fingerprint_as_long(meta.req_fp, 0);
    proto::law_fingerprint_as_long(meta.resp_fp, 0);
}

/// A request to read a channel is answered to who sent it: with the channel's arena and the
/// fingerprint of its schema where there is such a channel, the presented key opens it and the
/// expected schema, if any, is its own; with a status that says why not, and with no arena,
/// otherwise.
pub proof fn law_reader_is_answered(
    catalog: Catalog,
    b: Broker,
    m: Subscribe,
    r: Action,
    read: Result<SubscribeReply, ProtoError>,
)
    requires
        call_ensures(Broker::on_subscribe, (&b, &catalog, &m), r),
        b@.rings.dom().contains(m.client_id),
        b@.reg.channels.dom().contains(m.channel_id) ==> vstd::utf8::encode_utf8(
            b@.reg.channels[m.channel_id].arena@,
        ).len() <= avro::MAX_BYTES,
        r matches Action::Send { client_id, frame } ==> call_ensures(
            proto::from_frame::<SubscribeReply>,
            (&catalog, Kind::SubscribeReply, &frame),
            read,
        ),
    ensures
        r matches Action::Send { client_id, frame } && client_id == m.client_id,
        read matches Ok(n) && n.correlation_id == m.correlation_id && {
            let known = b@.reg.channels.dom().contains(m.channel_id);
            let c = b@.reg.channels[m.channel_id];
            let opens = c.key matches Some(hash) ==> util::hashed_key(m.access_key@) == hash@;
            let agrees = m.expected_fp as u64 == 0 || m.expected_fp as u64 == c.schema_fp;
            if !known {
                n.status == status::ERR_NOT_FOUND && n.arena@.len() == 0 && n.schema_fp == 0
                    && n.message@ == "no such channel"@
            } else if !opens {
                n.status == status::ERR_DENIED && n.arena@.len() == 0 && n.schema_fp == 0
                    && n.message@ == "invalid access key"@
            } else if !agrees {
                n.status == status::ERR_SCHEMA_MISMATCH && n.arena@.len() == 0 && n.schema_fp == 0
                    && n.message@ == "schema mismatch: expected 0x"@ + text::hex(
                    m.expected_fp as u64 as nat,
                ) + ", got 0x"@ + text::hex(c.schema_fp as nat)
            } else {
                n.status == status::OK && n.arena@ == c.arena@ && n.schema_fp as u64 == c.schema_fp
                    && n.message@.len() == 0
            }
        },
{
    reveal_strlit("");
    lemma_short(""@);
    let fields = subscribe_reply(b@, m);
    match b@.reg.subscribe_refusal(m.channel_id, m.access_key@, m.expected_fp as u64) {
        None => {},
        Some((code, why)) => {
            reveal_strlit("no such channel");
            reveal_strlit("invalid access key");
            reveal_strlit("schema mismatch: expected 0x");
            reveal_strlit(", got 0x");
            text::lemma_hex_len(m.expected_fp as u64);
            text::lemma_hex_len(b@.reg.channels[m.channel_id].schema_fp);
            lemma_short(why);
        },
    }
    assert(avro::conforms(fields, proto::kind_shape(Kind::SubscribeReply)));
    let n = read->Ok_0;
    assert(n.fields().fields[0] == fields.fields[0]);
    assert(n.fields().fields[1] == fields.fields[1]);
    assert(n.fields().fields[2] == fields.fields[2]);
    assert(n.fields().fields[3] == fields.fields[3]);
    assert(n.fields().fields[4] == fields.fields[4]);
    proto::law_fingerprint_as_long(b@.reg.channels[m.channel_id].schema_fp, 0);
}

/// A request for a function is answered to who sent it: with the function's id, its arena and the
/// fingerprints of its schemas where there is such a function and the presented key opens it;
/// with a status that says why not, and with no arena, otherwise.
pub proof fn law_caller_is_answered(
    catalog: Catalog,
    b: Broker,
    m: LookupFunction,
    r: Action,
    read: Result<LookupReply, ProtoError>,
)
    requires
        b@.wf(),
        call_ensures(Broker::on_lookup, (&b, &catalog, &m), r),
        b@.rings.dom().contains(m.client_id),
        b@.reg.fn_by_name.dom().contains(m.fn_name@) ==> vstd::utf8::encode_utf8(
            b@.reg.functions[b@.reg.fn_by_name[m.fn_name@]].req_arena@,
        ).len() <= avro::MAX_BYTES,
        r matches Action::Send { client_id, frame } ==> call_ensures(
            proto::from_frame::<LookupReply>,
            (&catalog, Kind::LookupReply, &frame),
            read,
        ),
    ensures
        r matches Action::Send { client_id, frame } && client_id == m.client_id,
        read matches Ok(n) && n.correlation_id == m.correlation_id && {
            let known = b@.reg.fn_by_name.dom().contains(m.fn_name@);
            let f = b@.reg.functions[b@.reg.fn_by_name[m.fn_name@]];
            let opens = f.key matches Some(hash) ==> util::hashed_key(m.access_key@) == hash@;
            if !known {
                n.status == status::ERR_NOT_FOUND && n.req_arena@.len() == 0 && n.fn_id == 0
                    && n.message@ == "no such function"@
            } else if !opens {
                n.status == status::ERR_DENIED && n.req_arena@.len() == 0 && n.fn_id == 0
                    && n.message@ == "invalid access key"@
            } else {
                n.status == status::OK && n.fn_id == f.id && n.req_fp as u64 == f.req_fp
                    && n.resp_fp as u64 == f.resp_fp && n.req_arena@ == f.req_arena@
                    && n.message@.len() == 0
            }
        },
{
    reveal_strlit("");
    lemma_short(""@);
    let fields = lookup_reply(b@, m);
    match b@.reg.lookup_refusal(m.fn_name@, m.access_key@) {
        None => {},
        Some((code, why)) => {
            reveal_strlit("no such function");
            reveal_strlit("invalid access key");
            lemma_short(why);
        },
    }
    assert(avro::conforms(fields, proto::kind_shape(Kind::LookupReply)));
    let n = read->Ok_0;
    assert(n.fields().fields[0] == fields.fields[0]);
    assert(n.fields().fields[1] == fields.fields[1]);
    assert(n.fields().fields[2] == fields.fields[2]);
    assert(n.fields().fields[3] == fields.fields[3]);
    assert(n.fields().fields[4] == fields.fields[4]);
    assert(n.fields().fields[5] == fields.fields[5]);
    assert(n.fields().fields[6] == fields.fields[6]);
    let f = b@.reg.functions[b@.reg.fn_by_name[m.fn_name@]];
    proto::law_fingerprint_as_long(f.req_fp, 0);
    proto::law_fingerprint_as_long(f.resp_fp, 0);
}

/// The list of channels that is answered, to who asked for it, has one entry for every channel:
/// its id and name, the fingerprint of its schema, the application that owns it, and whether it
/// asks for a key.
pub proof fn law_lister_is_answered(
    catalog: Catalog,
    b: Broker,
    m: ListChannels,
    r: Action,
    read: Result<ChannelList, ProtoError>,
    id: i64,
)
    requires
        b@.wf(),
        call_ensures(Broker::on_list, (&b, &catalog, &m), r),
        b@.rings.dom().contains(m.client_id),
        forall|list: ChannelList|
            registry::lists_channels(b@.reg, list.channels@) ==> avro::sized(
                #[trigger] list.fields(),
            ),
        r matches Action::Send { client_id, frame } ==> call_ensures(
            proto::from_frame::<ChannelList>,
            (&catalog, Kind::ChannelList, &frame),
            read,
        ),
    ensures
        r matches Action::Send { client_id, frame } && client_id == m.client_id,
        read matches Ok(n) && n.correlation_id == m.correlation_id,
        b@.reg.channels.dom().contains(id) <==> exists|i: int|
            0 <= i < read->Ok_0.channels@.len() && (#[trigger] read->Ok_0.channels@[i]).channel_id
                == id,
        forall|i: int|
            0 <= i < read->Ok_0.channels@.len() && (#[trigger] read->Ok_0.channels@[i]).channel_id
                == id ==> {
                let c = b@.reg.channels[id];
                let info = read->Ok_0.channels@[i];
                &&& info.name@ == c.name@
                &&& info.schema_fp as u64 == c.schema_fp
                &&& info.requires_key <==> c.key is Some
                &&& b@.reg.clients.dom().contains(c.owner) ==> info.owner_app@
                    == b@.reg.clients[c.owner].app_name@
            },
{
    let list = choose|list: ChannelList| #[trigger]
        replies(b@, m.client_id, Kind::ChannelList, list.fields(), r) && list.correlation_id
            == m.correlation_id && registry::lists_channels(b@.reg, list.channels@);
    list.lemma_typed();
    let n = read->Ok_0;
    assert(n.fields() == list.fields());
    assert(n.fields().fields[0] == list.fields().fields[0]);
    assert(n.fields().rows.len() == n.channels@.len());
    assert(list.fields().rows.len() == list.channels@.len());
    let v = b@.reg;
    let order = choose|order: Seq<i64>| #[trigger]
        order.no_duplicates() && order.to_set() == v.channels.dom() && order.len()
            == list.channels@.len() && forall|i: int|
            0 <= i < order.len() ==> v.describes(order[i], #[trigger] list.channels@[i]);
    assert forall|i: int| 0 <= i < n.channels@.len() implies {
        &&& (#[trigger] n.channels@[i]).channel_id == order[i]
        &&& v.channels.dom().contains(order[i])
        &&& n.channels@[i].name@ == v.channels[order[i]].name@
        &&& n.channels@[i].owner_app@ == v.owner_app(v.channels[order[i]].owner)
        &&& n.channels@[i].schema_fp as u64 == v.channels[order[i]].schema_fp
        &&& n.channels@[i].requires_key == (v.channels[order[i]].key is Some)
    } by {
        let x = n.channels@[i].row();
        let y = list.channels@[i].row();
        assert(n.fields().rows[i] == x && list.fields().rows[i] == y);
        assert(x[0] == y[0] && x[1] == y[1] && x[2] == y[2] && x[3] == y[3] && x[4] == y[4]);
        assert(v.describes(order[i], list.channels@[i]));
        assert(order.to_set().contains(order[i]));
        proto::law_fingerprint_as_long(v.channels[order[i]].schema_fp, 0);
    }
    if v.channels.dom().contains(id) {
        assert(order.to_set().contains(id));
        assert(order.contains(id));
        let i = choose|i: int| 0 <= i < order.len() && order[i] == id;
        assert(n.channels@[i].channel_id == id);
    }
}

/// A broker starts where there is no control segment, or where the one that is there is not valid
/// or its broker is dead, which it removes; it does not start where the broker lives or belongs to
/// another user, and passes other failures on.
pub proof fn law_one_broker_at_a_time(
    opened: Result<(bool, bool), Failure>,
    found: Found,
    guard: Guard,
)
    requires
        call_ensures(found_of, (opened,), found),
        call_ensures(guard_singleton, (found,), guard),
    ensures
        opened matches Ok((valid, alive)) ==> guard == if valid && alive {
            Guard::AlreadyRunning
        } else {
            Guard::Reclaim
        },
        opened matches Err(Failure::Os { errno }) ==> guard == if errno == shm::ENOENT {
            Guard::Start
        } else if errno == shm::EACCES {
            Guard::AlreadyRunning
        } else {
            Guard::Fail
        },
        opened == Err::<(bool, bool), Failure>(Failure::Shm(ShmError::ZeroSize)) ==> guard
            == Guard::Reclaim,
        opened == Err::<(bool, bool), Failure>(Failure::Shm(ShmError::NulInName)) ==> guard
            == Guard::Fail,
{
}

/// An owner whose process is not known is taken to live; any other is taken for what was found
/// out. A frame that a ring did not take is reported.
pub proof fn law_unknown_process_lives(
    pid: i32,
    probed: Option<bool>,
    alive: Option<bool>,
    pushed: bool,
    told: Result<(), BrokerError>,
)
    requires
        call_ensures(owner_alive, (pid, probed), alive),
        call_ensures(sent, (pushed,), told),
    ensures
        pid == 0 ==> alive == Some(true),
        pid != 0 ==> alive == probed,
        told is Ok <==> pushed,
        told matches Err(e) ==> e is ReplyRingFull,
{
}

/// The name of an arena is short enough to travel.
pub(crate) proof fn lemma_arena_name_is_short(name: Seq<char>, id: u64)
    requires
        name == util::numbered("/impulse-ring.arena."@, id as nat) || name == util::numbered(
            "/impulse-ring.fn."@,
            id as nat,
        ),
    ensures
        vstd::utf8::encode_utf8(name).len() <= avro::MAX_BYTES,
{
    reveal_strlit("/impulse-ring.arena.");
    reveal_strlit("/impulse-ring.fn.");
    reveal_strlit(".v1");
    crate::text::lemma_decimal_len(id);
    lemma_short(name);
}

/// The words of the broker's errors.
pub proof fn law_broker_error_words(
    e: BrokerError,
    words: String,
    s: StartError,
    start: String,
    kind: Kind,
    name: &'static str,
    frame: FrameError,
    of_frame: String,
    proto: ProtoError,
    of_proto: String,
    avro: AvroError,
    of_avro: String,
)
    requires
        call_ensures(BrokerError::message, (&e,), words),
        call_ensures(StartError::message, (&s,), start),
        call_ensures(proto::kind_name, (kind,), name),
        call_ensures(FrameError::message, (&frame,), of_frame),
        call_ensures(ProtoError::message, (&proto,), of_proto),
        call_ensures(AvroError::message, (&avro,), of_avro),
    ensures
        e is UnknownFingerprint ==> words@ == "unknown control schema fingerprint"@,
        e is NoReplyRing ==> words@ == "reply ring for client not found"@,
        e is ReplyRingFull ==> words@ == "reply ring full (client stuck?)"@,
        e == BrokerError::Unexpected(kind) ==> words@ == "unexpected control kind "@ + name@,
        e == BrokerError::Frame(frame) ==> words@ == of_frame@,
        e == BrokerError::Proto(proto) ==> words@ == of_proto@,
        e == BrokerError::Avro(avro) ==> words@ == of_avro@,
        s is AlreadyRunning ==> start@ == "another impulsed broker is already running"@,
        s matches StartError::Io(w) ==> start@ == w@,
{
}

/// Who has no reply ring is not answered, and nothing changes by asking.
pub proof fn law_stranger_is_not_answered(
    catalog: Catalog,
    b: Broker,
    subscribe: Subscribe,
    lookup: LookupFunction,
    list: ListChannels,
    r: Action,
    s: Action,
    t: Action,
)
    requires
        call_ensures(Broker::on_subscribe, (&b, &catalog, &subscribe), r),
        call_ensures(Broker::on_lookup, (&b, &catalog, &lookup), s),
        call_ensures(Broker::on_list, (&b, &catalog, &list), t),
    ensures
        !b@.rings.dom().contains(subscribe.client_id) ==> r == Action::Fail(
            BrokerError::NoReplyRing,
        ),
        !b@.rings.dom().contains(lookup.client_id) ==> s == Action::Fail(BrokerError::NoReplyRing),
        !b@.rings.dom().contains(list.client_id) ==> t == Action::Fail(BrokerError::NoReplyRing),
{
}

} // verus!
