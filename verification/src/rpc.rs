//! Calls of functions: what a caller checks and sends, what a service answers, and what the
//! answer comes to.
use vstd::prelude::*;

use crate::avro;
use crate::avro::{AvroError, Fingerprint, Record, Schema};
use crate::channel;
use crate::client;
use crate::client::{ClientError, Inner};
use crate::frame;
use crate::frame::Frame;
use crate::proto;
use crate::proto::messages::Message;
use crate::proto::status;
use crate::proto::{Catalog, Kind, LookupReply, RpcRequest, RpcResponse};

verus! {

/// How long a caller waits for room in a function's request ring, in nanoseconds.
pub const CALL_NANOS: u64 = 2_000_000_000;

/// How long a service waits for room in a caller's reply ring, in nanoseconds.
pub const RESPOND_NANOS: u64 = 2_000_000_000;

/// How long a service waits for a request before it looks whether to go on, in nanoseconds.
pub const SERVE_NANOS: u64 = 100_000_000;

// ---- the caller ----------------------------------------------------------------------------

/// Whether a function takes the arguments and gives the results that a caller means.
pub fn check_call(lr: &LookupReply, arg_fp: Fingerprint, expected_resp_fp: Fingerprint) -> (r: Result<
    (),
    ClientError,
>)
    ensures
        r == if lr.req_fp as u64 != arg_fp {
            Err::<(), ClientError>(ClientError::CallRequestSchema)
        } else if lr.resp_fp as u64 != expected_resp_fp {
            Err(ClientError::CallResponseSchema)
        } else {
            Ok(())
        },
{
    if proto::i64_to_fp(lr.req_fp) != arg_fp {
        return Err(ClientError::CallRequestSchema);
    }
    if proto::i64_to_fp(lr.resp_fp) != expected_resp_fp {
        return Err(ClientError::CallResponseSchema);
    }
    Ok(())
}

impl<P> Inner<P> {
    /// The request to a function with encoded arguments.
    pub fn call_request(
        &self,
        catalog: &Catalog,
        corr: i64,
        arg_fp: Fingerprint,
        args: Vec<u8>,
    ) -> (r: Result<Frame, ClientError>)
        ensures
            client::requests(
                Kind::RpcRequest,
                RpcRequest::record(
                    corr,
                    self@.transport.client_id,
                    self@.transport.reply_segment@,
                    arg_fp as i64,
                    args@,
                ),
                r,
            ),
    {
        let msg = RpcRequest {
            correlation_id: corr,
            caller_id: self.client_id(),
            reply_segment: self.reply_segment(),
            arg_fp: proto::fp_to_i64(arg_fp),
            args,
        };
        match proto::to_frame(catalog, Kind::RpcRequest, &msg) {
            Ok(frame) => Ok(frame),
            Err(e) => Err(ClientError::Avro(e)),
        }
    }

    /// The request to a function with a record as its arguments, if the function takes such
    /// arguments and gives the results that the caller means.
    pub fn call(
        &self,
        catalog: &Catalog,
        corr: i64,
        lr: &LookupReply,
        req: Record,
        req_schema: &Schema,
        arg_fp: Fingerprint,
        expected_resp_fp: Fingerprint,
    ) -> (r: Result<Frame, ClientError>)
        ensures
            if lr.req_fp as u64 != arg_fp {
                r == Err::<Frame, ClientError>(ClientError::CallRequestSchema)
            } else if lr.resp_fp as u64 != expected_resp_fp {
                r == Err::<Frame, ClientError>(ClientError::CallResponseSchema)
            } else if !channel::writable(*req_schema, req@) {
                r matches Err(e) && channel::unwritable(*req_schema, req@, e)
            } else {
                client::requests(
                    Kind::RpcRequest,
                    RpcRequest::record(
                        corr,
                        self@.transport.client_id,
                        self@.transport.reply_segment@,
                        arg_fp as i64,
                        channel::written(*req_schema, req@),
                    ),
                    r,
                )
            },
    {
        match check_call(lr, arg_fp, expected_resp_fp) {
            Ok(_) => {},
            Err(e) => {
                return Err(e);
            },
        }
        match avro::encode(req_schema, req) {
            Ok(args) => self.call_request(catalog, corr, arg_fp, args),
            Err(e) => Err(ClientError::Avro(e)),
        }
    }

    /// What became of a request by whether the function's ring took it: a call that was not
    /// placed waits no longer.
    pub fn call_placed(&mut self, corr: i64, pushed: bool) -> (r: Result<(), ClientError>)
        ensures
            r == if pushed {
                Ok::<(), ClientError>(())
            } else {
                Err(ClientError::RequestRingFull)
            },
            final(self)@ == if pushed {
                old(self)@
            } else {
                client::InnerView { pending: old(self)@.pending.remove(corr), ..old(self)@ }
            },
    {
        if pushed {
            Ok(())
        } else {
            self.drop_pending(corr);
            Err(ClientError::RequestRingFull)
        }
    }
}

/// What a response means to a caller who expects results of a schema.
pub open spec fn result_of(m: RpcResponse, expected: Fingerprint, r: Result<Seq<u8>, ClientError>) -> bool {
    if m.status != status::OK {
        r matches Err(ClientError::Remote { status, words }) && status == m.status && words@
            == m.message@
    } else if m.result_fp as u64 != expected {
        r == Err::<Seq<u8>, ClientError>(
            ClientError::ResponseSchema { expected, got: m.result_fp as u64 },
        )
    } else {
        r == Ok::<Seq<u8>, ClientError>(m.result@)
    }
}

/// The result in a response.
pub fn check_response(m: RpcResponse, expected: Fingerprint) -> (r: Result<Vec<u8>, ClientError>)
    ensures
        result_of(m, expected, bytes_of(r)),
{
    if m.status != status::OK {
        return Err(ClientError::Remote { status: m.status, words: m.message });
    }
    let got: Fingerprint = proto::i64_to_fp(m.result_fp);
    if got != expected {
        return Err(ClientError::ResponseSchema { expected, got });
    }
    Ok(m.result)
}

/// A result by the bytes that it holds.
pub open spec fn bytes_of(r: Result<Vec<u8>, ClientError>) -> Result<Seq<u8>, ClientError> {
    match r {
        Ok(b) => Ok(b@),
        Err(e) => Err(e),
    }
}

/// The encoded result in the frame of a response.
pub fn decode_response(catalog: &Catalog, frame: &Frame, expected: Fingerprint) -> (r: Result<
    Vec<u8>,
    ClientError,
>)
    ensures
        responds(frame.body@, expected, bytes_of(r)),
{
    let m: RpcResponse = match proto::from_frame::<RpcResponse>(catalog, Kind::RpcResponse, frame) {
        Ok(m) => m,
        Err(e) => {
            return Err(ClientError::Proto(e));
        },
    };
    assert(proto::read_as(proto::schema_text(Kind::RpcResponse), frame.body@, Some(m)));
    check_response(m, expected)
}

/// The record in the frame of a response.
pub fn decode_record(
    catalog: &Catalog,
    frame: &Frame,
    resp_schema: &Schema,
    expected: Fingerprint,
) -> (r: Result<Record, ClientError>)
    ensures
        exists|b: Result<Seq<u8>, ClientError>| #[trigger]
            responds(frame.body@, expected, b) && match b {
                Err(e) => r == Err::<Record, ClientError>(e),
                Ok(body) => match r {
                    Ok(record) => resp_schema.flat() && avro::avro_read(resp_schema@, body) == Some(
                        record@,
                    ),
                    Err(ClientError::Avro(AvroError::NotFlat)) => !resp_schema.flat(),
                    Err(ClientError::Avro(AvroError::Rejected(_))) => resp_schema.flat()
                        && avro::avro_read(resp_schema@, body) is None,
                    Err(_) => false,
                },
            },
{
    let b: Result<Vec<u8>, ClientError> = decode_response(catalog, frame, expected);
    assert(responds(frame.body@, expected, bytes_of(b)));
    match b {
        Ok(body) => match avro::decode(resp_schema, body.as_slice()) {
            Ok(record) => Ok(record),
            Err(e) => Err(ClientError::Avro(e)),
        },
        Err(e) => Err(e),
    }
}

/// What the body of a response means to a caller who expects results of a schema.
pub open spec fn responds(body: Seq<u8>, expected: Fingerprint, r: Result<Seq<u8>, ClientError>) -> bool {
    let json = proto::schema_text(Kind::RpcResponse);
    if r matches Err(ClientError::Proto(_)) {
        proto::read_as::<RpcResponse>(json, body, None)
    } else {
        exists|m: RpcResponse| #[trigger]
            proto::read_as(json, body, Some(m)) && result_of(m, expected, r)
    }
}

// ---- the service ---------------------------------------------------------------------------

/// The request in bytes that came off a function's ring.
pub fn service_request(catalog: &Catalog, bytes: &[u8]) -> (r: Result<RpcRequest, ClientError>)
    ensures
        match frame::parse_frame(bytes@) {
            Err(e) => r == Err::<RpcRequest, ClientError>(ClientError::Frame(e)),
            Ok(f) => match r {
                Ok(m) => proto::read_as(proto::schema_text(Kind::RpcRequest), f.body, Some(m)),
                Err(ClientError::Proto(_)) => proto::read_as::<RpcRequest>(
                    proto::schema_text(Kind::RpcRequest),
                    f.body,
                    None,
                ),
                Err(_) => false,
            },
        },
{
    let frame: Frame = match Frame::decode(bytes) {
        Ok(frame) => frame,
        Err(e) => {
            return Err(ClientError::Frame(e));
        },
    };
    match proto::from_frame::<RpcRequest>(catalog, Kind::RpcRequest, &frame) {
        Ok(m) => Ok(m),
        Err(e) => Err(ClientError::Proto(e)),
    }
}

fn err_response(correlation_id: i64, code: i32, msg: &str) -> (r: RpcResponse)
    ensures
        r.fields() == RpcResponse::record(correlation_id, code, msg@, 0, Seq::empty()),
{
    RpcResponse {
        correlation_id,
        status: code,
        message: msg.to_owned(),
        result_fp: 0,
        result: Vec::new(),
    }
}

/// The answer to a request whose arguments are not of the function's schema, `None` where they
/// are.
pub fn check_args(req: &RpcRequest, req_fp: Fingerprint) -> (r: Option<RpcResponse>)
    ensures
        r is Some <==> req.arg_fp as u64 != req_fp,
        r matches Some(m) ==> m.fields() == mismatch_response(req.correlation_id),
{
    if proto::i64_to_fp(req.arg_fp) != req_fp {
        Some(
            err_response(
                req.correlation_id,
                status::ERR_SCHEMA_MISMATCH,
                "request schema mismatch",
            ),
        )
    } else {
        None
    }
}

/// The answer to a request whose arguments are not of the function's schema.
pub open spec fn mismatch_response(correlation_id: i64) -> avro::RecordView {
    RpcResponse::record(
        correlation_id,
        status::ERR_SCHEMA_MISMATCH,
        "request schema mismatch"@,
        0,
        Seq::empty(),
    )
}

/// What serving a request came to.
#[derive(Debug)]
pub enum Served {
    /// The arguments cannot be read, in the reader's words.
    BadArgs(String),
    /// The encoded result.
    Result(Vec<u8>),
    /// The result cannot be written, in the writer's words.
    EncodeFailed(String),
}

/// The answer to a request by what serving it came to.
pub open spec fn response(correlation_id: i64, resp_fp: Fingerprint, served: Served) -> avro::RecordView {
    match served {
        Served::BadArgs(words) => RpcResponse::record(
            correlation_id,
            status::ERR_INTERNAL,
            "bad args: "@ + words@,
            0,
            Seq::empty(),
        ),
        Served::Result(body) => RpcResponse::record(
            correlation_id,
            status::OK,
            ""@,
            resp_fp as i64,
            body@,
        ),
        Served::EncodeFailed(words) => RpcResponse::record(
            correlation_id,
            status::ERR_INTERNAL,
            "encode failed: "@ + words@,
            0,
            Seq::empty(),
        ),
    }
}

/// The answer to a request by what serving it came to.
pub fn respond(correlation_id: i64, resp_fp: Fingerprint, served: Served) -> (r: RpcResponse)
    ensures
        r.fields() == response(correlation_id, resp_fp, served),
{
    match served {
        Served::BadArgs(words) => {
            let mut s: String = "bad args: ".to_owned();
            s.append(words.as_str());
            err_response(correlation_id, status::ERR_INTERNAL, s.as_str())
        },
        Served::Result(body) => RpcResponse {
            correlation_id,
            status: status::OK,
            message: "".to_owned(),
            result_fp: proto::fp_to_i64(resp_fp),
            result: body,
        },
        Served::EncodeFailed(words) => {
            let mut s: String = "encode failed: ".to_owned();
            s.append(words.as_str());
            err_response(correlation_id, status::ERR_INTERNAL, s.as_str())
        },
    }
}

/// What serving a request on records comes to: the arguments are read, the function is run on
/// them, and its result is written.
pub open spec fn serves<F: Fn(Record) -> Record>(
    args: Seq<u8>,
    req_schema: Schema,
    resp_schema: Schema,
    handler: F,
    served: Served,
) -> bool {
    if !req_schema.flat() || avro::avro_read(req_schema@, args) is None {
        served is BadArgs
    } else {
        exists|arg: Record, out: Record| #[trigger]
            call_ensures(handler, (arg,), out) && avro::avro_read(req_schema@, args) == Some(arg@)
                && (served matches Served::Result(b) ==> resp_schema.conforming(out@)
                ==> avro::avro_read(resp_schema@, b@) == Some(out@))
                && if !resp_schema.flat() || avro::avro_written(resp_schema@, out@) is None {
                served is EncodeFailed
            } else {
                served matches Served::Result(body) && avro::avro_written(resp_schema@, out@)
                    == Some(body@)
            }
    }
}

/// Answers one request of a function on records.
pub fn handle_one<F: Fn(Record) -> Record>(
    req: &RpcRequest,
    req_schema: &Schema,
    resp_schema: &Schema,
    req_fp: Fingerprint,
    resp_fp: Fingerprint,
    handler: &F,
) -> (r: RpcResponse)
    requires
        forall|arg: Record| #[trigger] call_requires(*handler, (arg,)),
    ensures
        if req.arg_fp as u64 != req_fp {
            r.fields() == mismatch_response(req.correlation_id)
        } else {
            exists|served: Served| #[trigger]
                serves(req.args@, *req_schema, *resp_schema, *handler, served) && r.fields()
                    == response(req.correlation_id, resp_fp, served)
        },
{
    match check_args(req, req_fp) {
        Some(refusal) => {
            return refusal;
        },
        None => {},
    }
    let served: Served = match avro::decode(req_schema, req.args.as_slice()) {
        Ok(arg) => {
            let ghost a = arg;
            let out: Record = handler(arg);
            let ghost o = out;
            assert(call_ensures(*handler, (a,), o));
            match avro::encode(resp_schema, out) {
                Ok(body) => Served::Result(body),
                Err(e) => Served::EncodeFailed(e.message()),
            }
        },
        Err(e) => Served::BadArgs(e.message()),
    };
    assert(serves(req.args@, *req_schema, *resp_schema, *handler, served));
    respond(req.correlation_id, resp_fp, served)
}

/// The frame of a response.
pub fn response_frame(catalog: &Catalog, response: &RpcResponse) -> (r: Result<Frame, ClientError>)
    ensures
        client::requests(Kind::RpcResponse, response.fields(), r),
{
    match proto::to_frame(catalog, Kind::RpcResponse, response) {
        Ok(frame) => Ok(frame),
        Err(e) => Err(ClientError::Avro(e)),
    }
}

/// What became of a response by whether the caller's ring took it.
pub fn responded(pushed: bool) -> (r: Result<(), ClientError>)
    ensures
        r == if pushed {
            Ok::<(), ClientError>(())
        } else {
            Err(ClientError::ReplyRingFull)
        },
{
    if pushed {
        Ok(())
    } else {
        Err(ClientError::ReplyRingFull)
    }
}

// ---- waiting -------------------------------------------------------------------------------

/// What to do about a future that was just polled.
#[derive(Clone, Copy, Debug, PartialEq, Eq)]
pub enum BlockStep<T> {
    /// It is over: the future's value, or nothing where it was not ready in time.
    Return(Option<T>),
    PollAgain,
    /// Sleep for at most `nanos`, and poll again.
    Park { nanos: u64 },
}

/// One round of waiting for a future that was just polled, with what the poll gave. A value that
/// is there is returned, also past the deadline.
pub open spec fn block_step<T>(
    polled: Option<T>,
    now: u64,
    deadline: u64,
    notified: bool,
) -> BlockStep<T> {
    match polled {
        Some(value) => BlockStep::Return(Some(value)),
        None => if now >= deadline {
            BlockStep::Return(None)
        } else if notified {
            BlockStep::PollAgain
        } else {
            BlockStep::Park { nanos: (deadline - now) as u64 }
        },
    }
}

/// One round of waiting for a future that was just polled, with what the poll gave; `now` and
/// `deadline` on one clock in nanoseconds, and `notified` says whether the waker was woken since.
pub fn block_on<T>(polled: Option<T>, now: u64, deadline: u64, notified: bool) -> (r: BlockStep<T>)
    ensures
        r == block_step(polled, now, deadline, notified),
{
    match polled {
        Some(value) => BlockStep::Return(Some(value)),
        None => if now >= deadline {
            BlockStep::Return(None)
        } else if notified {
            BlockStep::PollAgain
        } else {
            BlockStep::Park { nanos: deadline - now }
        },
    }
}

/// What rounds of waiting come to, each with what its poll gave, the time after it and whether
/// the waker was woken: what the first one that ends it returns, `None` where none does.
pub open spec fn blocked<T>(rounds: Seq<(Option<T>, u64, bool)>, deadline: u64) -> Option<Option<T>>
    decreases rounds.len(),
{
    if rounds.len() == 0 {
        None
    } else {
        match block_step(rounds[0].0, rounds[0].1, deadline, rounds[0].2) {
            BlockStep::Return(r) => Some(r),
            _ => blocked(rounds.skip(1), deadline),
        }
    }
}

/// Waiting ends in the first round whose poll gives a value, or after which the deadline has
/// passed. A value is looked for first: a future that is ready at the first poll gives it
/// whatever the deadline, and one that is not gives nothing where the deadline is now.
pub proof fn law_polled_before_deadline<T>(
    rounds: Seq<(Option<T>, u64, bool)>,
    deadline: u64,
    k: int,
)
    requires
        0 <= k < rounds.len(),
        forall|i: int| 0 <= i < k ==> (#[trigger] rounds[i]).0 is None && rounds[i].1 < deadline,
    ensures
        rounds[k].0 is Some ==> blocked(rounds, deadline) == Some(rounds[k].0),
        rounds[k].0 is None && rounds[k].1 >= deadline ==> blocked(rounds, deadline) == Some(
            None::<T>,
        ),
    decreases k,
{
    if k > 0 {
        assert(rounds[0].0 is None && rounds[0].1 < deadline);
        assert(rounds.skip(1)[k - 1] == rounds[k]);
        law_polled_before_deadline(rounds.skip(1), deadline, k - 1);
    }
}

// ---- laws ----------------------------------------------------------------------------------

proof fn lemma_response_read(m: RpcResponse, f: Frame, expected: Fingerprint, r: Result<Seq<u8>, ClientError>)
    requires
        proto::catalog_good(),
        client::requests(Kind::RpcResponse, m.fields(), Ok::<Frame, ClientError>(f)),
        avro::sized(m.fields()),
        responds(f.body@, expected, r),
    ensures
        forall|c: i64| #[trigger] proto::routes(f@, c) <==> c == m.correlation_id,
        exists|back: RpcResponse| #[trigger]
            result_of(back, expected, r) && back.fields() == m.fields(),
{
    m.lemma_typed();
    proto::law_reply_routes(f@, Kind::RpcResponse, m.fields(), m.correlation_id);
    let json = proto::schema_text(Kind::RpcResponse);
    assert(!proto::read_as::<RpcResponse>(json, f.body@, None));
    let back = choose|back: RpcResponse| #[trigger]
        proto::read_as(json, f.body@, Some(back)) && result_of(back, expected, r);
    assert(result_of(back, expected, r) && back.fields() == m.fields());
}

/// A result of the schema that the caller expects comes back to the call that asked for it, as
/// the function wrote it; a result of another schema is refused.
pub proof fn law_result_comes_back(
    corr: i64,
    resp_fp: Fingerprint,
    body: Vec<u8>,
    m: RpcResponse,
    f: Frame,
    expected: Fingerprint,
    r: Result<Seq<u8>, ClientError>,
)
    requires
        proto::catalog_good(),
        m.fields() == response(corr, resp_fp, Served::Result(body)),
        client::requests(Kind::RpcResponse, m.fields(), Ok::<Frame, ClientError>(f)),
        avro::sized(m.fields()),
        responds(f.body@, expected, r),
    ensures
        forall|c: i64| #[trigger] proto::routes(f@, c) <==> c == corr,
        r == if expected == resp_fp {
            Ok::<Seq<u8>, ClientError>(body@)
        } else {
            Err(ClientError::ResponseSchema { expected, got: resp_fp })
        },
{
    lemma_response_read(m, f, expected, r);
    let back = choose|back: RpcResponse| #[trigger]
        result_of(back, expected, r) && back.fields() == m.fields();
    let fields = response(corr, resp_fp, Served::Result(body)).fields;
    assert(m.fields().fields[0] == fields[0]);
    assert(back.fields().fields[1] == fields[1]);
    assert(back.fields().fields[3] == fields[3]);
    assert(back.fields().fields[4] == fields[4]);
    proto::law_fingerprint_as_long(resp_fp, 0);
}

/// A call with arguments that are not of the function's schema fails with the service's words,
/// and so does one whose arguments cannot be read or whose result cannot be written.
pub proof fn law_failure_comes_back(
    corr: i64,
    code: i32,
    words: Seq<char>,
    m: RpcResponse,
    f: Frame,
    expected: Fingerprint,
    r: Result<Seq<u8>, ClientError>,
)
    requires
        proto::catalog_good(),
        m.fields() == RpcResponse::record(corr, code, words, 0, Seq::empty()),
        code != status::OK,
        client::requests(Kind::RpcResponse, m.fields(), Ok::<Frame, ClientError>(f)),
        avro::sized(m.fields()),
        responds(f.body@, expected, r),
    ensures
        forall|c: i64| #[trigger] proto::routes(f@, c) <==> c == corr,
        r matches Err(ClientError::Remote { status, words: w }) && status == code && w@ == words,
{
    lemma_response_read(m, f, expected, r);
    let back = choose|back: RpcResponse| #[trigger]
        result_of(back, expected, r) && back.fields() == m.fields();
    let fields = RpcResponse::record(corr, code, words, 0, Seq::empty()).fields;
    assert(m.fields().fields[0] == fields[0]);
    assert(back.fields().fields[1] == fields[1]);
    assert(back.fields().fields[2] == fields[2]);
}

/// A caller whom the broker told the function's schemas, and who checked them, is not refused by
/// the service for its schema: what was checked against is what the service compares with.
pub proof fn law_checked_call_is_taken(
    lr: LookupReply,
    arg_fp: Fingerprint,
    req: RpcRequest,
    req_fp: Fingerprint,
)
    requires
        lr.req_fp as u64 == arg_fp,
        lr.req_fp == req_fp as i64,
        req.arg_fp == arg_fp as i64,
    ensures
        req.arg_fp as u64 == req_fp,
{
    proto::law_fingerprint_as_long(req_fp, lr.req_fp);
    proto::law_fingerprint_as_long(arg_fp, req.arg_fp);
}

/// A request with arguments of the function's schema that can be read is answered with the whole
/// result: the function is run on the arguments that were sent, and what the Avro library writes
/// for its output, no more and no less, is the result, under the request's correlation id and
/// with the fingerprint of the result's schema. An output of that schema is read back from it as
/// it was. An output that cannot be written is an internal error without a result.
pub proof fn law_whole_result_is_answered<F: Fn(Record) -> Record>(
    req: RpcRequest,
    req_schema: Schema,
    resp_schema: Schema,
    req_fp: Fingerprint,
    resp_fp: Fingerprint,
    handler: F,
    r: RpcResponse,
)
    requires
        call_ensures(
            handle_one::<F>,
            (&req, &req_schema, &resp_schema, req_fp, resp_fp, &handler),
            r,
        ),
        req.arg_fp as u64 == req_fp,
        req_schema.flat(),
        avro::avro_read(req_schema@, req.args@) is Some,
    ensures
        r.correlation_id == req.correlation_id,
        exists|arg: Record, out: Record| #[trigger]
            call_ensures(handler, (arg,), out) && avro::avro_read(req_schema@, req.args@) == Some(
                arg@,
            ) && match avro::avro_written(resp_schema@, out@) {
                Some(b) => resp_schema.flat() ==> {
                    &&& r.status == status::OK
                    &&& r.message@.len() == 0
                    &&& r.result_fp as u64 == resp_fp
                    &&& r.result@ == b
                    &&& resp_schema.conforming(out@) ==> avro::avro_read(resp_schema@, r.result@)
                        == Some(out@)
                },
                None => r.status == status::ERR_INTERNAL && r.result@.len() == 0,
            },
        !resp_schema.flat() ==> r.status == status::ERR_INTERNAL && r.result@.len() == 0,
        r.status != status::OK ==> r.message@.len() >= 15 && r.message@.take(15)
            == "encode failed: "@,
{
    reveal_strlit("");
    let served = choose|served: Served| #[trigger]
        serves(req.args@, req_schema, resp_schema, handler, served) && r.fields() == response(
            req.correlation_id,
            resp_fp,
            served,
        );
    let fields = response(req.correlation_id, resp_fp, served).fields;
    assert(r.fields().fields[0] == fields[0]);
    assert(r.fields().fields[1] == fields[1]);
    assert(r.fields().fields[2] == fields[2]);
    assert(r.fields().fields[3] == fields[3]);
    assert(r.fields().fields[4] == fields[4]);
    proto::law_fingerprint_as_long(resp_fp, 0);
    reveal_strlit("encode failed: ");
    if let Served::EncodeFailed(words) = served {
        assert(("encode failed: "@ + words@).take(15) =~= "encode failed: "@);
    }
}

/// A request whose arguments are not of the function's schema is refused, and the function is not
/// run on it; arguments that cannot be read are an internal error. Neither has a result, and both
/// answer the request that was sent.
pub proof fn law_bad_request_is_refused<F: Fn(Record) -> Record>(
    req: RpcRequest,
    req_schema: Schema,
    resp_schema: Schema,
    req_fp: Fingerprint,
    resp_fp: Fingerprint,
    handler: F,
    r: RpcResponse,
)
    requires
        call_ensures(
            handle_one::<F>,
            (&req, &req_schema, &resp_schema, req_fp, resp_fp, &handler),
            r,
        ),
        req.arg_fp as u64 != req_fp || !req_schema.flat() || avro::avro_read(
            req_schema@,
            req.args@,
        ) is None,
    ensures
        r.correlation_id == req.correlation_id,
        r.status == if req.arg_fp as u64 != req_fp {
            status::ERR_SCHEMA_MISMATCH
        } else {
            status::ERR_INTERNAL
        },
        req.arg_fp as u64 != req_fp ==> r.message@ == "request schema mismatch"@,
        req.arg_fp as u64 == req_fp ==> r.message@.len() >= 10 && r.message@.take(10)
            == "bad args: "@,
        r.result@.len() == 0,
        r.result_fp == 0,
{
    reveal_strlit("bad args: ");
    let fields = r.fields().fields;
    if req.arg_fp as u64 != req_fp {
        let want = mismatch_response(req.correlation_id).fields;
        assert(fields[0] == want[0] && fields[1] == want[1] && fields[2] == want[2]);
        assert(fields[3] == want[3] && fields[4] == want[4]);
    } else {
        let served = choose|served: Served| #[trigger]
            serves(req.args@, req_schema, resp_schema, handler, served) && r.fields() == response(
                req.correlation_id,
                resp_fp,
                served,
            );
        let want = response(req.correlation_id, resp_fp, served).fields;
        assert(fields[0] == want[0] && fields[1] == want[1] && fields[2] == want[2]);
        assert(fields[3] == want[3] && fields[4] == want[4]);
        assert(("bad args: "@ + served->BadArgs_0@).take(10) =~= "bad args: "@);
    }
}

/// A call from end to end: the arguments that the service reads, the function's output on them,
/// and the record that the caller reads out of the answer. An output of the schema that the
/// caller expects reaches the call that asked for it as the function gave it.
pub proof fn law_output_reaches_caller<F: Fn(Record) -> Record>(
    catalog: Catalog,
    req: RpcRequest,
    req_schema: Schema,
    resp_schema: Schema,
    req_fp: Fingerprint,
    resp_fp: Fingerprint,
    handler: F,
    m: RpcResponse,
    f: Frame,
    r: Result<Record, ClientError>,
)
    requires
        proto::catalog_good(),
        call_ensures(
            handle_one::<F>,
            (&req, &req_schema, &resp_schema, req_fp, resp_fp, &handler),
            m,
        ),
        call_ensures(response_frame, (&catalog, &m), Ok::<Frame, ClientError>(f)),
        call_ensures(decode_record, (&catalog, &f, &resp_schema, resp_fp), r),
        req.arg_fp as u64 == req_fp,
        req_schema.flat(),
        resp_schema.flat(),
        avro::avro_read(req_schema@, req.args@) is Some,
        m.result@.len() <= avro::MAX_BYTES,
        vstd::utf8::encode_utf8(m.message@).len() <= avro::MAX_BYTES,
    ensures
        forall|c: i64| #[trigger] proto::routes(f@, c) <==> c == req.correlation_id,
        exists|arg: Record, out: Record| #[trigger]
            call_ensures(handler, (arg,), out) && avro::avro_read(req_schema@, req.args@) == Some(
                arg@,
            ) && match avro::avro_written(resp_schema@, out@) {
                Some(b) => resp_schema.conforming(out@) ==> (r matches Ok(back) && back@ == out@),
                None => r matches Err(ClientError::Remote { status: s, words }) && s
                    == status::ERR_INTERNAL,
            },
{
    law_whole_result_is_answered(req, req_schema, resp_schema, req_fp, resp_fp, handler, m);
    assert(avro::sized(m.fields()));
    let b = choose|b: Result<Seq<u8>, ClientError>| #[trigger]
        responds(f.body@, resp_fp, b) && match b {
            Err(e) => r == Err::<Record, ClientError>(e),
            Ok(body) => match r {
                Ok(record) => resp_schema.flat() && avro::avro_read(resp_schema@, body) == Some(
                    record@,
                ),
                Err(ClientError::Avro(AvroError::NotFlat)) => !resp_schema.flat(),
                Err(ClientError::Avro(AvroError::Rejected(_))) => resp_schema.flat()
                    && avro::avro_read(resp_schema@, body) is None,
                Err(_) => false,
            },
        };
    lemma_response_read(m, f, resp_fp, b);
    let back = choose|back: RpcResponse| #[trigger]
        result_of(back, resp_fp, b) && back.fields() == m.fields();
    assert(back.fields().fields[1] == m.fields().fields[1]);
    assert(back.fields().fields[2] == m.fields().fields[2]);
    assert(back.fields().fields[3] == m.fields().fields[3]);
    assert(back.fields().fields[4] == m.fields().fields[4]);
    let (arg, out) = choose|arg: Record, out: Record| #[trigger]
        call_ensures(handler, (arg,), out) && avro::avro_read(req_schema@, req.args@) == Some(arg@)
            && match avro::avro_written(resp_schema@, out@) {
            Some(b) => resp_schema.flat() ==> {
                &&& m.status == status::OK
                &&& m.message@.len() == 0
                &&& m.result_fp as u64 == resp_fp
                &&& m.result@ == b
                &&& resp_schema.conforming(out@) ==> avro::avro_read(resp_schema@, m.result@)
                    == Some(out@)
            },
            None => m.status == status::ERR_INTERNAL && m.result@.len() == 0,
        };
    assert(call_ensures(handler, (arg,), out));
}

/// What a caller makes of an answer: the whole result of an answer with the schema that the
/// caller expects, a mismatch of one with another schema, and the service's words of a failure.
pub proof fn law_answer_is_told(
    m: RpcResponse,
    expected: Fingerprint,
    r: Result<Vec<u8>, ClientError>,
)
    requires
        call_ensures(check_response, (m, expected), r),
    ensures
        m.status == status::OK && m.result_fp as u64 == expected ==> (r matches Ok(b) && b@
            == m.result@),
        m.status == status::OK && m.result_fp as u64 != expected ==> (r matches Err(
            ClientError::ResponseSchema { expected: e, got },
        ) && e == expected && got == m.result_fp as u64),
        m.status != status::OK ==> (r matches Err(ClientError::Remote { status: s, words }) && s
            == m.status && words@ == m.message@),
{
}

/// A call with arguments that can be written carries them whole: the service reads the caller's
/// id and reply segment, the correlation id of the call, the fingerprint of the arguments' schema
/// and the arguments as they were written, from which arguments of the schema are read back.
pub proof fn law_call_carries_arguments<P>(
    inner: Inner<P>,
    catalog: Catalog,
    corr: i64,
    lr: LookupReply,
    req: Record,
    req_schema: Schema,
    arg_fp: Fingerprint,
    expected_resp_fp: Fingerprint,
    r: Result<Frame, ClientError>,
    bytes: Vec<u8>,
    came: &[u8],
    read: Result<RpcRequest, ClientError>,
)
    requires
        call_ensures(
            Inner::<P>::call,
            (&inner, &catalog, corr, &lr, req, &req_schema, arg_fp, expected_resp_fp),
            r,
        ),
        lr.req_fp as u64 == arg_fp,
        lr.resp_fp as u64 == expected_resp_fp,
        req_schema.flat(),
        req_schema.typing(req@),
        crate::outline::plainly_named(req_schema@),
        avro::avro_written(req_schema@, req@) matches Some(b) ==> b.len() <= avro::MAX_BYTES,
        vstd::utf8::encode_utf8(inner.transport.reply_segment@).len() <= avro::MAX_BYTES,
        r matches Ok(f) ==> f.body@.len() <= u32::MAX && call_ensures(Frame::encode, (&f,), bytes)
            && came@ == bytes@ && call_ensures(service_request, (&catalog, came), read),
    ensures
        r is Ok,
        read matches Ok(m) && m.correlation_id == corr && m.caller_id == inner.transport.client_id
            && m.reply_segment@ == inner.transport.reply_segment@ && m.arg_fp as u64 == arg_fp
            && avro::avro_written(req_schema@, req@) == Some(m.args@) && (req_schema.conforming(
            req@,
        ) ==> avro::avro_read(req_schema@, m.args@) == Some(req@)),
{
    let fields = RpcRequest::record(
        corr,
        inner.transport.client_id,
        inner.transport.reply_segment@,
        arg_fp as i64,
        channel::written(req_schema, req@),
    );
    if !channel::writable(req_schema, req@) {
        assert(r matches Err(e) && channel::unwritable(req_schema, req@, e));
    }
    assert(avro::conforms(fields, proto::kind_shape(Kind::RpcRequest)));
    let f = r->Ok_0;
    frame::law_decode_of_encode(f@, Seq::empty());
    let m = read->Ok_0;
    assert(m.fields().fields[0] == fields.fields[0]);
    assert(m.fields().fields[1] == fields.fields[1]);
    assert(m.fields().fields[2] == fields.fields[2]);
    assert(m.fields().fields[3] == fields.fields[3]);
    assert(m.fields().fields[4] == fields.fields[4]);
    proto::law_fingerprint_as_long(arg_fp, 0);
}

/// A call of a function with other schemas than the caller means is not made.
pub proof fn law_other_function_is_not_called<P>(
    inner: Inner<P>,
    catalog: Catalog,
    corr: i64,
    lr: LookupReply,
    req: Record,
    req_schema: Schema,
    arg_fp: Fingerprint,
    expected_resp_fp: Fingerprint,
    r: Result<Frame, ClientError>,
    checked: Result<(), ClientError>,
)
    requires
        call_ensures(
            Inner::<P>::call,
            (&inner, &catalog, corr, &lr, req, &req_schema, arg_fp, expected_resp_fp),
            r,
        ),
        call_ensures(check_call, (&lr, arg_fp, expected_resp_fp), checked),
    ensures
        checked is Ok <==> lr.req_fp as u64 == arg_fp && lr.resp_fp as u64 == expected_resp_fp,
        lr.req_fp as u64 != arg_fp ==> checked == Err::<(), ClientError>(
            ClientError::CallRequestSchema,
        ) && r == Err::<Frame, ClientError>(ClientError::CallRequestSchema),
        lr.req_fp as u64 == arg_fp && lr.resp_fp as u64 != expected_resp_fp ==> checked == Err::<
            (),
            ClientError,
        >(ClientError::CallResponseSchema) && r == Err::<Frame, ClientError>(
            ClientError::CallResponseSchema,
        ),
{
}

/// A call or an answer that a ring did not take is reported as such, and one that it took is not;
/// a call that was not placed waits no longer, and one that was placed still does.
pub proof fn law_full_rings_are_told<P>(
    inner: &mut Inner<P>,
    corr: i64,
    pushed: bool,
    r: Result<(), ClientError>,
    s: Result<(), ClientError>,
)
    requires
        call_ensures(Inner::<P>::call_placed, (inner, corr, pushed), r),
        call_ensures(responded, (pushed,), s),
    ensures
        r is Ok <==> pushed,
        s is Ok <==> pushed,
        !pushed ==> r == Err::<(), ClientError>(ClientError::RequestRingFull),
        !pushed ==> s == Err::<(), ClientError>(ClientError::ReplyRingFull),
        !pushed ==> !final(inner)@.pending.dom().contains(corr),
        forall|c: i64| #[trigger]
            old(inner)@.pending.dom().contains(c) && (pushed || c != corr)
                ==> final(inner)@.pending.dom().contains(c) && final(inner)@.pending[c]
                == old(inner)@.pending[c],
        final(inner)@.registry == old(inner)@.registry,
        final(inner)@.reg_seq == old(inner)@.reg_seq,
        final(inner)@.owed == old(inner)@.owed,
        final(inner)@.running == old(inner)@.running,
        final(inner)@.auto_reconnect == old(inner)@.auto_reconnect,
        final(inner)@.app_name == old(inner)@.app_name,
        final(inner)@.transport == old(inner)@.transport,
{
}

/// Waiting for a future: a value that is there is returned whatever the time; without one, the
/// wait ends exactly at the deadline, and before it the sleep is no longer than what is left.
pub proof fn law_wait_ends_at_deadline<T>(
    polled: Option<T>,
    now: u64,
    deadline: u64,
    notified: bool,
    r: BlockStep<T>,
)
    requires
        call_ensures(block_on::<T>, (polled, now, deadline, notified), r),
    ensures
        polled is Some ==> r == BlockStep::Return(polled),
        polled is None && deadline <= now ==> r == BlockStep::Return(None::<T>),
        polled is None && now < deadline ==> !(r is Return),
        polled is None && now < deadline && notified ==> r is PollAgain,
        r matches BlockStep::Park { nanos } ==> 0 < nanos && now + nanos == deadline && !notified,
{
}

/// An answer says what serving a request came to: the result with the fingerprint of its schema,
/// or, as an internal error, what was wrong with the arguments or with the result; and a request
/// whose arguments are not of the function's schema is answered before it is served.
pub proof fn law_answer_says_what_came(
    correlation_id: i64,
    resp_fp: Fingerprint,
    served: Served,
    r: RpcResponse,
    req: RpcRequest,
    req_fp: Fingerprint,
    refused: Option<RpcResponse>,
)
    requires
        call_ensures(respond, (correlation_id, resp_fp, served), r),
        call_ensures(check_args, (&req, req_fp), refused),
    ensures
        r.correlation_id == correlation_id,
        served matches Served::Result(body) ==> r.status == 0 && r.message@.len() == 0
            && r.result_fp as u64 == resp_fp && r.result@ == body@,
        served matches Served::BadArgs(words) ==> r.status == 4 && r.message@ == "bad args: "@
            + words@ && r.result_fp == 0 && r.result@.len() == 0,
        served matches Served::EncodeFailed(words) ==> r.status == 4 && r.message@
            == "encode failed: "@ + words@ && r.result_fp == 0 && r.result@.len() == 0,
        refused is None <==> req.arg_fp as u64 == req_fp,
        refused matches Some(m) ==> m.correlation_id == req.correlation_id && m.status == 3
            && m.message@ == "request schema mismatch"@ && m.result_fp == 0 && m.result@.len() == 0,
{
    reveal_strlit("");
    let want = response(correlation_id, resp_fp, served).fields;
    assert(r.fields().fields[0] == want[0]);
    assert(r.fields().fields[1] == want[1]);
    assert(r.fields().fields[2] == want[2]);
    assert(r.fields().fields[3] == want[3]);
    assert(r.fields().fields[4] == want[4]);
    proto::law_fingerprint_as_long(resp_fp, 0);
    if let Some(m) = refused {
        let told = mismatch_response(req.correlation_id).fields;
        assert(m.fields().fields[0] == told[0]);
        assert(m.fields().fields[1] == told[1]);
        assert(m.fields().fields[2] == told[2]);
        assert(m.fields().fields[3] == told[3]);
        assert(m.fields().fields[4] == told[4]);
    }
}

/// An answer in its frame is told as the answer itself would be: the result where it is of the
/// schema that is expected, and otherwise why there is none.
pub proof fn law_framed_answer_is_told(
    catalog: Catalog,
    m: RpcResponse,
    f: Frame,
    expected: Fingerprint,
    r: Result<Vec<u8>, ClientError>,
)
    requires
        proto::catalog_good(),
        call_ensures(response_frame, (&catalog, &m), Ok::<Frame, ClientError>(f)),
        call_ensures(decode_response, (&catalog, &f, expected), r),
        m.result@.len() <= 0x2000_0000,
        vstd::utf8::encode_utf8(m.message@).len() <= 0x2000_0000,
    ensures
        forall|c: i64| #[trigger] proto::routes(f@, c) <==> c == m.correlation_id,
        m.status == 0 && m.result_fp as u64 == expected ==> (r matches Ok(b) && b@ == m.result@),
        m.status == 0 && m.result_fp as u64 != expected ==> (r matches Err(
            ClientError::ResponseSchema { expected: e, got },
        ) && e == expected && got == m.result_fp as u64),
        m.status != 0 ==> (r matches Err(ClientError::Remote { status: s, words }) && s == m.status
            && words@ == m.message@),
{
    assert(avro::sized(m.fields()));
    lemma_response_read(m, f, expected, bytes_of(r));
    let back = choose|back: RpcResponse| #[trigger]
        result_of(back, expected, bytes_of(r)) && back.fields() == m.fields();
    assert(back.fields().fields[1] == m.fields().fields[1]);
    assert(back.fields().fields[2] == m.fields().fields[2]);
    assert(back.fields().fields[3] == m.fields().fields[3]);
    assert(back.fields().fields[4] == m.fields().fields[4]);
}

/// A request in its frame is read by the service as it was made: who calls and where the answer
/// goes, the correlation id, the fingerprint and the whole of the arguments.
pub proof fn law_framed_request_is_read<P>(
    inner: Inner<P>,
    catalog: Catalog,
    corr: i64,
    arg_fp: Fingerprint,
    args: Vec<u8>,
    r: Result<Frame, ClientError>,
    bytes: Vec<u8>,
    came: &[u8],
    read: Result<RpcRequest, ClientError>,
)
    requires
        call_ensures(Inner::<P>::call_request, (&inner, &catalog, corr, arg_fp, args), r),
        args@.len() <= 0x2000_0000,
        vstd::utf8::encode_utf8(inner.transport.reply_segment@).len() <= 0x2000_0000,
        r matches Ok(f) ==> f.body@.len() <= u32::MAX && call_ensures(Frame::encode, (&f,), bytes)
            && came@ == bytes@ && call_ensures(service_request, (&catalog, came), read),
    ensures
        r is Ok,
        read matches Ok(m) && m.correlation_id == corr && m.caller_id == inner.transport.client_id
            && m.reply_segment@ == inner.transport.reply_segment@ && m.arg_fp as u64 == arg_fp
            && m.args@ == args@,
{
    let fields = RpcRequest::record(
        corr,
        inner.transport.client_id,
        inner.transport.reply_segment@,
        arg_fp as i64,
        args@,
    );
    assert(avro::conforms(fields, proto::kind_shape(Kind::RpcRequest)));
    let f = r->Ok_0;
    frame::law_decode_of_encode(f@, Seq::empty());
    assert(f@.wire() + Seq::<u8>::empty() =~= f@.wire());
    if let Ok(m) = read {
        assert(m.fields().fields[0] == fields.fields[0] || m.fields() != fields);
        assert(m.fields().fields[1] == fields.fields[1] || m.fields() != fields);
        assert(m.fields().fields[2] == fields.fields[2] || m.fields() != fields);
        assert(m.fields().fields[3] == fields.fields[3] || m.fields() != fields);
        assert(m.fields().fields[4] == fields.fields[4] || m.fields() != fields);
    }
    proto::law_fingerprint_as_long(arg_fp, 0);
}

} // verus!
