use crate::codec::{
    decode_response, encode_error_response, encode_request, encode_response, response_outcome,
    Header, TransportRequest, TransportResponse,
};
use crate::error::{CallError, ErrorKind, FromServerFnError};
use crate::format::WireFormat;
use crate::frame::fields_fit;
use crate::payload::{lemma_round_trip, wire_of, Payload};
use vstd::prelude::*;

verus! {

/// Where a call stands.
#[derive(Clone, Copy, Debug, PartialEq, Eq, Structural)]
pub enum CallPhase {
    /// The request is built and not sent yet.
    Built,
    /// The request has been sent in full.
    Sent,
    /// The response is arriving.
    AwaitingResponse,
    /// The response was decoded: the call succeeded.
    Decoded,
    /// The call failed, for the reason given.
    Failed(ErrorKind),
}

/// What happens to a call.
#[derive(Clone, Copy, Debug, PartialEq, Eq, Structural)]
pub enum CallEvent {
    /// The request finished sending.
    SendFinished,
    /// The transport failed.
    TransportFailed,
    /// The response began to arrive.
    ResponseStarted,
    /// The response was read; `true` when it decoded.
    ResponseRead(bool),
}

/// The phase a call starts in, given whether its request could be built. A call whose
/// request could not be built fails at once and sends nothing.
pub open spec fn start_phase(built: bool) -> CallPhase {
    if built {
        CallPhase::Built
    } else {
        CallPhase::Failed(ErrorKind::Serialization)
    }
}

/// The phase after an event. An event that does not fit the phase leaves it as it is; a
/// finished call stays finished.
pub open spec fn next_phase(p: CallPhase, e: CallEvent) -> CallPhase {
    match (p, e) {
        (CallPhase::Built, CallEvent::SendFinished) => CallPhase::Sent,
        (CallPhase::Built, CallEvent::TransportFailed) => CallPhase::Failed(ErrorKind::Transport),
        (CallPhase::Sent, CallEvent::TransportFailed) => CallPhase::Failed(ErrorKind::Transport),
        (CallPhase::Sent, CallEvent::ResponseStarted) => CallPhase::AwaitingResponse,
        (CallPhase::AwaitingResponse, CallEvent::TransportFailed) => CallPhase::Failed(ErrorKind::Transport),
        (CallPhase::AwaitingResponse, CallEvent::ResponseRead(ok)) => if ok {
            CallPhase::Decoded
        } else {
            CallPhase::Failed(ErrorKind::Deserialization)
        },
        _ => p,
    }
}

/// The phase a call starts in.
pub fn start_call(built: bool) -> (r: CallPhase)
    ensures
        r == start_phase(built),
{
    if built {
        CallPhase::Built
    } else {
        CallPhase::Failed(ErrorKind::Serialization)
    }
}

/// The phase after an event.
pub fn advance(p: CallPhase, e: CallEvent) -> (r: CallPhase)
    ensures
        r == next_phase(p, e),
{
    match (p, e) {
        (CallPhase::Built, CallEvent::SendFinished) => CallPhase::Sent,
        (CallPhase::Built, CallEvent::TransportFailed) => CallPhase::Failed(ErrorKind::Transport),
        (CallPhase::Sent, CallEvent::TransportFailed) => CallPhase::Failed(ErrorKind::Transport),
        (CallPhase::Sent, CallEvent::ResponseStarted) => CallPhase::AwaitingResponse,
        (CallPhase::AwaitingResponse, CallEvent::TransportFailed) => CallPhase::Failed(ErrorKind::Transport),
        (CallPhase::AwaitingResponse, CallEvent::ResponseRead(ok)) => if ok {
            CallPhase::Decoded
        } else {
            CallPhase::Failed(ErrorKind::Deserialization)
        },
        _ => p,
    }
}

/// The phase after a sequence of events.
pub open spec fn run_phases(p: CallPhase, es: Seq<CallEvent>) -> CallPhase
    decreases es.len(),
{
    if es.len() == 0 {
        p
    } else {
        next_phase(run_phases(p, es.drop_last()), es.last())
    }
}

/// A call is decoded only once its request was sent in full and its response began to
/// arrive, in that order; and a finished call never changes again.
pub proof fn lemma_decode_follows_send(es: Seq<CallEvent>)
    requires
        run_phases(start_phase(true), es) == CallPhase::Decoded,
    ensures
        exists|i: int, j: int, k: int|
            0 <= i < j < k < es.len() && es[i] == CallEvent::SendFinished && es[j]
                == CallEvent::ResponseStarted && es[k] == CallEvent::ResponseRead(true),
{
    lemma_phase_history(es);
}

/// Which events a call has seen, by the phase it is in after them.
proof fn lemma_phase_history(es: Seq<CallEvent>)
    ensures
        ({
            let p = run_phases(start_phase(true), es);
            &&& (p == CallPhase::Sent || p == CallPhase::AwaitingResponse || p == CallPhase::Decoded) ==> exists|i: int|
                0 <= i < es.len() && #[trigger] es[i] == CallEvent::SendFinished
            &&& (p == CallPhase::AwaitingResponse || p == CallPhase::Decoded) ==> exists|i: int, j: int|
                0 <= i < j < es.len() && es[i] == CallEvent::SendFinished && es[j] == CallEvent::ResponseStarted
            &&& p == CallPhase::Decoded ==> exists|i: int, j: int, k: int|
                0 <= i < j < k < es.len() && es[i] == CallEvent::SendFinished && es[j]
                    == CallEvent::ResponseStarted && es[k] == CallEvent::ResponseRead(true)
        }),
    decreases es.len(),
{
    if es.len() > 0 {
        let pre = es.drop_last();
        lemma_phase_history(pre);
        let q = run_phases(start_phase(true), pre);
        let p = run_phases(start_phase(true), es);
        let n = es.len() - 1;
        if p == CallPhase::Sent || p == CallPhase::AwaitingResponse || p == CallPhase::Decoded {
            if q == CallPhase::Sent || q == CallPhase::AwaitingResponse || q == CallPhase::Decoded {
                let i = choose|i: int| 0 <= i < pre.len() && #[trigger] pre[i] == CallEvent::SendFinished;
                assert(es[i] == CallEvent::SendFinished);
            } else {
                assert(es[n] == CallEvent::SendFinished);
            }
        }
        if p == CallPhase::AwaitingResponse || p == CallPhase::Decoded {
            if q == CallPhase::AwaitingResponse || q == CallPhase::Decoded {
                let (i, j) = choose|i: int, j: int|
                    0 <= i < j < pre.len() && pre[i] == CallEvent::SendFinished && pre[j] == CallEvent::ResponseStarted;
                assert(es[i] == CallEvent::SendFinished && es[j] == CallEvent::ResponseStarted);
            } else {
                assert(q == CallPhase::Sent);
                let i = choose|i: int| 0 <= i < pre.len() && #[trigger] pre[i] == CallEvent::SendFinished;
                assert(es[i] == CallEvent::SendFinished && es[n] == CallEvent::ResponseStarted);
            }
        }
        if p == CallPhase::Decoded {
            if q == CallPhase::Decoded {
                let (i, j, k) = choose|i: int, j: int, k: int|
                    0 <= i < j < k < pre.len() && pre[i] == CallEvent::SendFinished && pre[j]
                        == CallEvent::ResponseStarted && pre[k] == CallEvent::ResponseRead(true);
                assert(es[i] == CallEvent::SendFinished && es[j] == CallEvent::ResponseStarted && es[k] == CallEvent::ResponseRead(true));
            } else {
                assert(q == CallPhase::AwaitingResponse);
                let (i, j) = choose|i: int, j: int|
                    0 <= i < j < pre.len() && pre[i] == CallEvent::SendFinished && pre[j] == CallEvent::ResponseStarted;
                assert(es[i] == CallEvent::SendFinished && es[j] == CallEvent::ResponseStarted && es[n] == CallEvent::ResponseRead(true));
            }
        }
    }
}

/// A finished call, decoded or failed, stays as it is whatever happens next.
pub proof fn lemma_finished_call_stays(p: CallPhase, e: CallEvent)
    requires
        p == CallPhase::Decoded || p is Failed,
    ensures
        next_phase(p, e) == p,
{
}

/// What the client ends with, given what the transport handed back: the response's
/// success flag and body, or the transport's failure text.
pub open spec fn call_outcome<O: Payload, E: Payload + FromServerFnError>(
    sent: Result<(bool, Seq<u8>), Seq<char>>,
) -> Result<O::V, E::V> {
    match sent {
        Ok((ok, body)) => response_outcome::<O, E>(ok, body),
        Err(d) => Err(E::from_server_fn_error_spec((ErrorKind::Transport, d))),
    }
}

/// The view of what the transport handed back.
pub open spec fn sent_view(sent: &Result<TransportResponse, String>) -> Result<(bool, Seq<u8>), Seq<char>> {
    match sent {
        Ok(res) => Ok((res.ok, res.body@)),
        Err(d) => Err(d@),
    }
}

/// The view of a result of values with views.
pub open spec fn result_view<O: View, E: View>(r: Result<O, E>) -> Result<O::V, E::V> {
    match r {
        Ok(x) => Ok(x@),
        Err(e) => Err(e@),
    }
}

/// Client side, first stage of a call: builds the request. Nothing is sent when this fails.
pub fn begin_call<I: Payload, E: FromServerFnError>(fmt: &WireFormat, path: &str, accepts: &str, input: &I) -> (r: Result<TransportRequest, E>)
    ensures
        r matches Ok(req) && req.method == fmt.method && req.path@ == path@ && req.content_type@
            == fmt.content_type@ && crate::codec::request_payload(&req) == wire_of::<I>(input@),
{
    match encode_request(fmt, input, path, accepts) {
        Ok(req) => Ok(req),
        Err(e) => Err(E::from_server_fn_error(e)),
    }
}

/// The views of a request's headers, as name and value.
pub open spec fn header_views(hs: Seq<Header>) -> Seq<(Seq<char>, Seq<char>)> {
    hs.map_values(|h: Header| (h.name@, h.value@))
}

/// Adds a header to a request before it is sent; the rest of the request is unchanged.
pub fn add_header(req: &mut TransportRequest, name: &str, value: &str)
    ensures
        header_views(final(req).headers@) == header_views(old(req).headers@).push((name@, value@)),
        final(req).method == old(req).method,
        final(req).path@ == old(req).path@,
        final(req).content_type@ == old(req).content_type@,
        final(req).accepts@ == old(req).accepts@,
        final(req).query@ == old(req).query@,
        final(req).body@ == old(req).body@,
{
    let ghost before = req.headers@;
    req.headers.push(Header { name: name.to_owned(), value: value.to_owned() });
    proof {
        assert(header_views(req.headers@) =~= header_views(before).push((name@, value@)));
    }
}

/// A client that marks each request with a header of its own before sending it.
pub struct CustomClient;

/// The header that the custom client adds.
pub open spec fn custom_header() -> (Seq<char>, Seq<char>) {
    ("X-Custom-Header"@, "foobar"@)
}

impl CustomClient {
    /// Prepares a request for sending: adds the client's header.
    pub fn prepare(req: &mut TransportRequest)
        ensures
            header_views(final(req).headers@) == header_views(old(req).headers@).push(custom_header()),
            final(req).method == old(req).method,
            final(req).path@ == old(req).path@,
            final(req).body@ == old(req).body@,
            final(req).query@ == old(req).query@,
    {
        add_header(req, "X-Custom-Header", "foobar");
    }
}

/// Server side: the value of the first header of a request with the given name.
pub fn header_value(req: &TransportRequest, name: &str) -> (r: Option<String>)
    ensures
        match r {
            Some(v) => exists|i: int|
                0 <= i < req.headers.len() && header_views(req.headers@)[i] == (name@, v@) && forall|j: int|
                    0 <= j < i ==> #[trigger] header_views(req.headers@)[j].0 != name@,
            None => forall|i: int| 0 <= i < req.headers.len() ==> #[trigger] header_views(req.headers@)[i].0 != name@,
        },
{
    let target = name.to_owned();
    let mut i: usize = 0;
    while i < req.headers.len()
        invariant
            0 <= i <= req.headers.len(),
            target@ == name@,
            forall|j: int| 0 <= j < i ==> #[trigger] header_views(req.headers@)[j].0 != name@,
        decreases req.headers.len() - i,
    {
        if req.headers[i].name == target {
            let v = req.headers[i].value.clone();
            proof {
                assert(header_views(req.headers@)[i as int] == (name@, v@));
            }
            return Some(v);
        }
        i = i + 1;
    }
    None
}

/// Client side, last stage of a call: turns what the transport handed back into the typed
/// result. A transport failure becomes `Transport`; a response is decoded.
pub fn finish_call<O: Payload, E: Payload + FromServerFnError>(sent: Result<TransportResponse, String>) -> (r: Result<O, E>)
    ensures
        result_view(r) == call_outcome::<O, E>(sent_view(&sent)),
{
    match sent {
        Ok(res) => decode_response::<O, E>(&res),
        Err(d) => Err(E::from_server_fn_error(CallError::new(ErrorKind::Transport, d))),
    }
}

/// Server side: the response for what the handler returned, success value or error value.
pub fn respond<O: Payload, E: Payload>(fmt: &WireFormat, outcome: &Result<O, E>) -> (r: TransportResponse)
    ensures
        r.content_type@ == fmt.content_type@,
        match outcome {
            Ok(v) => r.ok && r.body@ == wire_of::<O>(v@) && fields_fit(O::fields_of(v@)),
            Err(e) => !r.ok && r.body@ == wire_of::<E>(e@) && fields_fit(E::fields_of(e@)),
        },
{
    match outcome {
        Ok(v) => match encode_response(fmt, v) {
            Ok(res) => res,
            Err(e) => encode_error_response(fmt, &e),
        },
        Err(e) => encode_error_response(fmt, e),
    }
}

/// Server side: the response for a call that failed before or around its handler, such as
/// input that did not parse. The failure is carried in the application's error type.
pub fn respond_failure<E: Payload + FromServerFnError>(fmt: &WireFormat, failure: CallError) -> (r: TransportResponse)
    ensures
        !r.ok,
        r.content_type@ == fmt.content_type@,
        r.body@ == wire_of::<E>(E::from_server_fn_error_spec(failure@)),
        fields_fit(E::fields_of(E::from_server_fn_error_spec(failure@))),
{
    let e = E::from_server_fn_error(failure);
    encode_error_response(fmt, &e)
}

/// Whatever the handler returned reaches the client unchanged: its success value, or its
/// error value with the same variant.
pub proof fn lemma_call_fidelity<O: Payload, E: Payload + FromServerFnError>(outcome: Result<O::V, E::V>)
    requires
        match outcome {
            Ok(v) => fields_fit(O::fields_of(v)),
            Err(e) => fields_fit(E::fields_of(e)),
        },
    ensures
        call_outcome::<O, E>(
            match outcome {
                Ok(v) => Ok((true, wire_of::<O>(v))),
                Err(e) => Ok((false, wire_of::<E>(e))),
            },
        ) == outcome,
{
    match outcome {
        Ok(v) => lemma_round_trip::<O>(v),
        Err(e) => lemma_round_trip::<E>(e),
    }
}

} // verus!
