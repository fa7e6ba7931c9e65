use crate::error::{CallError, ErrorKind, FromServerFnError};
use crate::format::{Method, WireFormat};
use crate::payload::{decode_payload, decoded, encode_payload, lemma_round_trip, wire_of, Payload};
use crate::frame::fields_fit;
use vstd::prelude::*;

verus! {

// Payloads are written in the crate's framed encoding (see `frame` and `payload`) whatever
// the format's label; the format fixes the method, where the payload travels, and the content
// type that the transport announces. A format whose text is written by an outside serializer
// goes through `text_codec` instead.

/// One request header.
pub struct Header {
    pub name: String,
    pub value: String,
}

/// An outbound request of a call: where it goes, how it is labelled, and its payload.
pub struct TransportRequest {
    pub method: Method,
    pub path: String,
    pub content_type: String,
    pub accepts: String,
    pub headers: Vec<Header>,
    /// The payload of a call whose method is GET.
    pub query: Vec<u8>,
    /// The payload of a call whose method is POST.
    pub body: Vec<u8>,
}

/// An outbound response: its label, whether it carries a success value or an error value,
/// and the encoded value.
pub struct TransportResponse {
    pub content_type: String,
    pub ok: bool,
    pub body: Vec<u8>,
}

/// The payload that a request carries, in its query or in its body as its method says.
pub open spec fn request_payload(req: &TransportRequest) -> Seq<u8> {
    match req.method {
        Method::Get => req.query@,
        Method::Post => req.body@,
    }
}

/// The detail text of a request whose payload cannot be read.
pub open spec fn bad_args_detail() -> Seq<char> {
    "could not parse the arguments"@
}

/// The detail text of a success response whose payload cannot be read.
pub open spec fn bad_response_detail() -> Seq<char> {
    "could not decode the response"@
}

/// The detail text of an error response whose payload cannot be read.
pub open spec fn unknown_error_detail() -> Seq<char> {
    "unknown error"@
}

/// What the server reads from a request payload.
pub open spec fn request_outcome<T: Payload>(payload: Seq<u8>) -> Result<T::V, (ErrorKind, Seq<char>)> {
    match decoded::<T>(payload) {
        Some(v) => Ok(v),
        None => Err((ErrorKind::Args, bad_args_detail())),
    }
}

/// What the client reads from a response.
pub open spec fn response_outcome<T: Payload, E: Payload + FromServerFnError>(
    ok: bool,
    body: Seq<u8>,
) -> Result<T::V, E::V> {
    if ok {
        match decoded::<T>(body) {
            Some(v) => Ok(v),
            None => Err(E::from_server_fn_error_spec((ErrorKind::Deserialization, bad_response_detail()))),
        }
    } else {
        match decoded::<E>(body) {
            Some(e) => Err(e),
            None => Err(E::from_server_fn_error_spec((ErrorKind::Deserialization, unknown_error_detail()))),
        }
    }
}

/// Client side: builds the request of a call. The payload goes in the query for a GET
/// format and in the body for a POST format.
pub fn encode_request<T: Payload>(fmt: &WireFormat, value: &T, path: &str, accepts: &str) -> (r: Result<TransportRequest, CallError>)
    ensures
        r matches Ok(req) && req.method == fmt.method && req.path@ == path@ && req.content_type@
            == fmt.content_type@ && req.accepts@ == accepts@ && req.headers.len() == 0 && request_payload(&req) == wire_of::<
            T,
        >(value@) && (fmt.method == Method::Get ==> req.body@.len() == 0) && (fmt.method
            == Method::Post ==> req.query@.len() == 0),
        fields_fit(T::fields_of(value@)),
{
    let data = encode_payload(value);
    let (query, body) = match fmt.method {
        Method::Get => (data, Vec::new()),
        Method::Post => (Vec::new(), data),
    };
    Ok(
        TransportRequest {
            method: fmt.method,
            path: path.to_owned(),
            content_type: fmt.content_type.clone(),
            accepts: accepts.to_owned(),
            headers: Vec::new(),
            query,
            body,
        },
    )
}

/// Server side: reads the input of a call. Input that does not parse fails with `Args`.
pub fn decode_request<T: Payload>(req: &TransportRequest) -> (r: Result<T, CallError>)
    ensures
        match r {
            Ok(x) => request_outcome::<T>(request_payload(req)) == Ok::<T::V, (ErrorKind, Seq<char>)>(x@),
            Err(e) => request_outcome::<T>(request_payload(req)) == Err::<T::V, (ErrorKind, Seq<char>)>(e@),
        },
{
    let data = match req.method {
        Method::Get => req.query.as_slice(),
        Method::Post => req.body.as_slice(),
    };
    match decode_payload::<T>(data) {
        Some(x) => Ok(x),
        None => Err(CallError::new(ErrorKind::Args, "could not parse the arguments".to_owned())),
    }
}

/// Server side: the response that carries a success value.
pub fn encode_response<T: Payload>(fmt: &WireFormat, value: &T) -> (r: Result<TransportResponse, CallError>)
    ensures
        r matches Ok(res) && res.ok && res.content_type@ == fmt.content_type@ && res.body@ == wire_of::<T>(value@),
        fields_fit(T::fields_of(value@)),
{
    Ok(TransportResponse { content_type: fmt.content_type.clone(), ok: true, body: encode_payload(value) })
}

/// Server side: the response that carries an error value, so that the client sees the
/// same variant that the handler returned.
pub fn encode_error_response<E: Payload>(fmt: &WireFormat, err: &E) -> (r: TransportResponse)
    ensures
        !r.ok,
        r.content_type@ == fmt.content_type@,
        r.body@ == wire_of::<E>(err@),
        fields_fit(E::fields_of(err@)),
{
    TransportResponse { content_type: fmt.content_type.clone(), ok: false, body: encode_payload(err) }
}

/// Client side: reads the result of a call from its response. A success payload that does
/// not decode fails with `Deserialization`; an error payload that does not decode becomes
/// an unknown error.
pub fn decode_response<T: Payload, E: Payload + FromServerFnError>(res: &TransportResponse) -> (r: Result<T, E>)
    ensures
        match r {
            Ok(x) => response_outcome::<T, E>(res.ok, res.body@) == Ok::<T::V, E::V>(x@),
            Err(e) => response_outcome::<T, E>(res.ok, res.body@) == Err::<T::V, E::V>(e@),
        },
{
    if res.ok {
        match decode_payload::<T>(res.body.as_slice()) {
            Some(x) => Ok(x),
            None => Err(E::from_server_fn_error(CallError::new(ErrorKind::Deserialization, "could not decode the response".to_owned()))),
        }
    } else {
        match decode_payload::<E>(res.body.as_slice()) {
            Some(e) => Err(e),
            None => Err(E::from_server_fn_error(CallError::new(ErrorKind::Deserialization, "unknown error".to_owned()))),
        }
    }
}

/// A success value sent in a response is the value the client reads.
pub proof fn lemma_response_round_trip<T: Payload, E: Payload + FromServerFnError>(v: T::V)
    requires
        fields_fit(T::fields_of(v)),
    ensures
        response_outcome::<T, E>(true, wire_of::<T>(v)) == Ok::<T::V, E::V>(v),
{
    lemma_round_trip::<T>(v);
}

/// An input sent in a request is the value the server reads.
pub proof fn lemma_request_round_trip<T: Payload>(v: T::V)
    requires
        fields_fit(T::fields_of(v)),
    ensures
        request_outcome::<T>(wire_of::<T>(v)) == Ok::<T::V, (ErrorKind, Seq<char>)>(v),
{
    lemma_round_trip::<T>(v);
}

/// An error value sent in an error response is the error the client reads, variant and all.
pub proof fn lemma_error_fidelity<T: Payload, E: Payload + FromServerFnError>(e: E::V)
    requires
        fields_fit(E::fields_of(e)),
    ensures
        response_outcome::<T, E>(false, wire_of::<E>(e)) == Err::<T::V, E::V>(e),
{
    lemma_round_trip::<E>(e);
}

/// Input that no value encodes to is refused as bad arguments, never as a decoding failure.
pub proof fn lemma_malformed_input_is_args<T: Payload>(payload: Seq<u8>)
    requires
        forall|v: T::V| fields_fit(T::fields_of(v)) ==> #[trigger] wire_of::<T>(v) != payload,
    ensures
        request_outcome::<T>(payload) == Err::<T::V, (ErrorKind, Seq<char>)>((ErrorKind::Args, bad_args_detail())),
{
}

} // verus!
