use crate::codec::{TransportRequest, TransportResponse};
use crate::error::{CallError, ErrorKind};
use crate::format::{Method, Toml};
use crate::payload::{string_bytes, string_from_bytes};
use vstd::prelude::*;
use vstd::utf8::encode_utf8;

verus! {

/// A value that travels as TOML text. The text itself is written and parsed by a TOML
/// serializer outside this crate; the functions here frame that text and map each failure
/// to the error kind of its leg of the call.
pub struct TomlEncoded<T>(pub T);

/// The detail of a body that is not UTF-8 text.
pub open spec fn not_text_detail() -> Seq<char> {
    "the body is not UTF-8 text"@
}

impl<T> TomlEncoded<T> {
    /// Client side: the request that carries the TOML text of the input. A serializer
    /// failure becomes `Serialization`, and nothing is sent.
    pub fn into_req(encoded: Result<String, String>, path: &str, accepts: &str) -> (r: Result<TransportRequest, CallError>)
        ensures
            match encoded {
                Ok(text) => r matches Ok(req) && req.method == Method::Post && req.path@ == path@
                    && req.content_type@ == "application/toml"@ && req.accepts@ == accepts@
                    && req.query@.len() == 0 && req.body@ == encode_utf8(text@),
                Err(d) => r matches Err(e) && e@ == (ErrorKind::Serialization, d@),
            },
    {
        match encoded {
            Ok(text) => {
                let fmt = Toml::format();
                Ok(
                    TransportRequest {
                        method: fmt.method,
                        path: path.to_owned(),
                        content_type: fmt.content_type,
                        accepts: accepts.to_owned(),
                        headers: Vec::new(),
                        query: Vec::new(),
                        body: string_bytes(&text),
                    },
                )
            },
            Err(d) => Err(CallError::new(ErrorKind::Serialization, d)),
        }
    }

    /// Server side: the TOML text of a request. A body that is not UTF-8 is bad input.
    pub fn request_text(req: &TransportRequest) -> (r: Result<String, CallError>)
        ensures
            match r {
                Ok(text) => encode_utf8(text@) == req.body@,
                Err(e) => e@ == (ErrorKind::Args, not_text_detail()) && forall|c: Seq<char>|
                    encode_utf8(c) != req.body@,
            },
    {
        match string_from_bytes(&req.body) {
            Some(text) => Ok(text),
            None => Err(CallError::new(ErrorKind::Args, "the body is not UTF-8 text".to_owned())),
        }
    }

    /// Server side: the input, once its text was parsed. A parser failure is bad input:
    /// `Args`, not `Deserialization`.
    pub fn from_req(parsed: Result<T, String>) -> (r: Result<TomlEncoded<T>, CallError>)
        ensures
            match parsed {
                Ok(v) => r == Ok::<TomlEncoded<T>, CallError>(TomlEncoded(v)),
                Err(d) => r matches Err(e) && e@ == (ErrorKind::Args, d@),
            },
    {
        match parsed {
            Ok(v) => Ok(TomlEncoded(v)),
            Err(d) => Err(CallError::new(ErrorKind::Args, d)),
        }
    }

    /// Server side: the response that carries the TOML text of the output. A serializer
    /// failure becomes `Serialization`.
    pub fn into_res(encoded: Result<String, String>) -> (r: Result<TransportResponse, CallError>)
        ensures
            match encoded {
                Ok(text) => r matches Ok(res) && res.ok && res.content_type@ == "application/toml"@
                    && res.body@ == encode_utf8(text@),
                Err(d) => r matches Err(e) && e@ == (ErrorKind::Serialization, d@),
            },
    {
        match encoded {
            Ok(text) => Ok(
                TransportResponse { content_type: Toml::format().content_type, ok: true, body: string_bytes(&text) },
            ),
            Err(d) => Err(CallError::new(ErrorKind::Serialization, d)),
        }
    }

    /// Client side: the TOML text of a response. A body that is not UTF-8 fails with
    /// `Deserialization`.
    pub fn response_text(res: &TransportResponse) -> (r: Result<String, CallError>)
        ensures
            match r {
                Ok(text) => encode_utf8(text@) == res.body@,
                Err(e) => e@ == (ErrorKind::Deserialization, not_text_detail()) && forall|c: Seq<char>|
                    encode_utf8(c) != res.body@,
            },
    {
        match string_from_bytes(&res.body) {
            Some(text) => Ok(text),
            None => Err(CallError::new(ErrorKind::Deserialization, "the body is not UTF-8 text".to_owned())),
        }
    }

    /// Client side: the output, once its text was parsed. A parser failure becomes
    /// `Deserialization`.
    pub fn from_res(parsed: Result<T, String>) -> (r: Result<TomlEncoded<T>, CallError>)
        ensures
            match parsed {
                Ok(v) => r == Ok::<TomlEncoded<T>, CallError>(TomlEncoded(v)),
                Err(d) => r matches Err(e) && e@ == (ErrorKind::Deserialization, d@),
            },
    {
        match parsed {
            Ok(v) => Ok(TomlEncoded(v)),
            Err(d) => Err(CallError::new(ErrorKind::Deserialization, d)),
        }
    }
}

} // verus!
