use server_fns::codec::{
    decode_request, decode_response, encode_error_response, encode_request, encode_response,
    TransportResponse,
};
use server_fns::dispatch::{begin_call, finish_call, respond, respond_failure};
use server_fns::error::{CallError, ErrorKind, InvalidArgument, MyErrors};
use server_fns::format::{Framing, Method, Toml, WireFormat};
use server_fns::frame::{decode_fields, encode_fields};
use server_fns::handlers::{PostcardData, WhyNotResult};
use server_fns::payload::{decode_payload, encode_payload};
use server_fns::stream::{decode_stream, encode_stream};
use server_fns::text_codec::TomlEncoded;

#[test]
fn frame_bytes_are_length_then_data() {
    let out = encode_fields(&vec![vec![1u8, 2], vec![]]);
    assert_eq!(out, vec![2, 0, 0, 0, 0, 0, 0, 0, 1, 2, 0, 0, 0, 0, 0, 0, 0, 0]);
    assert_eq!(decode_fields(&out), Some(vec![vec![1u8, 2], vec![]]));
}

#[test]
fn frame_refuses_truncated_bytes() {
    assert_eq!(decode_fields(&[2, 0, 0, 0, 0, 0, 0, 0, 1]), None);
    assert_eq!(decode_fields(&[2, 0, 0]), None);
    assert_eq!(decode_fields(&[]), Some(vec![]));
}

#[test]
fn string_round_trips() {
    let s = "héllo, wörld".to_string();
    let bytes = encode_payload(&s);
    assert_eq!(decode_payload::<String>(&bytes), Some(s));
}

#[test]
fn invalid_utf8_does_not_decode_as_string() {
    let bytes = encode_fields(&vec![vec![0xff, 0xfe]]);
    assert_eq!(decode_payload::<String>(&bytes), None);
}

#[test]
fn encoding_twice_gives_identical_bytes() {
    let s = "same input".to_string();
    assert_eq!(encode_payload(&s), encode_payload(&s));
    let n: usize = 42;
    assert_eq!(encode_payload(&n), encode_payload(&n));
}

#[test]
fn response_round_trip_for_each_format() {
    let formats = vec![WireFormat::json(), Toml::format(), WireFormat::rkyv(), WireFormat::postcard()];
    for fmt in formats.iter() {
        let res = encode_response(fmt, &"HELLO".to_string()).ok().unwrap();
        assert!(res.ok);
        let back: Result<String, CallError> = decode_response(&res);
        assert_eq!(back.ok().unwrap(), "HELLO");
        let res = encode_response(fmt, &12345usize).ok().unwrap();
        let back: Result<usize, CallError> = decode_response(&res);
        assert_eq!(back.ok(), Some(12345));
    }
}

#[test]
fn record_round_trips() {
    let fmt = WireFormat::postcard();
    let data = PostcardData {
        name: "Alice".to_string(),
        age: 30,
        hobbies: vec!["reading".to_string(), "hiking".to_string()],
    };
    let res = encode_response(&fmt, &data).ok().unwrap();
    let back: PostcardData = decode_response::<PostcardData, CallError>(&res).ok().unwrap();
    assert_eq!(back.name, "Alice");
    assert_eq!(back.age, 30);
    assert_eq!(back.hobbies, vec!["reading", "hiking"]);

    let w = WhyNotResult { original: "foo".to_string(), modified: "foobar".to_string() };
    let res = encode_response(&Toml::format(), &w).ok().unwrap();
    let back: WhyNotResult = decode_response::<WhyNotResult, CallError>(&res).ok().unwrap();
    assert_eq!(back.original, "foo");
    assert_eq!(back.modified, "foobar");
}

#[test]
fn get_request_carries_input_in_query() {
    let fmt = WireFormat::url();
    assert!(fmt.input_in_url());
    let req = encode_request(&fmt, &"abc".to_string(), "/api2/custom_path", "*/*").ok().unwrap();
    assert_eq!(req.method, Method::Get);
    assert!(req.body.is_empty());
    assert_eq!(req.path, "/api2/custom_path");
    assert_eq!(req.content_type, "application/x-www-form-urlencoded");
    let back: String = decode_request(&req).ok().unwrap();
    assert_eq!(back, "abc");
}

#[test]
fn post_request_carries_input_in_body() {
    let fmt = WireFormat::json();
    assert!(!fmt.input_in_url());
    let req = encode_request(&fmt, &"abc".to_string(), "/api/f", "application/json").ok().unwrap();
    assert_eq!(req.method, Method::Post);
    assert!(req.query.is_empty());
    assert_eq!(req.body, encode_payload(&"abc".to_string()));
}

#[test]
fn malformed_post_input_is_args() {
    let fmt = WireFormat::json();
    let mut req = encode_request(&fmt, &"abc".to_string(), "/api/f", "*/*").ok().unwrap();
    req.body = vec![1, 2, 3];
    let r: Result<String, CallError> = decode_request(&req);
    assert_eq!(r.err().unwrap().kind, ErrorKind::Args);
}

#[test]
fn malformed_response_is_deserialization() {
    let res = TransportResponse { content_type: "application/json".to_string(), ok: true, body: vec![9] };
    let r: Result<String, CallError> = decode_response(&res);
    assert_eq!(r.err().unwrap().kind, ErrorKind::Deserialization);
}

#[test]
fn undecodable_error_becomes_unknown_error() {
    let res = TransportResponse { content_type: "application/json".to_string(), ok: false, body: vec![9] };
    let r: Result<String, MyErrors> = decode_response(&res);
    match r {
        Err(MyErrors::ServerFnError(e)) => {
            assert_eq!(e.kind, ErrorKind::Deserialization);
            assert_eq!(e.detail, "unknown error");
        }
        _ => panic!("expected an unknown error"),
    }
}

#[test]
fn custom_error_keeps_its_variant() {
    let fmt = WireFormat::json();
    let outcome: Result<String, MyErrors> = Err(MyErrors::InvalidArgument(InvalidArgument::TooShort));
    let res = respond(&fmt, &outcome);
    assert!(!res.ok);
    let r: Result<String, MyErrors> = finish_call(Ok(res));
    assert!(matches!(r, Err(MyErrors::InvalidArgument(InvalidArgument::TooShort))));
}

#[test]
fn other_errors_keep_their_text() {
    let fmt = WireFormat::json();
    let e = MyErrors::Other("boom".to_string());
    let res = encode_error_response(&fmt, &e);
    match decode_response::<String, MyErrors>(&res) {
        Err(MyErrors::Other(s)) => assert_eq!(s, "boom"),
        _ => panic!("expected the same error"),
    }
    let res = respond_failure::<MyErrors>(&fmt, CallError::new(ErrorKind::Args, "bad".to_string()));
    match decode_response::<String, MyErrors>(&res) {
        Err(MyErrors::ServerFnError(c)) => {
            assert_eq!(c.kind, ErrorKind::Args);
            assert_eq!(c.detail, "bad");
        }
        _ => panic!("expected the same error"),
    }
}

#[test]
fn full_call_returns_handler_value() {
    let fmt = WireFormat::json();
    let req = begin_call::<String, CallError>(&fmt, "/api/shout", "*/*", &"hello".to_string()).ok().unwrap();
    let input: String = decode_request(&req).ok().unwrap();
    let outcome: Result<String, CallError> = Ok(input.to_uppercase());
    let res = respond(&fmt, &outcome);
    let r: Result<String, CallError> = finish_call(Ok(res));
    assert_eq!(r.ok().unwrap(), "HELLO");
}

#[test]
fn transport_failure_is_transport() {
    let r: Result<String, CallError> = finish_call(Err("connection refused".to_string()));
    let e = r.err().unwrap();
    assert_eq!(e.kind, ErrorKind::Transport);
    assert_eq!(e.detail, "connection refused");
}

#[test]
fn stream_yields_every_chunk_in_order() {
    let items: Vec<usize> = vec![10, 20, 30];
    let chunks = encode_stream(&items);
    assert_eq!(chunks.len(), 3);
    let (got, failure) = decode_stream::<usize, CallError>(&chunks);
    assert_eq!(got, vec![10, 20, 30]);
    assert!(failure.is_none());
}

#[test]
fn stream_failure_keeps_prior_items() {
    let items: Vec<usize> = vec![1, 2];
    let mut chunks = encode_stream(&items);
    chunks.push(vec![0xff]);
    chunks.push(encode_payload(&3usize));
    let (got, failure) = decode_stream::<usize, CallError>(&chunks);
    assert_eq!(got, vec![1, 2]);
    assert_eq!(failure.unwrap().kind, ErrorKind::Deserialization);
}

#[test]
fn empty_stream_yields_nothing() {
    let (got, failure) = decode_stream::<String, CallError>(&vec![]);
    assert!(got.is_empty());
    assert!(failure.is_none());
}

#[test]
fn formats_answer_their_questions() {
    let t = Toml::format();
    assert_eq!(t.content_type, "application/toml");
    assert_eq!(t.framing, Framing::Text);
    assert!(t.is_text());
    assert!(!WireFormat::rkyv().is_text());
    assert!(WireFormat::streaming_text().is_streaming());
    assert_eq!(WireFormat::multipart().content_type, "multipart/form-data");
    assert_eq!(WireFormat::postcard().method, Method::Post);
}

#[test]
fn toml_serializer_failure_is_serialization() {
    let r = TomlEncoded::<String>::into_req(Err("unsupported type".to_string()), "/api/why_not", "*/*");
    let e = r.err().unwrap();
    assert_eq!(e.kind, ErrorKind::Serialization);
    assert_eq!(e.detail, "unsupported type");
    let r = TomlEncoded::<String>::into_res(Err("bad".to_string()));
    assert_eq!(r.err().unwrap().kind, ErrorKind::Serialization);
}

#[test]
fn toml_text_travels_in_body() {
    let text = "original = \"foo\"\n".to_string();
    let req = TomlEncoded::<String>::into_req(Ok(text.clone()), "/api/why_not", "*/*").ok().unwrap();
    assert_eq!(req.content_type, "application/toml");
    assert_eq!(req.method, Method::Post);
    assert_eq!(TomlEncoded::<String>::request_text(&req).ok().unwrap(), text);
    let res = TomlEncoded::<String>::into_res(Ok(text.clone())).ok().unwrap();
    assert_eq!(TomlEncoded::<String>::response_text(&res).ok().unwrap(), text);
}

#[test]
fn toml_parse_failures_map_by_leg() {
    let r = TomlEncoded::<u32>::from_req(Err("expected a table".to_string()));
    assert_eq!(r.err().unwrap().kind, ErrorKind::Args);
    let r = TomlEncoded::<u32>::from_res(Err("expected a table".to_string()));
    assert_eq!(r.err().unwrap().kind, ErrorKind::Deserialization);
    assert_eq!(TomlEncoded::<u32>::from_res(Ok(7)).ok().unwrap().0, 7);
}

#[test]
fn non_utf8_toml_body_is_refused() {
    let res = TransportResponse { content_type: "application/toml".to_string(), ok: true, body: vec![0xc3] };
    assert_eq!(TomlEncoded::<String>::response_text(&res).err().unwrap().kind, ErrorKind::Deserialization);
}
