use server_fns::codec::encode_request;
use server_fns::dispatch::{add_header, header_value, CustomClient};
use server_fns::format::WireFormat;
use server_fns::progress_text::{latest_progress, parse_decimal, progress_line};

#[test]
fn custom_client_adds_its_header() {
    let fmt = WireFormat::json();
    let mut req = encode_request(&fmt, &"x".to_string(), "/api/fn_with_custom_client", "*/*").ok().unwrap();
    assert_eq!(header_value(&req, "X-Custom-Header"), None);
    CustomClient::prepare(&mut req);
    assert_eq!(header_value(&req, "X-Custom-Header"), Some("foobar".to_string()));
    assert_eq!(req.path, "/api/fn_with_custom_client");
}

#[test]
fn first_header_of_a_name_wins() {
    let fmt = WireFormat::json();
    let mut req = encode_request(&fmt, &"x".to_string(), "/p", "*/*").ok().unwrap();
    add_header(&mut req, "A", "1");
    add_header(&mut req, "B", "2");
    add_header(&mut req, "A", "3");
    assert_eq!(req.headers.len(), 3);
    assert_eq!(header_value(&req, "A"), Some("1".to_string()));
    assert_eq!(header_value(&req, "B"), Some("2".to_string()));
    assert_eq!(header_value(&req, "C"), None);
}

#[test]
fn progress_line_is_digits_and_newline() {
    assert_eq!(progress_line(0), b"0\n".to_vec());
    assert_eq!(progress_line(1048), b"1048\n".to_vec());
    assert_eq!(progress_line(usize::MAX), format!("{}\n", usize::MAX).into_bytes());
}

#[test]
fn latest_progress_reads_last_line() {
    assert_eq!(latest_progress(b"10\n250\n"), Some(250));
    assert_eq!(latest_progress(b"7"), Some(7));
    assert_eq!(latest_progress(b"5\n\n\n"), Some(5));
    let mut chunk = progress_line(100);
    chunk.extend(progress_line(4096));
    assert_eq!(latest_progress(&chunk), Some(4096));
}

#[test]
fn latest_progress_refuses_bad_text() {
    assert_eq!(latest_progress(b""), None);
    assert_eq!(latest_progress(b"\n\n"), None);
    assert_eq!(latest_progress(b"12\nabc\n"), None);
}

#[test]
fn parse_decimal_bounds() {
    assert_eq!(parse_decimal(b"0"), Some(0));
    assert_eq!(parse_decimal(b"00042"), Some(42));
    assert_eq!(parse_decimal(b""), None);
    assert_eq!(parse_decimal(b"-1"), None);
    assert_eq!(parse_decimal(b"99999999999999999999999"), None);
    assert_eq!(parse_decimal(format!("{}", usize::MAX).as_bytes()), Some(usize::MAX));
}

use server_fns::format::{Method, Toml};
use server_fns::registry::{Operation, Registry};

#[test]
fn operation_path_joins_prefix_and_endpoint() {
    let op = Operation::new("/api2", "custom_path", WireFormat::url(), WireFormat::json());
    assert_eq!(op.path, "/api2/custom_path");
    assert_eq!(op.method(), Method::Get);
    let req = encode_request(&op.input, &"abc".to_string(), "/api2/custom_path", "*/*").ok().unwrap();
    assert!(op.accepts(&req));
    let other = encode_request(&WireFormat::json(), &"abc".to_string(), "/api2/custom_path", "*/*").ok().unwrap();
    assert!(!op.accepts(&other));
}

#[test]
fn registry_refuses_a_taken_path() {
    let mut reg = Registry::new();
    assert!(reg.register(Operation::new("/api", "why_not", Toml::format(), Toml::format())).is_ok());
    assert!(reg.register(Operation::new("/api", "rkyv_example", WireFormat::rkyv(), WireFormat::rkyv())).is_ok());
    let back = reg.register(Operation::new("/api", "why_not", WireFormat::json(), WireFormat::json()));
    assert_eq!(back.err().unwrap().path, "/api/why_not");
    let op = reg.lookup("/api/why_not").unwrap();
    assert_eq!(op.input.content_type, "application/toml");
    assert!(reg.lookup("/api/missing").is_none());
}

use server_fns::dispatch::{advance, start_call, CallEvent, CallPhase};
use server_fns::error::ErrorKind;

#[test]
fn call_phases_in_order() {
    let mut p = start_call(true);
    assert_eq!(p, CallPhase::Built);
    p = advance(p, CallEvent::ResponseStarted);
    assert_eq!(p, CallPhase::Built);
    p = advance(p, CallEvent::SendFinished);
    assert_eq!(p, CallPhase::Sent);
    p = advance(p, CallEvent::ResponseStarted);
    assert_eq!(p, CallPhase::AwaitingResponse);
    p = advance(p, CallEvent::ResponseRead(true));
    assert_eq!(p, CallPhase::Decoded);
    assert_eq!(advance(p, CallEvent::TransportFailed), CallPhase::Decoded);
}

#[test]
fn call_failures() {
    assert_eq!(start_call(false), CallPhase::Failed(ErrorKind::Serialization));
    assert_eq!(advance(CallPhase::Sent, CallEvent::TransportFailed), CallPhase::Failed(ErrorKind::Transport));
    assert_eq!(
        advance(CallPhase::AwaitingResponse, CallEvent::ResponseRead(false)),
        CallPhase::Failed(ErrorKind::Deserialization)
    );
    let failed = CallPhase::Failed(ErrorKind::Transport);
    assert_eq!(advance(failed, CallEvent::SendFinished), failed);
}
