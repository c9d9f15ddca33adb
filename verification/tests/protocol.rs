//! Tests for the wire codec and the IPC client's decisions.

use stelliberty::client::{ClientError, ConnectOutcome, IpcClient, IpcHttpResponse};
use stelliberty::codec::DecodeError;
use stelliberty::endpoint::{BuildVariant, TransportKind};

fn bytes(s: &str) -> Vec<u8> {
    s.as_bytes().to_vec()
}

#[test]
fn request_without_body_has_no_content_length() {
    let req = IpcClient::build_http_request("GET", "/version", None);
    let text = String::from_utf8(req).unwrap();
    assert_eq!(
        text,
        "GET /version HTTP/1.1\r\nHost: localhost\r\nConnection: close\r\n\r\n"
    );
    assert!(!text.contains("Content-Length"));
    assert!(text.ends_with("Connection: close\r\n\r\n"));
}

#[test]
fn request_with_body_carries_exact_length() {
    let req = IpcClient::build_http_request("PUT", "/configs", Some("{\"mixed-port\":7890}"));
    let text = String::from_utf8(req).unwrap();
    assert_eq!(
        text,
        "PUT /configs HTTP/1.1\r\nHost: localhost\r\nConnection: close\r\n\
         Content-Type: application/json\r\nContent-Length: 19\r\n\r\n{\"mixed-port\":7890}"
    );
}

#[test]
fn content_length_counts_bytes_not_characters() {
    let req = IpcClient::build_http_request("PUT", "/configs", Some("héllo"));
    let text = String::from_utf8(req).unwrap();
    // Two-byte character: five characters, six bytes.
    assert!(text.contains("Content-Length: 6\r\n"));
    assert!(text.ends_with("\r\n\r\nhéllo"));
}

#[test]
fn status_line_tolerates_repeated_whitespace() {
    let data = bytes("HTTP/1.1   200   OK\r\n\r\n");
    let resp = IpcClient::read_http_response(&data).unwrap();
    assert_eq!(resp.status_code, 200);
}

#[test]
fn identity_length_body_round_trips() {
    let data = bytes("HTTP/1.1 200 OK\r\nContent-Length: 5\r\n\r\nhello");
    let resp = IpcClient::read_http_response(&data).unwrap();
    assert_eq!(resp.status_code, 200);
    assert_eq!(resp.body, "hello");
}

#[test]
fn identity_length_ignores_trailing_bytes() {
    let data = bytes("HTTP/1.1 200 OK\r\nContent-Length: 2\r\n\r\nhello");
    let resp = IpcClient::read_http_response(&data).unwrap();
    assert_eq!(resp.body, "he");
}

#[test]
fn chunked_body_round_trips() {
    let data = bytes(
        "HTTP/1.1 200 OK\r\nTransfer-Encoding: chunked\r\n\r\n4\r\nWiki\r\n5\r\npedia\r\n0\r\n\r\n",
    );
    let resp = IpcClient::read_http_response(&data).unwrap();
    assert_eq!(resp.status_code, 200);
    assert_eq!(resp.body, "Wikipedia");
}

#[test]
fn rechunking_the_same_payload_decodes_the_same() {
    let a = bytes(
        "HTTP/1.1 200 OK\r\nTransfer-Encoding: chunked\r\n\r\n9\r\nWikipedia\r\n0\r\n\r\n",
    );
    let b = bytes(
        "HTTP/1.1 200 OK\r\nTransfer-Encoding: chunked\r\n\r\n1\r\nW\r\n3\r\niki\r\n5\r\npedia\r\n0\r\n\r\n",
    );
    let ra = IpcClient::read_http_response(&a).unwrap();
    let rb = IpcClient::read_http_response(&b).unwrap();
    assert_eq!(ra.body, rb.body);
    assert_eq!(ra.body, "Wikipedia");
}

#[test]
fn chunked_takes_precedence_over_content_length() {
    let data = bytes(
        "HTTP/1.1 200 OK\r\nContent-Length: 4\r\nTransfer-Encoding: chunked\r\n\r\n3\r\nabc\r\n0\r\n\r\n",
    );
    let resp = IpcClient::read_http_response(&data).unwrap();
    assert_eq!(resp.body, "abc");
}

#[test]
fn content_length_key_is_case_insensitive() {
    let data = bytes("HTTP/1.1 200 OK\r\ncOnTeNt-LeNgTh: 3\r\n\r\nabcdef");
    let resp = IpcClient::read_http_response(&data).unwrap();
    assert_eq!(resp.body, "abc");
}

#[test]
fn first_valid_content_length_wins() {
    let data = bytes("HTTP/1.1 200 OK\r\nContent-Length: zzz\r\nContent-Length: 3\r\n\r\nabcdef");
    let resp = IpcClient::read_http_response(&data).unwrap();
    assert_eq!(resp.body, "abc");
}

#[test]
fn close_before_header_terminator_is_a_framing_error() {
    let data = bytes("HTTP/1.1 200 OK\r\nContent-Len");
    let r = IpcClient::read_http_response(&data);
    assert!(matches!(r, Err(DecodeError::UnexpectedClose)));
}

#[test]
fn empty_stream_is_a_framing_error() {
    let data: Vec<u8> = Vec::new();
    let r = IpcClient::read_http_response(&data);
    assert!(matches!(r, Err(DecodeError::UnexpectedClose)));
}

#[test]
fn no_length_and_no_chunked_reads_to_close() {
    let data = bytes("HTTP/1.1 204 No Content\r\n\r\n");
    let resp = IpcClient::read_http_response(&data).unwrap();
    assert_eq!(resp.status_code, 204);
    assert_eq!(resp.body, "");
}

#[test]
fn read_until_close_takes_everything() {
    let data = bytes("HTTP/1.1 200 OK\r\n\r\nwhatever follows");
    let resp = IpcClient::read_http_response(&data).unwrap();
    assert_eq!(resp.body, "whatever follows");
}

#[test]
fn immediate_terminator_is_an_empty_response_error() {
    let data = bytes("\r\n");
    let r = IpcClient::read_http_response(&data);
    assert!(matches!(r, Err(DecodeError::EmptyResponse)));
}

#[test]
fn one_token_status_line_is_malformed() {
    let data = bytes("HTTP/1.1\r\n\r\n");
    let r = IpcClient::read_http_response(&data);
    assert!(matches!(r, Err(DecodeError::MalformedStatusLine)));
}

#[test]
fn non_numeric_status_code_is_rejected() {
    let data = bytes("HTTP/1.1 abc OK\r\n\r\n");
    let r = IpcClient::read_http_response(&data);
    assert!(matches!(r, Err(DecodeError::BadStatusCode)));
}

#[test]
fn oversized_status_code_is_rejected() {
    let data = bytes("HTTP/1.1 99999 OK\r\n\r\n");
    let r = IpcClient::read_http_response(&data);
    assert!(matches!(r, Err(DecodeError::BadStatusCode)));
}

#[test]
fn short_identity_body_is_an_error() {
    let data = bytes("HTTP/1.1 200 OK\r\nContent-Length: 10\r\n\r\nabc");
    let r = IpcClient::read_http_response(&data);
    assert!(matches!(r, Err(DecodeError::ShortBody)));
}

#[test]
fn bad_chunk_size_is_an_error() {
    let data = bytes("HTTP/1.1 200 OK\r\nTransfer-Encoding: chunked\r\n\r\nxyz\r\nabc\r\n0\r\n\r\n");
    let r = IpcClient::read_http_response(&data);
    assert!(matches!(r, Err(DecodeError::BadChunkSize)));
}

#[test]
fn truncated_chunk_is_an_error() {
    let data = bytes("HTTP/1.1 200 OK\r\nTransfer-Encoding: chunked\r\n\r\n9\r\nabc");
    let r = IpcClient::read_http_response(&data);
    assert!(matches!(r, Err(DecodeError::ShortChunk)));
}

#[test]
fn missing_chunk_terminator_is_an_error() {
    let data = bytes("HTTP/1.1 200 OK\r\nTransfer-Encoding: chunked\r\n\r\n3\r\nabc\r\n");
    let r = IpcClient::read_http_response(&data);
    assert!(matches!(r, Err(DecodeError::ShortChunk)));
}

#[test]
fn blank_lines_between_chunks_are_skipped() {
    let data = bytes(
        "HTTP/1.1 200 OK\r\nTransfer-Encoding: chunked\r\n\r\n\r\n3\r\nabc\r\n\r\n2\r\nde\r\n0\r\n\r\n",
    );
    let resp = IpcClient::read_http_response(&data).unwrap();
    assert_eq!(resp.body, "abcde");
}

#[test]
fn chunk_size_accepts_hex_digits() {
    let data = bytes(
        "HTTP/1.1 200 OK\r\nTransfer-Encoding: chunked\r\n\r\nA\r\n0123456789\r\n0\r\n\r\n",
    );
    let resp = IpcClient::read_http_response(&data).unwrap();
    assert_eq!(resp.body, "0123456789");
}

#[test]
fn invalid_utf8_body_is_a_decode_error() {
    let mut data = bytes("HTTP/1.1 200 OK\r\nContent-Length: 1\r\n\r\n");
    data.push(0xFF);
    let r = IpcClient::read_http_response(&data);
    assert!(matches!(r, Err(DecodeError::BodyNotUtf8)));
}

#[test]
fn success_statuses_yield_the_body() {
    let resp = IpcHttpResponse { status_code: 204, body: String::from("x") };
    assert_eq!(IpcClient::classify_response(resp), Ok(String::from("x")));
}

#[test]
fn non_success_status_yields_its_code() {
    let resp = IpcHttpResponse { status_code: 404, body: String::new() };
    assert_eq!(IpcClient::classify_response(resp), Err(ClientError::Http(404)));
}

#[test]
fn interpret_exchange_combines_decode_and_status() {
    let ok = bytes("HTTP/1.1 200 OK\r\nContent-Length: 2\r\n\r\nok");
    assert_eq!(IpcClient::interpret_exchange(&ok), Ok(String::from("ok")));
    let not_found = bytes("HTTP/1.1 404 Not Found\r\nContent-Length: 0\r\n\r\n");
    assert_eq!(
        IpcClient::interpret_exchange(&not_found),
        Err(ClientError::Http(404))
    );
    let garbled = bytes("garbled");
    assert_eq!(
        IpcClient::interpret_exchange(&garbled),
        Err(ClientError::Decode(DecodeError::UnexpectedClose))
    );
}

#[test]
fn busy_nineteen_times_then_success_connects_after_full_backoff() {
    let mut outcomes = vec![ConnectOutcome::Busy; 19];
    outcomes.push(ConnectOutcome::Connected);
    let (r, delay) = stelliberty::client::pipe_connect_schedule(&outcomes);
    assert_eq!(r, Ok(19));
    assert_eq!(delay, 2850);
}

#[test]
fn busy_twenty_times_exhausts_the_budget() {
    let outcomes = vec![ConnectOutcome::Busy; 20];
    let (r, delay) = stelliberty::client::pipe_connect_schedule(&outcomes);
    assert_eq!(r, Err(ClientError::BusyExhausted));
    assert_eq!(delay, 2850);
}

#[test]
fn refused_connect_aborts_without_retry() {
    let mut outcomes = vec![ConnectOutcome::Refused];
    outcomes.extend(vec![ConnectOutcome::Busy; 19]);
    let (r, delay) = stelliberty::client::pipe_connect_schedule(&outcomes);
    assert_eq!(r, Err(ClientError::ConnectFailed));
    assert_eq!(delay, 0);
}

#[test]
fn immediate_connect_sleeps_nothing() {
    let mut outcomes = vec![ConnectOutcome::Connected];
    outcomes.extend(vec![ConnectOutcome::Busy; 19]);
    let (r, delay) = stelliberty::client::pipe_connect_schedule(&outcomes);
    assert_eq!(r, Ok(0));
    assert_eq!(delay, 0);
}

#[test]
fn socket_transport_never_retries() {
    assert_eq!(
        stelliberty::client::socket_connect_decision(ConnectOutcome::Connected),
        Ok(())
    );
    assert_eq!(
        stelliberty::client::socket_connect_decision(ConnectOutcome::Busy),
        Err(ClientError::ConnectFailed)
    );
    assert_eq!(
        stelliberty::client::socket_connect_decision(ConnectOutcome::Refused),
        Err(ClientError::ConnectFailed)
    );
}

#[test]
fn endpoint_addresses_are_stable_and_distinct() {
    let pipe_dev = IpcClient::default_ipc_path(TransportKind::Pipe, BuildVariant::Development);
    let pipe_prod = IpcClient::default_ipc_path(TransportKind::Pipe, BuildVariant::Production);
    let sock_dev = IpcClient::default_ipc_path(TransportKind::Socket, BuildVariant::Development);
    let sock_prod = IpcClient::default_ipc_path(TransportKind::Socket, BuildVariant::Production);
    assert_eq!(pipe_dev, "\\\\.\\pipe\\stelliberty_dev");
    assert_eq!(pipe_prod, "\\\\.\\pipe\\stelliberty");
    assert_eq!(sock_dev, "/tmp/stelliberty_dev.sock");
    assert_eq!(sock_prod, "/tmp/stelliberty.sock");
    assert_ne!(pipe_dev, pipe_prod);
    assert_ne!(sock_dev, sock_prod);
}
