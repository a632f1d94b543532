use httpbridge::adapter::{add_header_value, build_request, error_reply, parse_ipc_addr, IdCounter};
use httpbridge::msg::Header;

#[test]
fn id_counter_starts_at_one_and_increases() {
    let mut c = IdCounter::new();
    assert_eq!(c.next_id(), 1);
    assert_eq!(c.next_id(), 2);
    assert_eq!(c.next_id(), 3);
}

#[test]
fn build_request_keeps_fields() {
    let m = build_request(
        17,
        "GET".to_string(),
        "/x".to_string(),
        "HTTP/1.1".to_string(),
        vec![Header { name: "host".to_string(), values: vec!["a".to_string()] }],
        b"hello".to_vec(),
        "1.2.3.4:5".to_string(),
        "6.7.8.9:10".to_string(),
    );
    assert_eq!(m.request_id, 17);
    assert_eq!(m.method, "GET");
    assert_eq!(m.uri, "/x");
    assert_eq!(m.headers.len(), 1);
    assert_eq!(m.body, Some(b"hello".to_vec()));
    assert_eq!(m.remote_addr, "1.2.3.4:5");
    assert_eq!(m.local_addr, "6.7.8.9:10");
}

#[test]
fn build_request_empty_body_becomes_none() {
    let m = build_request(
        1,
        "GET".to_string(),
        "/".to_string(),
        "HTTP/1.1".to_string(),
        vec![],
        Vec::new(),
        String::new(),
        String::new(),
    );
    assert!(m.body.is_none());
}

#[test]
fn repeated_header_names_share_one_entry_in_order() {
    let mut headers = Vec::new();
    add_header_value(&mut headers, "accept".to_string(), "text/html".to_string());
    add_header_value(&mut headers, "host".to_string(), "example".to_string());
    add_header_value(&mut headers, "accept".to_string(), "*/*".to_string());
    assert_eq!(headers.len(), 2);
    assert_eq!(headers[0].name, "accept");
    assert_eq!(headers[0].values, vec!["text/html".to_string(), "*/*".to_string()]);
    assert_eq!(headers[1].name, "host");
    assert_eq!(headers[1].values, vec!["example".to_string()]);
}

#[test]
fn error_reply_is_fixed_500() {
    let (status, body) = error_reply();
    assert_eq!(status, 500);
    assert_eq!(body, b"Internal Server Error".to_vec());
}

#[test]
fn parse_ipc_addr_strips_scheme() {
    assert_eq!(parse_ipc_addr("tcp://127.0.0.1:12345").as_deref(), Some("127.0.0.1:12345"));
    assert_eq!(parse_ipc_addr("tcp://").as_deref(), Some(""));
}

#[test]
fn parse_ipc_addr_rejects_other_shapes() {
    assert!(parse_ipc_addr("udp://127.0.0.1:1").is_none());
    assert!(parse_ipc_addr("tcp:/127.0.0.1:1").is_none());
    assert!(parse_ipc_addr("127.0.0.1:1").is_none());
    assert!(parse_ipc_addr("").is_none());
    assert!(parse_ipc_addr("tcp:").is_none());
}
