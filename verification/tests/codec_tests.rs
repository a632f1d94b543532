use httpbridge::msg::{Header, RequestMessage, ResponseMessage};

fn sample_request() -> RequestMessage {
    RequestMessage {
        request_id: 42,
        method: "POST".to_string(),
        uri: "/orders?id=7".to_string(),
        protocol: "HTTP/1.1".to_string(),
        headers: vec![
            Header {
                name: "accept".to_string(),
                values: vec!["text/html".to_string(), "application/json".to_string()],
            },
            Header { name: "x-empty".to_string(), values: vec![] },
            Header { name: "accept".to_string(), values: vec!["*/*".to_string()] },
        ],
        body: Some(vec![0, 1, 2, 254, 255]),
        remote_addr: "127.0.0.1:55001".to_string(),
        local_addr: "127.0.0.1:8080".to_string(),
    }
}

fn sample_response() -> ResponseMessage {
    ResponseMessage {
        request_id: 42,
        status: 201,
        headers: vec![Header {
            name: "content-type".to_string(),
            values: vec!["text/plain".to_string()],
        }],
        body: Some(b"created".to_vec()),
    }
}

#[test]
fn round_trip_request() {
    let m = sample_request();
    let bytes = m.to_bytes().unwrap();
    let back = RequestMessage::from_bytes(&bytes).unwrap();
    assert_eq!(m, back);
}

#[test]
fn round_trip_request_non_ascii() {
    let mut m = sample_request();
    m.uri = "/griß?emoji=\u{1F600}".to_string();
    m.headers.push(Header {
        name: "x-note".to_string(),
        values: vec!["naïve café — ≠".to_string()],
    });
    let bytes = m.to_bytes().unwrap();
    let back = RequestMessage::from_bytes(&bytes).unwrap();
    assert_eq!(m, back);
}

#[test]
fn round_trip_request_minimal() {
    let m = RequestMessage::new(1);
    assert_eq!(m.request_id, 1);
    assert_eq!(m.method, "");
    assert_eq!(m.protocol, "HTTP/1.1");
    assert!(m.body.is_none());
    let bytes = m.to_bytes().unwrap();
    let back = RequestMessage::from_bytes(&bytes).unwrap();
    assert_eq!(m, back);
}

#[test]
fn round_trip_response() {
    let m = sample_response();
    let bytes = m.to_bytes().unwrap();
    let back = ResponseMessage::from_bytes(&bytes).unwrap();
    assert_eq!(m, back);
}

#[test]
fn round_trip_response_no_body() {
    let m = ResponseMessage { request_id: 9, status: 204, headers: vec![], body: None };
    let bytes = m.to_bytes().unwrap();
    let back = ResponseMessage::from_bytes(&bytes).unwrap();
    assert_eq!(m, back);
}

#[test]
fn decode_rejects_truncated() {
    let bytes = sample_request().to_bytes().unwrap();
    for cut in [0, 1, 5, bytes.len() - 1] {
        assert!(RequestMessage::from_bytes(&bytes[..cut]).is_err());
    }
}

#[test]
fn decode_rejects_unknown_leading_tag() {
    let mut bytes = sample_response().to_bytes().unwrap();
    bytes[0] = 0x99;
    assert!(ResponseMessage::from_bytes(&bytes).is_err());
}

#[test]
fn decode_rejects_trailing_garbage() {
    let mut bytes = sample_response().to_bytes().unwrap();
    bytes.push(0);
    assert!(ResponseMessage::from_bytes(&bytes).is_err());
}

#[test]
fn decode_rejects_invalid_utf8() {
    let m = RequestMessage {
        method: "GET".to_string(),
        ..RequestMessage::new(3)
    };
    let mut bytes = m.to_bytes().unwrap();
    // Layout: message tag (1) + tagged u64 (9) + string tag (1) + length (4),
    // so byte 15 is the first byte of the method text.
    assert_eq!(bytes[15], b'G');
    bytes[15] = 0xFF;
    assert!(RequestMessage::from_bytes(&bytes).is_err());
}

#[test]
fn decode_wrong_message_kind() {
    let bytes = sample_request().to_bytes().unwrap();
    assert!(ResponseMessage::from_bytes(&bytes).is_err());
}
