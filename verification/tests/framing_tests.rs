use httpbridge::framing::{
    classify_frame_header, frame_payload, handle_frame, FrameDecision, FrameOutcome, MAX_FRAME_LEN,
};
use httpbridge::msg::ResponseMessage;
use httpbridge::table::CorrelationTable;
use tokio::sync::oneshot::error::TryRecvError;

fn resp(id: u64, status: u16) -> ResponseMessage {
    ResponseMessage { request_id: id, status, headers: vec![], body: None }
}

fn frame_of(m: &ResponseMessage) -> Vec<u8> {
    frame_payload(&m.to_bytes().unwrap()).unwrap()
}

#[test]
fn header_zero_and_oversized_are_rejected() {
    assert_eq!(classify_frame_header(&0u32.to_le_bytes()), FrameDecision::Reject);
    assert_eq!(
        classify_frame_header(&(MAX_FRAME_LEN + 1).to_le_bytes()),
        FrameDecision::Reject
    );
    assert_eq!(
        classify_frame_header(&MAX_FRAME_LEN.to_le_bytes()),
        FrameDecision::Accept(MAX_FRAME_LEN)
    );
    assert_eq!(classify_frame_header(&1000u32.to_le_bytes()), FrameDecision::Accept(1000));
}

#[test]
fn frame_payload_prefixes_length() {
    let framed = frame_payload(&[9, 8, 7]).unwrap();
    assert_eq!(framed, vec![3, 0, 0, 0, 9, 8, 7]);
}

/// Drives the reader-loop steps over an in-memory byte stream, exactly as
/// the background reader does: read 4 header bytes, classify, read the
/// advertised number of body bytes, hand the body to the table. Returns the
/// outcomes of the frames whose body could be read in full.
fn run_reader(table: &mut CorrelationTable, stream: &[u8]) -> Vec<FrameOutcome> {
    let mut outcomes = Vec::new();
    let mut pos = 0;
    loop {
        if pos + 4 > stream.len() {
            break; // end of stream while reading a header: clean stop
        }
        let hdr: [u8; 4] = stream[pos..pos + 4].try_into().unwrap();
        pos += 4;
        match classify_frame_header(&hdr) {
            FrameDecision::Reject => continue,
            FrameDecision::Accept(len) => {
                if pos + len as usize > stream.len() {
                    break; // advertised more bytes than the stream holds
                }
                let body = &stream[pos..pos + len as usize];
                pos += len as usize;
                outcomes.push(handle_frame(table, body));
            }
        }
    }
    outcomes
}

#[test]
fn truncated_body_completes_no_waiter() {
    let mut t = CorrelationTable::new();
    let mut rx = t.register(1);
    // The peer advertises 1000 payload bytes but delivers only 10, then
    // closes: the reader must stop without resolving anyone.
    let mut stream = 1000u32.to_le_bytes().to_vec();
    stream.extend_from_slice(&[0; 10]);
    let outcomes = run_reader(&mut t, &stream);
    assert!(outcomes.is_empty());
    assert!(matches!(rx.try_recv(), Err(TryRecvError::Empty)));
}

#[test]
fn rejected_frame_does_not_stop_the_reader() {
    let mut t = CorrelationTable::new();
    let rx = t.register(6);
    // A zero-length frame, then a well-formed one: the good frame must
    // still be processed.
    let mut stream = 0u32.to_le_bytes().to_vec();
    stream.extend_from_slice(&frame_of(&resp(6, 200)));
    let outcomes = run_reader(&mut t, &stream);
    assert_eq!(outcomes, vec![FrameOutcome::Completed(6)]);
    assert_eq!(rx.blocking_recv().unwrap(), resp(6, 200));
}

#[test]
fn malformed_payload_is_dropped_loop_continues() {
    let mut t = CorrelationTable::new();
    let rx = t.register(3);
    let mut stream = frame_payload(b"not a message").unwrap();
    stream.extend_from_slice(&frame_of(&resp(3, 418)));
    let outcomes = run_reader(&mut t, &stream);
    assert_eq!(
        outcomes,
        vec![FrameOutcome::Malformed, FrameOutcome::Completed(3)]
    );
    assert_eq!(rx.blocking_recv().unwrap(), resp(3, 418));
}

#[test]
fn stray_completion_is_reported_not_fatal() {
    let mut t = CorrelationTable::new();
    let stream = frame_of(&resp(99, 200));
    let outcomes = run_reader(&mut t, &stream);
    assert_eq!(outcomes, vec![FrameOutcome::Stray(99)]);
}

#[test]
fn reverse_order_completion_matches_identities() {
    let mut t = CorrelationTable::new();
    let rx1 = t.register(1);
    let rx2 = t.register(2);
    let rx3 = t.register(3);
    // The peer answers 3, then 1, then 2: each waiter must still receive
    // its own response.
    let mut stream = Vec::new();
    stream.extend_from_slice(&frame_of(&resp(3, 203)));
    stream.extend_from_slice(&frame_of(&resp(1, 201)));
    stream.extend_from_slice(&frame_of(&resp(2, 202)));
    let outcomes = run_reader(&mut t, &stream);
    assert_eq!(
        outcomes,
        vec![
            FrameOutcome::Completed(3),
            FrameOutcome::Completed(1),
            FrameOutcome::Completed(2)
        ]
    );
    assert_eq!(rx1.blocking_recv().unwrap(), resp(1, 201));
    assert_eq!(rx2.blocking_recv().unwrap(), resp(2, 202));
    assert_eq!(rx3.blocking_recv().unwrap(), resp(3, 203));
}
