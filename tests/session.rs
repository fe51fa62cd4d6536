use mousqlite::codec::{decode_response, encode_request};
use mousqlite::executor::ExecutionError;
use mousqlite::frame::FramingError;
use mousqlite::session::{
    stream_reply, Exchange, ReplyAction, ReplyEvent, ReplyLoop, ReplyState, StreamAction, StreamFault, StreamServer,
};
use mousqlite::types::{RequestType, SqlRequest, SqlResponse};

#[test]
fn cancel_stops_accepting() {
    let mut server = StreamServer::new();
    assert!(server.accepting);
    let action = server.on_connection(Ok(encode_request(&RequestType::Cancel)));
    assert_eq!(action, StreamAction::Shutdown);
    assert!(!server.accepting);
}

#[test]
fn truncated_frame_closes_only_that_connection() {
    let mut server = StreamServer::new();
    let action = server.on_connection(Err(FramingError::Truncated { declared: 100, received: 40 }));
    assert_eq!(action, StreamAction::Close(StreamFault::Framing(FramingError::Truncated { declared: 100, received: 40 })));
    assert!(server.accepting);
    let req = SqlRequest { request_id: 4, request: "SELECT 1;".to_string() };
    let action = server.on_connection(Ok(encode_request(&RequestType::NetworkRequest(req.clone()))));
    assert_eq!(action, StreamAction::Execute(req));
    assert!(server.accepting);
}

#[test]
fn undecodable_payload_closes_the_connection() {
    let mut server = StreamServer::new();
    assert_eq!(server.on_connection(Ok(vec![7, 7])), StreamAction::Close(StreamFault::Decode));
    assert!(server.accepting);
}

#[test]
fn stream_reply_is_a_framed_response() {
    let resp = SqlResponse::new(5, vec!["x".to_string()], vec![]);
    let bytes = stream_reply(&Ok(resp.clone()));
    let len = u64::from_be_bytes(bytes[..8].try_into().unwrap()) as usize;
    assert_eq!(len, bytes.len() - 8);
    assert_eq!(bytes[8], 0);
    assert_eq!(decode_response(&bytes[9..]), Some(resp));
}

#[test]
fn stream_reply_carries_execution_errors() {
    assert_eq!(stream_reply(&Err(ExecutionError::ConversionFailure)), vec![0, 0, 0, 0, 0, 0, 0, 1, 3]);
    assert_eq!(
        stream_reply(&Err(ExecutionError::BadStatement("no".to_string()))),
        vec![0, 0, 0, 0, 0, 0, 0, 11, 1, 0, 0, 0, 0, 0, 0, 0, 2, b'n', b'o']
    );
    assert_eq!(
        stream_reply(&Err(ExecutionError::StorageFailure(String::new()))),
        vec![0, 0, 0, 0, 0, 0, 0, 9, 2, 0, 0, 0, 0, 0, 0, 0, 0]
    );
}

#[test]
fn reply_keeps_identifier_and_correlation_id() {
    let mut l = ReplyLoop::new();
    assert_eq!(l.step(ReplyEvent::TimedOut), ReplyAction::Bind);
    assert_eq!(l.step(ReplyEvent::BindFailed), ReplyAction::Bind);
    assert_eq!(l.step(ReplyEvent::BindSucceeded), ReplyAction::Receive);
    assert_eq!(l.state, ReplyState::Bound);
    assert_eq!(l.step(ReplyEvent::TimedOut), ReplyAction::Receive);
    let parts = vec![b"1".to_vec(), b"A1B2C3".to_vec(), b"{not json".to_vec()];
    let action = l.step(ReplyEvent::Received(parts));
    let ex = match action {
        ReplyAction::Handle(ex) => ex,
        other => panic!("unexpected {:?}", other),
    };
    assert_eq!(
        ex,
        Exchange { identifier: b"1".to_vec(), correlation_id: b"A1B2C3".to_vec(), body: b"{not json".to_vec() }
    );
    let reply = ex.into_reply(b"error".to_vec());
    assert_eq!(reply, vec![b"1".to_vec(), b"A1B2C3".to_vec(), b"error".to_vec()]);
    assert_eq!(l.step(ReplyEvent::Sent), ReplyAction::Receive);
    assert_eq!(l.state, ReplyState::Bound);
}

#[test]
fn malformed_message_restarts_from_bind() {
    let mut l = ReplyLoop::new();
    l.step(ReplyEvent::BindSucceeded);
    assert_eq!(l.step(ReplyEvent::Received(vec![b"1".to_vec(), b"2".to_vec()])), ReplyAction::Bind);
    assert_eq!(l.state, ReplyState::Unbound);
    l.step(ReplyEvent::BindSucceeded);
    assert_eq!(l.step(ReplyEvent::ReceiveFailed), ReplyAction::Bind);
    l.step(ReplyEvent::BindSucceeded);
    assert_eq!(l.step(ReplyEvent::SendFailed), ReplyAction::Bind);
    assert_eq!(l.state, ReplyState::Unbound);
}
