use bet_chain::p2p::{
    p2p_request_is_complete, parse_p2p_request, process_request, Message, MessageType, P2PAction,
    P2PError, P2PRequest, P2P,
};

fn buffer(text: &str) -> Vec<u8> {
    let mut b = text.as_bytes().to_vec();
    b.resize(64, 0);
    b
}

#[test]
fn new_p2p_has_no_peers() {
    let p2p = P2P::new();
    assert!(p2p.get_peers().is_empty());
    assert!(!p2p.is_peer("localhost:55667".to_string()));
}

#[test]
fn insert_peer_adds_once_and_skips_empty() {
    let mut p2p = P2P::new();
    p2p.insert_peer("a:1".to_string());
    p2p.insert_peer("b:2".to_string());
    p2p.insert_peer("a:1".to_string());
    p2p.insert_peer("".to_string());
    assert_eq!(p2p.get_peers(), vec!["a:1".to_string(), "b:2".to_string()]);
    assert!(p2p.is_peer("a:1".to_string()));
    assert!(p2p.is_peer("b:2".to_string()));
    assert!(!p2p.is_peer("".to_string()));
    assert!(!p2p.is_peer("c:3".to_string()));
}

#[test]
fn parse_connect_request() {
    let b = buffer("connection");
    assert!(p2p_request_is_complete(&b));
    assert!(matches!(parse_p2p_request(&b), P2PRequest::Connect));
}

#[test]
fn parse_forward_block_request_stops_at_newline() {
    let b = buffer("forward_block|\"{}\"\nrest");
    assert!(p2p_request_is_complete(&b));
    match parse_p2p_request(&b) {
        P2PRequest::ForwardBlock(data) => assert_eq!(data, "\"{}\""),
        _ => panic!("expected forward_block"),
    }
}

#[test]
fn parse_receive_block_request_stops_at_nul() {
    let b = buffer("receive_block|\"x\"|more");
    match parse_p2p_request(&b) {
        P2PRequest::ReceiveBlock(data) => assert_eq!(data, "\"x\""),
        _ => panic!("expected receive_block"),
    }
}

#[test]
fn block_request_without_data_is_incomplete() {
    assert!(!p2p_request_is_complete(&buffer("forward_block")));
    assert!(!p2p_request_is_complete(&buffer("receive_block\n|x")));
    assert!(p2p_request_is_complete(&buffer("hello")));
}

#[test]
fn parse_unknown_request() {
    assert!(matches!(parse_p2p_request(&buffer("ping|1")), P2PRequest::Unknown));
}

#[test]
fn connect_is_answered_and_announces_peer() {
    let r = process_request(&P2PRequest::Connect, "10.0.0.2").ok().unwrap();
    assert_eq!(r.reply.as_deref(), Some("connected"));
    let m = r.message.unwrap();
    assert!(matches!(m.kind, MessageType::Connect));
    assert_eq!(m.body, "10.0.0.2:55666");
}

#[test]
fn forward_block_only_from_local_node() {
    let req = P2PRequest::ForwardBlock("\"{\\\"number\\\":1}\"".to_string());
    let local = process_request(&req, "127.0.0.1").ok().unwrap();
    assert!(local.reply.is_none());
    let m = local.message.unwrap();
    assert!(matches!(m.kind, MessageType::ForwardBlock));
    assert_eq!(m.body, "{\"number\":1}");
    let remote = process_request(&req, "10.0.0.2").ok().unwrap();
    assert!(remote.reply.is_none());
    assert!(remote.message.is_none());
}

#[test]
fn receive_block_decodes_payload() {
    let req = P2PRequest::ReceiveBlock("\"abc\"".to_string());
    let r = process_request(&req, "10.0.0.2").ok().unwrap();
    let m = r.message.unwrap();
    assert!(matches!(m.kind, MessageType::ReceiveBlock));
    assert_eq!(m.body, "abc");
}

#[test]
fn malformed_block_payload_is_an_error() {
    let req = P2PRequest::ReceiveBlock("not json".to_string());
    assert!(matches!(process_request(&req, "1.2.3.4"), Err(P2PError::MalformedPayload)));
    let fwd = P2PRequest::ForwardBlock("{}".to_string());
    assert!(matches!(process_request(&fwd, "127.0.0.1"), Err(P2PError::MalformedPayload)));
}

#[test]
fn unknown_request_is_answered_method_not_found() {
    let r = process_request(&P2PRequest::Unknown, "1.2.3.4").ok().unwrap();
    assert_eq!(r.reply.as_deref(), Some("Method not Found"));
    assert!(r.message.is_none());
}

#[test]
fn old_connect_name_is_unknown() {
    assert!(matches!(parse_p2p_request(&buffer("connect")), P2PRequest::Unknown));
}

#[test]
fn messages_name_their_sender() {
    let req = P2PRequest::ReceiveBlock("\"b\"".to_string());
    let m = process_request(&req, "10.0.0.7").ok().unwrap().message.unwrap();
    assert_eq!(m.sender, "10.0.0.7:55666");
    let c = process_request(&P2PRequest::Connect, "10.0.0.7").ok().unwrap().message.unwrap();
    assert_eq!(c.sender, "10.0.0.7:55666");
}

#[test]
fn parse_transaction_requests() {
    let b = buffer("forward_transaction|\"t\"");
    assert!(p2p_request_is_complete(&b));
    match parse_p2p_request(&b) {
        P2PRequest::ForwardTransaction(d) => assert_eq!(d, "\"t\""),
        _ => panic!("expected forward_transaction"),
    }
    match parse_p2p_request(&buffer("receive_transaction|\"t\"")) {
        P2PRequest::ReceiveTransaction(d) => assert_eq!(d, "\"t\""),
        _ => panic!("expected receive_transaction"),
    }
    assert!(!p2p_request_is_complete(&buffer("receive_transaction")));
    assert!(!p2p_request_is_complete(&buffer("forward_transaction")));
}

#[test]
fn transaction_requests_decode_and_forward_only_locally() {
    let fwd = P2PRequest::ForwardTransaction("\"tx\"".to_string());
    let local = process_request(&fwd, "127.0.0.1").ok().unwrap().message.unwrap();
    assert!(matches!(local.kind, MessageType::ForwardTransaction));
    assert_eq!(local.body, "tx");
    assert!(process_request(&fwd, "10.0.0.1").ok().unwrap().message.is_none());
    let recv = P2PRequest::ReceiveTransaction("\"tx\"".to_string());
    let m = process_request(&recv, "10.0.0.1").ok().unwrap().message.unwrap();
    assert!(matches!(m.kind, MessageType::ReceiveTransaction));
    assert_eq!(m.body, "tx");
    let bad = P2PRequest::ReceiveTransaction("tx".to_string());
    assert!(matches!(process_request(&bad, "1.2.3.4"), Err(P2PError::MalformedPayload)));
}

fn message(kind: MessageType, body: &str, sender: &str) -> Message {
    Message { kind, body: body.to_string(), sender: sender.to_string() }
}

#[test]
fn handle_message_updates_peers_and_returns_actions() {
    let mut p2p = P2P::new();
    let a = p2p.handle_message(message(MessageType::Connect, "x:55666", "x:55666"));
    assert!(matches!(a, P2PAction::Nothing));
    assert!(p2p.is_peer("x:55666".to_string()));
    match p2p.handle_message(message(MessageType::ForwardBlock, "B", "127.0.0.1:55666")) {
        P2PAction::ForwardToPeers(b) => assert_eq!(b, "B"),
        _ => panic!("expected forward"),
    }
    match p2p.handle_message(message(MessageType::ForwardTransaction, "T", "127.0.0.1:55666")) {
        P2PAction::ForwardTransactionToPeers(t) => assert_eq!(t, "T"),
        _ => panic!("expected forward"),
    }
    match p2p.handle_message(message(MessageType::ReceiveBlock, "C", "x:55666")) {
        P2PAction::StoreBlock(b) => assert_eq!(b, "C"),
        _ => panic!("expected store"),
    }
    match p2p.handle_message(message(MessageType::ReceiveTransaction, "D", "x:55666")) {
        P2PAction::StoreTransaction(t) => assert_eq!(t, "D"),
        _ => panic!("expected store"),
    }
    assert_eq!(p2p.get_peers(), vec!["x:55666".to_string()]);
}

#[test]
fn blocks_and_transactions_from_unknown_senders_are_not_stored() {
    let mut p2p = P2P::new();
    p2p.insert_peer("x:55666".to_string());
    let a = p2p.handle_message(message(MessageType::ReceiveBlock, "C", "y:55666"));
    assert!(matches!(a, P2PAction::Nothing));
    let t = p2p.handle_message(message(MessageType::ReceiveTransaction, "D", "y:55666"));
    assert!(matches!(t, P2PAction::Nothing));
    assert_eq!(p2p.get_peers(), vec!["x:55666".to_string()]);
}
