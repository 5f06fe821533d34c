use bet_chain::models::Transaction;
use bet_chain::rpc::{
    block_query_reply, record_transaction_hash, transaction_query_reply, balance_reply, get_transactions_of_user, parse_rpc_request, parse_send_tx, send_new_tx,
    send_tx_data_is_readable, send_tx_reply, unknown_method_reply, RpcCommand, RpcError,
    TransferRequest,
};

fn buffer(text: &str) -> [u8; 1024] {
    let mut b = [0u8; 1024];
    b[..text.len()].copy_from_slice(text.as_bytes());
    b
}

fn data_of(command: RpcCommand) -> String {
    match command {
        RpcCommand::SendTx(d)
        | RpcCommand::GetBlockByNumber(d)
        | RpcCommand::GetBalanceOf(d)
        | RpcCommand::GetTransaction(d)
        | RpcCommand::GetUserTransactions(d) => d,
        RpcCommand::Unknown => panic!("unknown"),
    }
}

#[test]
fn parse_send_tx_request_line() {
    let b = buffer("send_tx|from:user1,to:user2,amount:100\n");
    match parse_rpc_request(&b).ok().unwrap() {
        RpcCommand::SendTx(d) => assert_eq!(d, "from:user1,to:user2,amount:100"),
        _ => panic!("expected send_tx"),
    }
}

#[test]
fn parse_each_method() {
    assert!(matches!(
        parse_rpc_request(&buffer("get_block_by_number|23\n")).ok().unwrap(),
        RpcCommand::GetBlockByNumber(_)
    ));
    assert_eq!(
        data_of(parse_rpc_request(&buffer("get_balance_of|betty\n")).ok().unwrap()),
        "betty"
    );
    assert!(matches!(
        parse_rpc_request(&buffer("get_balance_of|betty\n")).ok().unwrap(),
        RpcCommand::GetBalanceOf(_)
    ));
    assert!(matches!(
        parse_rpc_request(&buffer("get_transaction|abc\n")).ok().unwrap(),
        RpcCommand::GetTransaction(_)
    ));
    assert!(matches!(
        parse_rpc_request(&buffer("get_user_transactions|betty\n")).ok().unwrap(),
        RpcCommand::GetUserTransactions(_)
    ));
    assert!(matches!(
        parse_rpc_request(&buffer("nope|x\n")).ok().unwrap(),
        RpcCommand::Unknown
    ));
}

#[test]
fn data_without_newline_keeps_trailing_nuls() {
    let d = data_of(parse_rpc_request(&buffer("get_balance_of|betty")).ok().unwrap());
    assert_eq!(d.len(), 1024 - "get_balance_of|".len());
    assert!(d.starts_with("betty\0"));
}

#[test]
fn request_without_bar_is_refused() {
    let e = parse_rpc_request(&buffer("get_balance_of\n|betty")).err().unwrap();
    assert!(matches!(e, RpcError::IncorrectNumberOfParameters));
    assert_eq!(e.message(), "Incorrect Number of Parameters");
}

#[test]
fn replies() {
    assert_eq!(unknown_method_reply(), "Method not Found!");
    assert_eq!(balance_reply(666666), "666666");
    assert_eq!(balance_reply(0), "0");
    let tx = Transaction::new("a".to_string(), "b".to_string(), 1, 0, 0);
    assert_eq!(send_tx_reply(&Some(tx.clone())), tx.hash);
    assert_eq!(send_tx_reply(&None), "Error sending the Transaction");
}

#[test]
fn user_transactions_are_joined_with_commas() {
    assert_eq!(
        get_transactions_of_user(Some(vec!["h1".to_string(), "h2".to_string()])),
        "h1,h2"
    );
    assert_eq!(get_transactions_of_user(Some(Vec::new())), "");
    assert_eq!(get_transactions_of_user(None), "");
}

#[test]
fn parse_send_tx_reads_fields() {
    let data = "from:user1,to:user2,amount:100";
    assert!(send_tx_data_is_readable(data));
    let r = parse_send_tx(data).unwrap();
    assert_eq!(r.from, "user1");
    assert_eq!(r.to, "user2");
    assert_eq!(r.amount, 100);
}

#[test]
fn parse_send_tx_any_order_first_value_wins() {
    let data = "amount:+7,to:b,from:a,from:c,amount:9,extra:1";
    assert!(send_tx_data_is_readable(data));
    let r = parse_send_tx(data).unwrap();
    assert_eq!(r.from, "a");
    assert_eq!(r.to, "b");
    assert_eq!(r.amount, 7);
}

#[test]
fn parse_send_tx_skips_empty_values_and_zero_amounts() {
    let r = parse_send_tx("from:,from:x,to:y,amount:0,amount:5").unwrap();
    assert_eq!(r.from, "x");
    assert_eq!(r.amount, 5);
}

#[test]
fn parse_send_tx_needs_three_fields_and_both_users() {
    assert!(parse_send_tx("from:a,to:b").is_none());
    assert!(parse_send_tx("from:a,amount:1,x:y").is_none());
    assert!(parse_send_tx("to:b,amount:1,x:y").is_none());
    let r = parse_send_tx("from:a,to:b,x:y").unwrap();
    assert_eq!(r.amount, 0);
}

#[test]
fn unreadable_send_tx_data() {
    assert!(!send_tx_data_is_readable("from:a,to:b,amount"));
    assert!(!send_tx_data_is_readable("from:a,to:b,amount:ten"));
    assert!(!send_tx_data_is_readable("from:a,to:b,amount:18446744073709551616"));
    assert!(send_tx_data_is_readable("from:a,to:b,amount:18446744073709551615"));
    assert!(send_tx_data_is_readable("amount:3,amount:bad,x:y"));
    assert!(send_tx_data_is_readable("noColon,x"));
}

#[test]
fn send_new_tx_moves_balance_and_advances_nonce() {
    let req = TransferRequest { from: "alice".to_string(), to: "bob".to_string(), amount: 10 };
    let o = send_new_tx(&req, 0, 100, 5, 1700000000).unwrap();
    assert_eq!(o.from_balance, 90);
    assert_eq!(o.to_balance, 15);
    assert_eq!(o.sender_nonce, 1);
    assert_eq!(
        o.transaction.hash,
        "293c9b2e5414f12e263a66f9d4465f7b7a49ce94175335d53361583ef0a08c5c"
    );
    assert_eq!(o.transaction.nonce(), 0);
    assert_eq!(o.transaction.amount(), 10);
    assert_eq!(o.transaction.hash.len(), 64);
    assert!(o.transaction.hash.chars().all(|c| c.is_ascii_digit() || ('a'..='f').contains(&c)));
}

#[test]
fn send_new_tx_refuses_insufficient_balance() {
    let req = TransferRequest { from: "a".to_string(), to: "b".to_string(), amount: 11 };
    assert!(send_new_tx(&req, 0, 10, 0, 0).is_none());
}

#[test]
fn send_new_tx_refuses_receiver_overflow() {
    let req = TransferRequest { from: "a".to_string(), to: "b".to_string(), amount: 2 };
    assert!(send_new_tx(&req, 0, 10, u64::MAX - 1, 0).is_none());
    let ok = send_new_tx(&req, 0, 10, u64::MAX - 2, 0).unwrap();
    assert_eq!(ok.to_balance, u64::MAX);
}

#[test]
fn transfer_between_users_keeps_total() {
    let req = TransferRequest { from: "a".to_string(), to: "b".to_string(), amount: 40 };
    let o = send_new_tx(&req, 3, 50, 7, 0).unwrap();
    assert_eq!(o.from_balance + o.to_balance, 57);
}

#[test]
fn self_transfer_outcome_debits_and_credits_same_start() {
    let req = TransferRequest { from: "a".to_string(), to: "a".to_string(), amount: 5 };
    let o = send_new_tx(&req, 0, 20, 20, 0).unwrap();
    assert_eq!(o.from_balance, 15);
    assert_eq!(o.to_balance, 25);
}

#[test]
fn written_request_line_reads_back() {
    let mut b = b"get_transaction|abc\n".to_vec();
    b.extend_from_slice(b"garbage|x");
    match parse_rpc_request(&b).ok().unwrap() {
        RpcCommand::GetTransaction(d) => assert_eq!(d, "abc"),
        _ => panic!("expected get_transaction"),
    }
}

#[test]
fn query_replies() {
    assert_eq!(block_query_reply(Some("{}".to_string())), "{}");
    assert_eq!(block_query_reply(None), "Block Not Found");
    assert_eq!(transaction_query_reply(Some("{\"a\":1}".to_string())), "{\"a\":1}");
    assert_eq!(transaction_query_reply(None), "Transaction Not Found");
}

#[test]
fn recording_a_transaction_appends_its_hash() {
    let tx = Transaction::new("a".to_string(), "b".to_string(), 1, 0, 0);
    let list = record_transaction_hash(vec!["h0".to_string()], &tx);
    assert_eq!(list, vec!["h0".to_string(), tx.hash.clone()]);
    assert_eq!(record_transaction_hash(Vec::new(), &tx), vec![tx.hash.clone()]);
}
