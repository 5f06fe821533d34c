//! The RPC protocol: requests are `method|data` lines; `send_tx` carries
//! `from:A,to:B,amount:N` and moves `N` from `A`'s balance to `B`'s.
use vstd::prelude::*;
use vstd::string::*;
use vstd::utf8::is_ascii_chars;

use crate::decimal::{decimal, parse_u64, parse_u64_chars, u64_to_string};
use crate::hashing::is_lower_hex;
use crate::models::{tx_hash_input, Transaction, TransactionView};
use crate::p2p::strings_view;
use crate::text::{
    ascii_bytes, free_of, lemma_first_line_of, lemma_latin1_ascii_bytes, lemma_latin1_concat,
    lemma_split_two, no_line_end, char_vecs_view, chars_eq_str, chars_of, first_line, first_line_chars, join_seq, join_strings,
    latin1, latin1_chars, lemma_split_nonempty, split_chars, split_seq, string_of,
};

verus! {

/// What an RPC request asks for, with its data field.
pub enum RpcCommand {
    SendTx(String),
    GetBlockByNumber(String),
    GetBalanceOf(String),
    GetTransaction(String),
    GetUserTransactions(String),
    Unknown,
}

/// An RPC request that cannot be served.
pub enum RpcError {
    IncorrectNumberOfParameters,
}

/// The `|`-separated fields of an RPC request: the buffer read as one
/// character per byte, up to the first newline.
pub open spec fn rpc_fields(buffer: Seq<u8>) -> Seq<Seq<char>> {
    split_seq(first_line(latin1(buffer), false), '|')
}

/// `command` is what the method field `method` asks for, with `data`.
pub open spec fn is_command_for(command: RpcCommand, method: Seq<char>, data: Seq<char>) -> bool {
    match command {
        RpcCommand::SendTx(d) => method == "send_tx"@ && d@ == data,
        RpcCommand::GetBlockByNumber(d) => method == "get_block_by_number"@ && d@ == data,
        RpcCommand::GetBalanceOf(d) => method == "get_balance_of"@ && d@ == data,
        RpcCommand::GetTransaction(d) => method == "get_transaction"@ && d@ == data,
        RpcCommand::GetUserTransactions(d) => method == "get_user_transactions"@ && d@ == data,
        RpcCommand::Unknown => {
            &&& method != "send_tx"@
            &&& method != "get_block_by_number"@
            &&& method != "get_balance_of"@
            &&& method != "get_transaction"@
            &&& method != "get_user_transactions"@
        },
    }
}

/// A request written as `method|data` and a newline is read back as that
/// method and data, whatever follows, when both are ASCII text without `|`
/// or a newline.
pub proof fn law_rpc_request_round_trip(method: Seq<char>, data: Seq<char>, rest: Seq<u8>)
    requires
        is_ascii_chars(method + seq!['|'] + data + seq!['\n']),
        free_of(method, '|'),
        free_of(data, '|'),
        no_line_end(method + seq!['|'] + data, false),
    ensures
        rpc_fields(ascii_bytes(method + seq!['|'] + data + seq!['\n']) + rest) == seq![
            method,
            data,
        ],
{
    let line = method + seq!['|'] + data;
    lemma_latin1_concat(ascii_bytes(line + seq!['\n']), rest);
    lemma_latin1_ascii_bytes(line + seq!['\n']);
    lemma_first_line_of(line, '\n', latin1(rest), false);
    lemma_split_two(method, data, '|');
}

/// Reads the request in an RPC buffer: it needs at least two `|`-separated
/// fields, the method and its data (further fields are ignored).
pub fn parse_rpc_request(buffer: &[u8]) -> (parsed: Result<RpcCommand, RpcError>)
    ensures
        parsed is Err <==> rpc_fields(buffer@).len() <= 1,
        parsed matches Ok(command) ==> is_command_for(
            command,
            rpc_fields(buffer@)[0],
            rpc_fields(buffer@)[1],
        ),
{
    let chars = latin1_chars(buffer);
    let line = first_line_chars(&chars, false);
    let fields = split_chars(&line, '|');
    if fields.len() <= 1 {
        return Err(RpcError::IncorrectNumberOfParameters);
    }
    let method = &fields[0];
    let data = string_of(&fields[1]);
    let command = if chars_eq_str(method, "send_tx") {
        RpcCommand::SendTx(data)
    } else if chars_eq_str(method, "get_block_by_number") {
        RpcCommand::GetBlockByNumber(data)
    } else if chars_eq_str(method, "get_balance_of") {
        RpcCommand::GetBalanceOf(data)
    } else if chars_eq_str(method, "get_transaction") {
        RpcCommand::GetTransaction(data)
    } else if chars_eq_str(method, "get_user_transactions") {
        RpcCommand::GetUserTransactions(data)
    } else {
        RpcCommand::Unknown
    };
    Ok(command)
}

impl RpcError {
    /// The reply written back for this error.
    pub fn message(&self) -> (text: String)
        ensures
            text@ == "Incorrect Number of Parameters"@,
    {
        String::from_str("Incorrect Number of Parameters")
    }
}

/// The reply to an unknown method.
pub fn unknown_method_reply() -> (text: String)
    ensures
        text@ == "Method not Found!"@,
{
    String::from_str("Method not Found!")
}

/// The reply to `send_tx`: the new transaction's hash, or an error text.
pub fn send_tx_reply(sent: &Option<Transaction>) -> (text: String)
    ensures
        match sent {
            Some(tx) => text@ == tx@.hash,
            None => text@ == "Error sending the Transaction"@,
        },
{
    match sent {
        Some(tx) => tx.hash().clone(),
        None => String::from_str("Error sending the Transaction"),
    }
}

/// The reply to `get_balance_of`: the balance in decimal.
pub fn balance_reply(balance: u64) -> (text: String)
    ensures
        text@ == decimal(balance as nat),
{
    u64_to_string(balance)
}

/// The reply to `get_user_transactions`: the stored transaction hashes
/// joined with commas (nothing when none are stored).
pub fn get_transactions_of_user(stored: Option<Vec<String>>) -> (text: String)
    ensures
        text@ == join_seq(
            match stored {
                Some(hashes) => strings_view(hashes@),
                None => Seq::<Seq<char>>::empty(),
            },
            ',',
        ),
{
    let all_txs: Vec<String> = match stored {
        Some(txs) => txs,
        None => Vec::new(),
    };
    proof {
        assert(all_txs@.map_values(|s: String| s@) == strings_view(all_txs@));
    }
    join_strings(&all_txs, ',')
}

/// The fields of a `send_tx` request read so far.
pub struct TransferFields {
    pub from: Seq<char>,
    pub to: Seq<char>,
    pub amount: u64,
}

/// The key of a `key:value` field.
pub open spec fn field_key(field: Seq<char>) -> Seq<char> {
    split_seq(field, ':')[0]
}

/// The value of a `key:value` field (the text after the first `:`, up to
/// any second `:`).
pub open spec fn field_value(field: Seq<char>) -> Seq<char> {
    split_seq(field, ':')[1]
}

/// Reading `field` after `read`: it has a `:`, and an amount that is still
/// to be read parses as a `u64`.
pub open spec fn field_readable(read: TransferFields, field: Seq<char>) -> bool {
    &&& split_seq(field, ':').len() >= 2
    &&& (field_key(field) == "amount"@ && read.amount == 0) ==> parse_u64(field_value(field)) is Some
}

/// One field read into `read`: the first non-empty `from` and `to` values
/// win, and `amount` is read while it is still 0; other keys are ignored.
pub open spec fn read_field(read: TransferFields, field: Seq<char>) -> TransferFields {
    let key = field_key(field);
    let value = field_value(field);
    if key == "from"@ {
        if read.from.len() == 0 {
            TransferFields { from: value, ..read }
        } else {
            read
        }
    } else if key == "to"@ {
        if read.to.len() == 0 {
            TransferFields { to: value, ..read }
        } else {
            read
        }
    } else if key == "amount"@ {
        if read.amount == 0 {
            TransferFields { amount: parse_u64(value).unwrap(), ..read }
        } else {
            read
        }
    } else {
        read
    }
}

/// The fields read in order, starting from nothing.
pub open spec fn read_fields(fields: Seq<Seq<char>>) -> TransferFields
    decreases fields.len(),
{
    if fields.len() == 0 {
        TransferFields { from: Seq::<char>::empty(), to: Seq::<char>::empty(), amount: 0 }
    } else {
        read_field(read_fields(fields.drop_last()), fields.last())
    }
}

/// Every field can be read in turn.
pub open spec fn fields_readable(fields: Seq<Seq<char>>) -> bool
    decreases fields.len(),
{
    fields.len() == 0 || (fields_readable(fields.drop_last()) && field_readable(
        read_fields(fields.drop_last()),
        fields.last(),
    ))
}

/// The `send_tx` data can be read: it has at most two comma-separated
/// fields (and is refused unread), or all its fields are readable.
pub open spec fn send_tx_data_readable(data: Seq<char>) -> bool {
    let fields = split_seq(data, ',');
    fields.len() <= 2 || fields_readable(fields)
}

/// The transfer that `send_tx` data asks for: at least three
/// comma-separated fields, and non-empty `from` and `to`.
pub open spec fn send_tx_request(data: Seq<char>) -> Option<TransferFields> {
    let fields = split_seq(data, ',');
    if fields.len() <= 2 {
        None
    } else {
        let read = read_fields(fields);
        if read.from.len() > 0 && read.to.len() > 0 {
            Some(read)
        } else {
            None
        }
    }
}

proof fn lemma_fields_readable_prefix(fields: Seq<Seq<char>>, k: int)
    requires
        fields_readable(fields),
        0 <= k <= fields.len(),
    ensures
        fields_readable(fields.take(k)),
    decreases fields.len(),
{
    if k < fields.len() {
        assert(fields.drop_last().take(k) =~= fields.take(k));
        lemma_fields_readable_prefix(fields.drop_last(), k);
    } else {
        assert(fields.take(k) =~= fields);
    }
}

/// A transfer asked for over RPC.
pub struct TransferRequest {
    pub from: String,
    pub to: String,
    pub amount: u64,
}

fn copy_chars(v: &Vec<char>) -> (copy: Vec<char>)
    ensures
        copy@ == v@,
{
    let mut copy: Vec<char> = Vec::new();
    for i in 0..v.len()
        invariant
            copy@ == v@.take(i as int),
    {
        copy.push(v[i]);
        proof {
            assert(v@.take(i as int).push(v@[i as int]) =~= v@.take(i + 1));
        }
    }
    proof {
        assert(v@.take(v@.len() as int) =~= v@);
    }
    copy
}

/// Whether `send_tx` data can be read without a malformed field.
pub fn send_tx_data_is_readable(data: &str) -> (readable: bool)
    ensures
        readable == send_tx_data_readable(data@),
{
    let chars = chars_of(data);
    let fields = split_chars(&chars, ',');
    let ghost fv = char_vecs_view(fields@);
    if fields.len() <= 2 {
        return true;
    }
    let mut amount: u64 = 0;
    for i in 0..fields.len()
        invariant
            fv == char_vecs_view(fields@),
            fv == split_seq(data@, ','),
            fv.len() > 2,
            fields_readable(fv.take(i as int)),
            amount == read_fields(fv.take(i as int)).amount,
    {
        let ghost pre = fv.take(i as int);
        proof {
            assert(fv.take(i + 1).drop_last() =~= pre);
            assert(fv.take(i + 1).last() == fv[i as int]);
            assert(fv[i as int] == fields@[i as int]@);
        }
        let kv = split_chars(&fields[i], ':');
        proof {
            crate::text::lemma_split_nonempty(fv[i as int], ':');
            assert(char_vecs_view(kv@)[0] == kv@[0]@);
        }
        if kv.len() < 2 {
            proof {
                assert(!fields_readable(fv.take(i + 1)));
                if fields_readable(fv) {
                    lemma_fields_readable_prefix(fv, i + 1);
                }
            }
            return false;
        }
        proof {
            assert(char_vecs_view(kv@)[1] == kv@[1]@);
        }
        if chars_eq_str(&kv[0], "from") || chars_eq_str(&kv[0], "to") {
            proof {
                reveal_strlit("from");
                reveal_strlit("to");
                reveal_strlit("amount");
                assert("from"@.len() != "amount"@.len());
                assert("to"@.len() != "amount"@.len());
            }
        } else if chars_eq_str(&kv[0], "amount") && amount == 0 {
            match parse_u64_chars(&kv[1]) {
                Some(a) => {
                    amount = a;
                },
                None => {
                    proof {
                        assert(!fields_readable(fv.take(i + 1)));
                        if fields_readable(fv) {
                            lemma_fields_readable_prefix(fv, i + 1);
                        }
                    }
                    return false;
                },
            }
        }
    }
    proof {
        assert(fv.take(fv.len() as int) =~= fv);
    }
    true
}

/// Reads the transfer that `send_tx` data asks for.
pub fn parse_send_tx(data: &str) -> (request: Option<TransferRequest>)
    requires
        send_tx_data_readable(data@),
    ensures
        match request {
            Some(r) => send_tx_request(data@) == Some(
                TransferFields { from: r.from@, to: r.to@, amount: r.amount },
            ),
            None => send_tx_request(data@) is None,
        },
{
    let chars = chars_of(data);
    let fields = split_chars(&chars, ',');
    let ghost fv = char_vecs_view(fields@);
    if fields.len() <= 2 {
        return None;
    }
    let mut from: Vec<char> = Vec::new();
    let mut to: Vec<char> = Vec::new();
    let mut amount: u64 = 0;
    proof {
        assert(fv.take(0) =~= Seq::<Seq<char>>::empty());
    }
    for i in 0..fields.len()
        invariant
            fv == char_vecs_view(fields@),
            fv == split_seq(data@, ','),
            fields_readable(fv),
            read_fields(fv.take(i as int)) == (TransferFields { from: from@, to: to@, amount }),
    {
        let ghost pre = fv.take(i as int);
        proof {
            assert(fv.take(i + 1).drop_last() =~= pre);
            assert(fv.take(i + 1).last() == fv[i as int]);
            assert(fv[i as int] == fields@[i as int]@);
            lemma_fields_readable_prefix(fv, i + 1);
        }
        let kv = split_chars(&fields[i], ':');
        proof {
            assert(char_vecs_view(kv@)[0] == kv@[0]@);
            assert(char_vecs_view(kv@)[1] == kv@[1]@);
        }
        let key = &kv[0];
        let value = &kv[1];
        if chars_eq_str(key, "from") {
            if from.len() == 0 {
                from = copy_chars(value);
            }
        } else if chars_eq_str(key, "to") {
            if to.len() == 0 {
                to = copy_chars(value);
            }
        } else if chars_eq_str(key, "amount") {
            if amount == 0 {
                amount = parse_u64_chars(value).unwrap();
            }
        }
    }
    proof {
        assert(fv.take(fv.len() as int) =~= fv);
    }
    if from.len() > 0 && to.len() > 0 {
        Some(TransferRequest { from: string_of(&from), to: string_of(&to), amount })
    } else {
        None
    }
}

/// The balances after moving `amount` from a sender holding `from_balance`
/// to a receiver holding `to_balance`; `None` when the sender holds too
/// little or the receiver's balance would overflow.
pub open spec fn transfer_balances(from_balance: u64, to_balance: u64, amount: u64) -> Option<
    (u64, u64),
> {
    if from_balance >= amount && to_balance + amount <= u64::MAX {
        Some(((from_balance - amount) as u64, (to_balance + amount) as u64))
    } else {
        None
    }
}

/// A sender may send any amount up to their whole balance, as long as the
/// receiver's balance stays within range; the amount then leaves the one
/// balance and arrives at the other. No other transfer is accepted.
pub proof fn law_transfer_balances_accepts_covered_amounts(
    from_balance: u64,
    to_balance: u64,
    amount: u64,
)
    ensures
        (from_balance >= amount && to_balance + amount <= u64::MAX) ==> transfer_balances(
            from_balance,
            to_balance,
            amount,
        ) == Some(((from_balance - amount) as u64, (to_balance + amount) as u64)),
        transfer_balances(from_balance, to_balance, amount) matches Some((new_from, new_to)) ==> (
        amount <= from_balance && new_from + amount == from_balance && new_to == to_balance
            + amount),
        (from_balance < amount || to_balance + amount > u64::MAX) ==> transfer_balances(
            from_balance,
            to_balance,
            amount,
        ) is None,
{
}

/// What an accepted transfer writes: the transaction, the sender's next
/// nonce and both new balances.
pub struct TransferOutcome {
    pub transaction: Transaction,
    pub sender_nonce: u64,
    pub from_balance: u64,
    pub to_balance: u64,
}

/// Decides a transfer given the sender's nonce and both balances as
/// stored: the transaction is stamped `timestamp` and takes the sender's
/// nonce, which then advances by one.
pub fn send_new_tx(
    request: &TransferRequest,
    sender_nonce: u64,
    from_balance: u64,
    to_balance: u64,
    timestamp: u64,
) -> (outcome: Option<TransferOutcome>)
    requires
        transfer_balances(from_balance, to_balance, request.amount) is Some ==> sender_nonce
            < u64::MAX,
    ensures
        match transfer_balances(from_balance, to_balance, request.amount) {
            None => outcome is None,
            Some((new_from, new_to)) => {
                &&& outcome matches Some(o)
                &&& o.from_balance == new_from
                &&& o.to_balance == new_to
                &&& o.sender_nonce == sender_nonce + 1
                &&& o.transaction@ == (TransactionView {
                    hash: sha256_hex_of_transfer(request, sender_nonce, timestamp),
                    from_address: request.from@,
                    to_address: request.to@,
                    amount: request.amount,
                    timestamp,
                    nonce: sender_nonce,
                })
                &&& o.transaction@.hash.len() == 64
                &&& forall|i: int|
                    0 <= i < 64 ==> is_lower_hex(#[trigger] o.transaction@.hash[i])
            },
        },
        outcome is Some <==> (from_balance >= request.amount && to_balance + request.amount
            <= u64::MAX),
        outcome matches Some(o) ==> (o.from_balance + request.amount == from_balance
            && o.to_balance == to_balance + request.amount && o.sender_nonce == sender_nonce + 1),
{
    let after_from = from_balance.checked_sub(request.amount);
    if after_from.is_none() {
        return None;
    }
    let after_to = to_balance.checked_add(request.amount);
    if after_to.is_none() {
        return None;
    }
    let transaction = Transaction::new(
        request.from.clone(),
        request.to.clone(),
        request.amount,
        sender_nonce,
        timestamp,
    );
    Some(
        TransferOutcome {
            transaction,
            sender_nonce: sender_nonce + 1,
            from_balance: after_from.unwrap(),
            to_balance: after_to.unwrap(),
        },
    )
}

/// The hash of the transaction that a transfer request makes.
pub open spec fn sha256_hex_of_transfer(request: &TransferRequest, nonce: u64, timestamp: u64) -> Seq<
    char,
> {
    crate::hashing::sha256_hex(
        tx_hash_input(request.from@, request.to@, request.amount, timestamp, nonce),
    )
}

/// A user's stored number (a balance or a nonce); users never written
/// hold 0.
pub open spec fn stored_number(balances: Map<Seq<char>, u64>, user: Seq<char>) -> u64 {
    if balances.contains_key(user) {
        balances[user]
    } else {
        0
    }
}

/// The stored balances after an accepted transfer is written: first the
/// sender's new balance, then the receiver's.
pub open spec fn balances_after(
    balances: Map<Seq<char>, u64>,
    from: Seq<char>,
    to: Seq<char>,
    new_from: u64,
    new_to: u64,
) -> Map<Seq<char>, u64> {
    balances.insert(from, new_from).insert(to, new_to)
}

/// A transfer between two different users moves `amount` from one to the
/// other: their total is kept and no other balance changes.
pub proof fn law_transfer_conserves_balances(
    balances: Map<Seq<char>, u64>,
    from: Seq<char>,
    to: Seq<char>,
    amount: u64,
    other: Seq<char>,
)
    requires
        from != to,
        transfer_balances(stored_number(balances, from), stored_number(balances, to), amount) is Some,
    ensures
        ({
            let (new_from, new_to) = transfer_balances(
                stored_number(balances, from),
                stored_number(balances, to),
                amount,
            ).unwrap();
            let after = balances_after(balances, from, to, new_from, new_to);
            &&& stored_number(after, from) == stored_number(balances, from) - amount
            &&& stored_number(after, to) == stored_number(balances, to) + amount
            &&& stored_number(after, from) + stored_number(after, to) == stored_number(balances, from)
                + stored_number(balances, to)
            &&& (other != from && other != to) ==> stored_number(after, other) == stored_number(
                balances,
                other,
            )
        }),
{
}

/// The stored nonces after an accepted transfer is written: the sender's
/// next nonce.
pub open spec fn nonces_after(nonces: Map<Seq<char>, u64>, from: Seq<char>, next: u64) -> Map<
    Seq<char>,
    u64,
> {
    nonces.insert(from, next)
}

/// An accepted transfer advances the sender's stored nonce by one (a
/// sender never written has nonce 0) and leaves every other user's nonce
/// as it was.
pub proof fn law_transfer_advances_sender_nonce(
    nonces: Map<Seq<char>, u64>,
    from: Seq<char>,
    other: Seq<char>,
)
    requires
        stored_number(nonces, from) < u64::MAX,
    ensures
        ({
            let after = nonces_after(nonces, from, (stored_number(nonces, from) + 1) as u64);
            &&& stored_number(after, from) == stored_number(nonces, from) + 1
            &&& other != from ==> stored_number(after, other) == stored_number(nonces, other)
        }),
{
}

/// A user's stored transaction hashes after a transaction that involves
/// them: its hash is added at the end.
pub fn record_transaction_hash(hashes: Vec<String>, tx: &Transaction) -> (recorded: Vec<String>)
    ensures
        strings_view(recorded@) == strings_view(hashes@).push(tx@.hash),
{
    let mut recorded = hashes;
    let ghost before = strings_view(recorded@);
    recorded.push(tx.hash().clone());
    proof {
        assert(strings_view(recorded@) =~= before.push(tx@.hash));
    }
    recorded
}

/// The reply to `get_block_by_number`: the block's JSON, or a not-found
/// text.
pub fn block_query_reply(found: Option<String>) -> (text: String)
    ensures
        match found {
            Some(json) => text@ == json@,
            None => text@ == "Block Not Found"@,
        },
{
    match found {
        Some(json) => json,
        None => String::from_str("Block Not Found"),
    }
}

/// The reply to `get_transaction`: the transaction's JSON, or a not-found
/// text.
pub fn transaction_query_reply(found: Option<String>) -> (text: String)
    ensures
        match found {
            Some(json) => text@ == json@,
            None => text@ == "Transaction Not Found"@,
        },
{
    match found {
        Some(json) => json,
        None => String::from_str("Transaction Not Found"),
    }
}

} // verus!
