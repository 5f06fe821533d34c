//! The peer-to-peer protocol: the list of known peers, the requests a
//! node accepts on its peer socket, and what it does with each message.
use vstd::prelude::*;
use vstd::string::*;
use vstd::utf8::is_ascii_chars;

use crate::text::{
    ascii_bytes, free_of, lemma_first_line_of, lemma_latin1_ascii_bytes, lemma_latin1_concat,
    lemma_split_two, no_line_end, char_vecs_view, chars_eq_str, chars_of, first_line, first_line_chars, latin1, latin1_chars,
    split_chars, split_seq, string_of,
};

verus! {

/// The views of a list of strings.
pub open spec fn strings_view(v: Seq<String>) -> Seq<Seq<char>> {
    v.map_values(|s: String| s@)
}

/// The peer list after offering `peer`: unchanged when `peer` is empty or
/// already known, else `peer` is added at the end.
pub open spec fn with_peer(peers: Seq<Seq<char>>, peer: Seq<char>) -> Seq<Seq<char>> {
    if peers.contains(peer) || peer.len() == 0 {
        peers
    } else {
        peers.push(peer)
    }
}

/// A peer list holds each address once, and no empty address.
pub open spec fn peers_well_formed(peers: Seq<Seq<char>>) -> bool {
    &&& peers.no_duplicates()
    &&& forall|i: int| 0 <= i < peers.len() ==> (#[trigger] peers[i]).len() > 0
}

/// The peers that this node forwards blocks to.
pub struct P2P {
    peers: Vec<String>,
}

impl View for P2P {
    type V = Seq<Seq<char>>;

    closed spec fn view(&self) -> Seq<Seq<char>> {
        strings_view(self.peers@)
    }
}

impl P2P {
    #[verifier::type_invariant]
    closed spec fn well_formed(self) -> bool {
        peers_well_formed(strings_view(self.peers@))
    }

    /// A node with no peers.
    pub fn new() -> (p2p: P2P)
        ensures
            p2p@ == Seq::<Seq<char>>::empty(),
    {
        let p2p = P2P { peers: Vec::new() };
        proof {
            assert(strings_view(p2p.peers@) =~= Seq::<Seq<char>>::empty());
        }
        p2p
    }

    fn contains_peer(&self, peer: &String) -> (found: bool)
        ensures
            found == self@.contains(peer@),
    {
        for i in 0..self.peers.len()
            invariant
                forall|j: int| 0 <= j < i ==> self@[j] != peer@,
        {
            if self.peers[i] == *peer {
                proof {
                    assert(self@[i as int] == peer@);
                }
                return true;
            }
        }
        false
    }

    /// Adds `peer` unless it is empty or already known.
    pub fn insert_peer(&mut self, peer: String)
        ensures
            final(self)@ == with_peer(old(self)@, peer@),
    {
        proof {
            use_type_invariant(&*self);
        }
        if !self.contains_peer(&peer) && !peer.as_str().is_empty() {
            let ghost before = strings_view(self.peers@);
            let ghost p = peer@;
            let mut peers: Vec<String> = Vec::new();
            std::mem::swap(&mut peers, &mut self.peers);
            peers.push(peer);
            proof {
                assert(strings_view(peers@) =~= before.push(p));
                law_insert_peer_keeps_peers(before, p, p);
            }
            self.peers = peers;
        }
    }

    /// The known peers, in the order they were added; each is a distinct,
    /// non-empty address.
    pub fn get_peers(&self) -> (peers: Vec<String>)
        ensures
            strings_view(peers@) == self@,
            peers_well_formed(strings_view(peers@)),
    {
        proof {
            use_type_invariant(self);
        }
        let peers = self.peers.clone();
        proof {
            assert forall|i: int| 0 <= i < peers.len() implies peers@[i] == self.peers@[i] by {
                assert(cloned::<String>(self.peers[i], peers[i]));
            }
            assert(strings_view(peers@) =~= strings_view(self.peers@));
        }
        peers
    }

    /// Whether `peer` is known.
    pub fn is_peer(&self, peer: String) -> (known: bool)
        ensures
            known == self@.contains(peer@),
    {
        self.contains_peer(&peer)
    }
}

/// Offering a non-empty address makes it a peer; an empty one never is.
pub proof fn law_inserted_peer_is_known(peers: Seq<Seq<char>>, peer: Seq<char>)
    ensures
        with_peer(peers, peer).contains(peer) <==> (peer.len() > 0 || peers.contains(peer)),
{
    if !peers.contains(peer) && peer.len() > 0 {
        assert(with_peer(peers, peer)[peers.len() as int] == peer);
    }
}

/// Offering the same address twice is the same as offering it once.
pub proof fn law_insert_peer_idempotent(peers: Seq<Seq<char>>, peer: Seq<char>)
    ensures
        with_peer(with_peer(peers, peer), peer) == with_peer(peers, peer),
{
    law_inserted_peer_is_known(peers, peer);
}

/// Offering an address keeps a well-formed peer list well formed, and
/// keeps every peer that was already known.
pub proof fn law_insert_peer_keeps_peers(peers: Seq<Seq<char>>, peer: Seq<char>, other: Seq<char>)
    requires
        peers_well_formed(peers),
    ensures
        peers_well_formed(with_peer(peers, peer)),
        peers.contains(other) ==> with_peer(peers, peer).contains(other),
{
    if !peers.contains(peer) && peer.len() > 0 {
        let q = peers.push(peer);
        assert forall|i: int, j: int| 0 <= i < q.len() && 0 <= j < q.len() && i != j implies q[i]
            != q[j] by {
            if i < peers.len() && j < peers.len() {
            } else if i == peers.len() {
                assert(peers[j] != peer);
            } else {
                assert(peers[i] != peer);
            }
        }
        if peers.contains(other) {
            let k = choose|k: int| 0 <= k < peers.len() && peers[k] == other;
            assert(q[k] == other);
        }
    }
}

/// What a request on the peer socket asks for.
pub enum P2PRequest {
    Connect,
    ForwardBlock(String),
    ReceiveBlock(String),
    ForwardTransaction(String),
    ReceiveTransaction(String),
    Unknown,
}

/// The `|`-separated fields of a peer request: the buffer read as one
/// character per byte, up to the first newline or NUL.
pub open spec fn p2p_fields(buffer: Seq<u8>) -> Seq<Seq<char>> {
    split_seq(first_line(latin1(buffer), true), '|')
}

/// Whether `method` names a request that carries data (a block or a
/// transaction to forward or receive).
pub open spec fn carries_data(method: Seq<char>) -> bool {
    ||| method == "forward_block"@
    ||| method == "receive_block"@
    ||| method == "forward_transaction"@
    ||| method == "receive_transaction"@
}

/// A peer request whose method carries data also has its data field.
pub open spec fn p2p_request_complete(buffer: Seq<u8>) -> bool {
    let fields = p2p_fields(buffer);
    carries_data(fields[0]) ==> fields.len() >= 2
}

fn names_data_method(method: &Vec<char>) -> (data: bool)
    ensures
        data == carries_data(method@),
{
    chars_eq_str(method, "forward_block") || chars_eq_str(method, "receive_block")
        || chars_eq_str(method, "forward_transaction") || chars_eq_str(
        method,
        "receive_transaction",
    )
}

/// Whether the request in `buffer` carries the data its method needs.
pub fn p2p_request_is_complete(buffer: &[u8]) -> (complete: bool)
    ensures
        complete == p2p_request_complete(buffer@),
{
    let fields = read_p2p_fields(buffer);
    if names_data_method(&fields[0]) {
        fields.len() >= 2
    } else {
        true
    }
}

fn read_p2p_fields(buffer: &[u8]) -> (fields: Vec<Vec<char>>)
    ensures
        char_vecs_view(fields@) == p2p_fields(buffer@),
        fields.len() >= 1,
{
    let chars = latin1_chars(buffer);
    let line = first_line_chars(&chars, true);
    let fields = split_chars(&line, '|');
    proof {
        crate::text::lemma_split_nonempty(line@, '|');
    }
    fields
}

/// A request written as `method|data` into a zeroed buffer is read back
/// as that method and data, when both are ASCII text without `|`, a
/// newline or a NUL.
pub proof fn law_p2p_request_round_trip(method: Seq<char>, data: Seq<char>, rest: Seq<u8>)
    requires
        is_ascii_chars(method + seq!['|'] + data + seq!['\0']),
        free_of(method, '|'),
        free_of(data, '|'),
        no_line_end(method + seq!['|'] + data, true),
    ensures
        p2p_fields(ascii_bytes(method + seq!['|'] + data + seq!['\0']) + rest) == seq![
            method,
            data,
        ],
{
    let line = method + seq!['|'] + data;
    lemma_latin1_concat(ascii_bytes(line + seq!['\0']), rest);
    lemma_latin1_ascii_bytes(line + seq!['\0']);
    lemma_first_line_of(line, '\0', latin1(rest), true);
    lemma_split_two(method, data, '|');
}

/// Reads the request in a peer-socket buffer: its method is the first
/// `|`-separated field (`connection`, `forward_block`, `receive_block`,
/// `forward_transaction` or `receive_transaction`), and the data of a
/// block or transaction method is the second.
pub fn parse_p2p_request(buffer: &[u8]) -> (request: P2PRequest)
    requires
        p2p_request_complete(buffer@),
    ensures
        ({
            let fields = p2p_fields(buffer@);
            match request {
                P2PRequest::Connect => fields[0] == "connection"@,
                P2PRequest::ForwardBlock(data) => fields[0] == "forward_block"@ && data@
                    == fields[1],
                P2PRequest::ReceiveBlock(data) => fields[0] == "receive_block"@ && data@
                    == fields[1],
                P2PRequest::ForwardTransaction(data) => fields[0] == "forward_transaction"@
                    && data@ == fields[1],
                P2PRequest::ReceiveTransaction(data) => fields[0] == "receive_transaction"@
                    && data@ == fields[1],
                P2PRequest::Unknown => fields[0] != "connection"@ && !carries_data(fields[0]),
            }
        }),
{
    let fields = read_p2p_fields(buffer);
    let method = &fields[0];
    if chars_eq_str(method, "connection") {
        P2PRequest::Connect
    } else if chars_eq_str(method, "forward_block") {
        P2PRequest::ForwardBlock(string_of(&fields[1]))
    } else if chars_eq_str(method, "receive_block") {
        P2PRequest::ReceiveBlock(string_of(&fields[1]))
    } else if chars_eq_str(method, "forward_transaction") {
        P2PRequest::ForwardTransaction(string_of(&fields[1]))
    } else if chars_eq_str(method, "receive_transaction") {
        P2PRequest::ReceiveTransaction(string_of(&fields[1]))
    } else {
        P2PRequest::Unknown
    }
}

/// The kind of a message passed from a request handler to the node.
pub enum MessageType {
    Connect,
    ForwardBlock,
    ReceiveBlock,
    ForwardTransaction,
    ReceiveTransaction,
}

/// A message passed from a request handler to the node: what it carries,
/// and the peer address (`ip:55666`) of the node that sent it.
pub struct Message {
    pub kind: MessageType,
    pub body: String,
    pub sender: String,
}

/// What handling one peer request produced: a reply to write back, and a
/// message for the node.
pub struct P2PResponse {
    pub reply: Option<String>,
    pub message: Option<Message>,
}

/// A block or transaction request whose data is not a JSON string.
pub enum P2PError {
    MalformedPayload,
}

/// The address a connecting peer is reached at: its IP and port 55666.
pub open spec fn peer_address(ip: Seq<char>) -> Seq<char> {
    ip + ":55666"@
}

/// The decoded value of a JSON text that is a string literal.
pub uninterp spec fn json_string_value(text: Seq<char>) -> Option<Seq<char>>;

/// Calls `serde_json::from_str::<String>`: `Some` with the decoded string
/// when the text is a JSON string, `None` when it is refused; both are
/// given by the named function of the text.
#[verifier::external_body]
fn decode_json_string(text: &str) -> (decoded: Option<String>)
    ensures
        match decoded {
            Some(s) => json_string_value(text@) == Some(s@),
            None => json_string_value(text@) is None,
        },
{
    serde_json::from_str::<String>(text).ok()
}

/// The response is a single message of kind `kind` with `body`, sent by
/// `sender`, and no reply.
pub open spec fn carries_message(
    response: Result<P2PResponse, P2PError>,
    kind: MessageType,
    body: Seq<char>,
    sender: Seq<char>,
) -> bool {
    &&& response matches Ok(r)
    &&& r.reply is None
    &&& r.message matches Some(m)
    &&& m.kind == kind
    &&& m.body@ == body
    &&& m.sender@ == sender
}

/// The response to JSON-string data: the decoded message, or an error
/// when the data is not a JSON string.
pub open spec fn decoded_message(
    response: Result<P2PResponse, P2PError>,
    kind: MessageType,
    data: Seq<char>,
    sender: Seq<char>,
) -> bool {
    match json_string_value(data) {
        Some(body) => carries_message(response, kind, body, sender),
        None => response is Err,
    }
}

/// The response is no reply and no message.
pub open spec fn silent(response: Result<P2PResponse, P2PError>) -> bool {
    &&& response matches Ok(r)
    &&& r.reply is None
    &&& r.message is None
}

fn decode_message(data: &String, kind: MessageType, sender: String) -> (response: Result<
    P2PResponse,
    P2PError,
>)
    ensures
        decoded_message(response, kind, data@, sender@),
{
    match decode_json_string(data.as_str()) {
        Some(body) => Ok(P2PResponse { reply: None, message: Some(Message { kind, body, sender }) }),
        None => Err(P2PError::MalformedPayload),
    }
}

/// Handles one peer request from `peer_ip`; every message names its sender
/// as `peer_ip:55666`. A connecting peer is answered `connected` and
/// announced at that address; a block or transaction to forward is
/// accepted only from `127.0.0.1`; a received block or transaction is
/// passed on; an unknown method is answered `Method not Found`. Block and
/// transaction data must be a JSON string, which is decoded.
pub fn process_request(request: &P2PRequest, peer_ip: &str) -> (response: Result<
    P2PResponse,
    P2PError,
>)
    ensures
        match request {
            P2PRequest::Connect => {
                &&& response matches Ok(r)
                &&& r.reply matches Some(t)
                &&& t@ == "connected"@
                &&& r.message matches Some(m)
                &&& m.kind is Connect
                &&& m.body@ == peer_address(peer_ip@)
                &&& m.sender@ == peer_address(peer_ip@)
            },
            P2PRequest::ForwardBlock(data) => if peer_ip@ == "127.0.0.1"@ {
                decoded_message(response, MessageType::ForwardBlock, data@, peer_address(peer_ip@))
            } else {
                silent(response)
            },
            P2PRequest::ReceiveBlock(data) => decoded_message(
                response,
                MessageType::ReceiveBlock,
                data@,
                peer_address(peer_ip@),
            ),
            P2PRequest::ForwardTransaction(data) => if peer_ip@ == "127.0.0.1"@ {
                decoded_message(
                    response,
                    MessageType::ForwardTransaction,
                    data@,
                    peer_address(peer_ip@),
                )
            } else {
                silent(response)
            },
            P2PRequest::ReceiveTransaction(data) => decoded_message(
                response,
                MessageType::ReceiveTransaction,
                data@,
                peer_address(peer_ip@),
            ),
            P2PRequest::Unknown => {
                &&& response matches Ok(r)
                &&& r.reply matches Some(t)
                &&& t@ == "Method not Found"@
                &&& r.message is None
            },
        },
{
    let mut sender = String::from_str(peer_ip);
    sender.append(":55666");
    match request {
        P2PRequest::Connect => {
            let body = sender.clone();
            Ok(
                P2PResponse {
                    reply: Some(String::from_str("connected")),
                    message: Some(Message { kind: MessageType::Connect, body, sender }),
                },
            )
        },
        P2PRequest::ForwardBlock(data) => {
            let ip = chars_of(peer_ip);
            if chars_eq_str(&ip, "127.0.0.1") {
                decode_message(data, MessageType::ForwardBlock, sender)
            } else {
                Ok(P2PResponse { reply: None, message: None })
            }
        },
        P2PRequest::ReceiveBlock(data) => decode_message(data, MessageType::ReceiveBlock, sender),
        P2PRequest::ForwardTransaction(data) => {
            let ip = chars_of(peer_ip);
            if chars_eq_str(&ip, "127.0.0.1") {
                decode_message(data, MessageType::ForwardTransaction, sender)
            } else {
                Ok(P2PResponse { reply: None, message: None })
            }
        },
        P2PRequest::ReceiveTransaction(data) => decode_message(
            data,
            MessageType::ReceiveTransaction,
            sender,
        ),
        P2PRequest::Unknown => Ok(
            P2PResponse { reply: Some(String::from_str("Method not Found")), message: None },
        ),
    }
}

/// What the node does after a message: nothing more, send a block's or a
/// transaction's JSON to every peer, or store a block or transaction that
/// a peer shared.
pub enum P2PAction {
    Nothing,
    ForwardToPeers(String),
    ForwardTransactionToPeers(String),
    StoreBlock(String),
    StoreTransaction(String),
}

impl P2P {
    /// Handles one message: a connecting peer is added to the peer list; a
    /// block or transaction to forward is handed back to be sent to the
    /// peers; a block or transaction received is handed back to be stored
    /// only when its sender is a known peer (only connected nodes share
    /// information). The peer list changes only on a connection.
    pub fn handle_message(&mut self, message: Message) -> (action: P2PAction)
        ensures
            match message.kind {
                MessageType::Connect => final(self)@ == with_peer(old(self)@, message.body@)
                    && action is Nothing,
                MessageType::ForwardBlock => {
                    &&& final(self)@ == old(self)@
                    &&& action matches P2PAction::ForwardToPeers(b)
                    &&& b@ == message.body@
                },
                MessageType::ForwardTransaction => {
                    &&& final(self)@ == old(self)@
                    &&& action matches P2PAction::ForwardTransactionToPeers(b)
                    &&& b@ == message.body@
                },
                MessageType::ReceiveBlock => {
                    &&& final(self)@ == old(self)@
                    &&& if old(self)@.contains(message.sender@) {
                        action matches P2PAction::StoreBlock(b) && b@ == message.body@
                    } else {
                        action is Nothing
                    }
                },
                MessageType::ReceiveTransaction => {
                    &&& final(self)@ == old(self)@
                    &&& if old(self)@.contains(message.sender@) {
                        action matches P2PAction::StoreTransaction(b) && b@ == message.body@
                    } else {
                        action is Nothing
                    }
                },
            },
    {
        match message.kind {
            MessageType::Connect => {
                self.insert_peer(message.body);
                P2PAction::Nothing
            },
            MessageType::ForwardBlock => P2PAction::ForwardToPeers(message.body),
            MessageType::ForwardTransaction => P2PAction::ForwardTransactionToPeers(message.body),
            MessageType::ReceiveBlock => {
                if self.contains_peer(&message.sender) {
                    P2PAction::StoreBlock(message.body)
                } else {
                    P2PAction::Nothing
                }
            },
            MessageType::ReceiveTransaction => {
                if self.contains_peer(&message.sender) {
                    P2PAction::StoreTransaction(message.body)
                } else {
                    P2PAction::Nothing
                }
            },
        }
    }
}

} // verus!
