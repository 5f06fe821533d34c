//! How values are laid out in the key-value stores: decimal numbers,
//! comma-separated lists of transaction hashes, and the order blocks are
//! read back in.
use vstd::prelude::*;
use vstd::string::*;
use vstd::utf8::{encode_utf8, is_ascii_chars, is_ascii_chars_encode_utf8};

use crate::decimal::{decimal, decimal_chars};
use crate::models::Block;
use crate::p2p::strings_view;
use crate::text::{
    ascii_bytes, char_vecs_view, free_of, join_seq, join_strings, latin1, latin1_chars, law_split_join,
    split_chars, split_seq, string_of,
};

verus! {

/// The bytes stored for a number (a balance, a nonce, a block key): its
/// decimal digits.
pub fn encode_u64_value(n: u64) -> (bytes: Vec<u8>)
    ensures
        bytes@ == ascii_bytes(decimal(n as nat)),
{
    let digits = decimal_chars(n);
    let mut bytes: Vec<u8> = Vec::new();
    for i in 0..digits.len()
        invariant
            bytes@ == ascii_bytes(digits@.take(i as int)),
    {
        let c = digits[i];
        bytes.push(c as u8);
        proof {
            assert(ascii_bytes(digits@.take(i + 1)) =~= ascii_bytes(digits@.take(i as int)).push(
                c as u8,
            ));
        }
    }
    proof {
        assert(digits@.take(digits@.len() as int) =~= digits@);
    }
    bytes
}

/// The key a block is stored under: its number in decimal.
pub fn block_key(number: u64) -> (key: Vec<u8>)
    ensures
        key@ == ascii_bytes(decimal(number as nat)),
{
    encode_u64_value(number)
}

/// The number that a stored JSON value denotes, if it is a `u64`.
pub uninterp spec fn json_u64_value(bytes: Seq<u8>) -> Option<u64>;

/// Calls `serde_json::from_slice::<u64>`: the named value of the bytes.
/// The parser reads the decimal digits of any `u64` back as that number
/// (a single `0`, or a non-zero digit followed by digits, within range).
#[verifier::external_body]
fn json_u64_from_slice(bytes: &[u8]) -> (value: Option<u64>)
    ensures
        value == json_u64_value(bytes@),
        forall|n: u64| #[trigger] ascii_bytes(decimal(n as nat)) == bytes@ ==> value == Some(n),
{
    serde_json::from_slice::<u64>(bytes).ok()
}

/// Reads a stored number (a balance or a nonce) as JSON.
pub fn decode_u64_value(bytes: &[u8]) -> (value: Option<u64>)
    ensures
        value == json_u64_value(bytes@),
        forall|n: u64| #[trigger] ascii_bytes(decimal(n as nat)) == bytes@ ==> value == Some(n),
{
    json_u64_from_slice(bytes)
}

/// A stored number read for a user: 0 when nothing is stored under the
/// user, else the stored value read as JSON (`None` when it is not a
/// `u64`).
pub fn read_stored_number(stored: Option<Vec<u8>>) -> (value: Option<u64>)
    ensures
        match stored {
            None => value == Some(0u64),
            Some(bytes) => {
                &&& value == json_u64_value(bytes@)
                &&& forall|n: u64| #[trigger] ascii_bytes(decimal(n as nat)) == bytes@ ==> value
                    == Some(n)
            },
        },
{
    match stored {
        None => Some(0),
        Some(bytes) => decode_u64_value(bytes.as_slice()),
    }
}

/// A user's transaction hashes read from the store: none when nothing is
/// stored under the user, else the stored list.
pub fn read_stored_tx_list(stored: Option<Vec<u8>>) -> (hashes: Vec<String>)
    ensures
        match stored {
            None => strings_view(hashes@) == Seq::<Seq<char>>::empty(),
            Some(bytes) => strings_view(hashes@) == split_seq(latin1(bytes@), ','),
        },
{
    match stored {
        None => {
            let hashes: Vec<String> = Vec::new();
            proof {
                assert(strings_view(hashes@) =~= Seq::<Seq<char>>::empty());
            }
            hashes
        },
        Some(bytes) => decode_tx_list(bytes.as_slice()),
    }
}

/// The bytes of ASCII text, one per character.
fn ascii_bytes_of(s: &str) -> (bytes: Vec<u8>)
    ensures
        bytes@ == ascii_bytes(s@),
{
    let chars = crate::text::chars_of(s);
    let mut bytes: Vec<u8> = Vec::new();
    for i in 0..chars.len()
        invariant
            bytes@ == ascii_bytes(chars@.take(i as int)),
    {
        let c = chars[i];
        bytes.push(c as u8);
        proof {
            assert(ascii_bytes(chars@.take(i + 1)) =~= ascii_bytes(chars@.take(i as int)).push(
                c as u8,
            ));
        }
    }
    proof {
        assert(chars@.take(chars@.len() as int) =~= chars@);
    }
    bytes
}

/// The keys a block is written under: its number and `latest`, unless a
/// block with that number is already stored, in which case it is ignored
/// (a block number is stored once).
pub fn block_store_keys(block: &Block, already_stored: bool) -> (keys: Vec<Vec<u8>>)
    ensures
        already_stored ==> keys@.len() == 0,
        !already_stored ==> {
            &&& keys@.len() == 2
            &&& keys@[0]@ == ascii_bytes(decimal(block.number as nat))
            &&& keys@[1]@ == ascii_bytes("latest"@)
        },
{
    let mut keys: Vec<Vec<u8>> = Vec::new();
    if !already_stored {
        keys.push(block_key(block.number));
        keys.push(ascii_bytes_of("latest"));
    }
    keys
}

/// The bytes stored for a user's transaction hashes: the hashes joined
/// with commas, in UTF-8.
pub fn encode_tx_list(hashes: &Vec<String>) -> (bytes: Vec<u8>)
    ensures
        bytes@ == encode_utf8(join_seq(strings_view(hashes@), ',')),
{
    let joined = join_strings(hashes, ',');
    proof {
        assert(hashes@.map_values(|s: String| s@) == strings_view(hashes@));
    }
    joined.as_str().as_bytes_vec()
}

/// A user's transaction hashes read from stored bytes: each byte read as
/// one character, split at commas.
pub fn decode_tx_list(value: &[u8]) -> (hashes: Vec<String>)
    ensures
        strings_view(hashes@) == split_seq(latin1(value@), ','),
{
    let chars = latin1_chars(value);
    let parts = split_chars(&chars, ',');
    let mut hashes: Vec<String> = Vec::new();
    for i in 0..parts.len()
        invariant
            strings_view(hashes@) == char_vecs_view(parts@).take(i as int),
    {
        let s = string_of(&parts[i]);
        let ghost old_hashes = strings_view(hashes@);
        hashes.push(s);
        proof {
            assert(char_vecs_view(parts@)[i as int] == parts@[i as int]@);
            assert(strings_view(hashes@) =~= old_hashes.push(parts@[i as int]@));
            assert(strings_view(hashes@) =~= char_vecs_view(parts@).take(i + 1));
        }
    }
    proof {
        assert(char_vecs_view(parts@).take(parts@.len() as int) =~= char_vecs_view(parts@));
    }
    hashes
}

proof fn lemma_join_ascii(parts: Seq<Seq<char>>, sep: char)
    requires
        is_ascii_chars(seq![sep]),
        forall|i: int| 0 <= i < parts.len() ==> is_ascii_chars(#[trigger] parts[i]),
    ensures
        is_ascii_chars(join_seq(parts, sep)),
    decreases parts.len(),
{
    if parts.len() == 1 {
        assert(is_ascii_chars(parts[0]));
    } else if parts.len() > 1 {
        let rest = parts.drop_first();
        assert forall|i: int| 0 <= i < rest.len() implies is_ascii_chars(#[trigger] rest[i]) by {
            assert(rest[i] == parts[i + 1]);
        }
        lemma_join_ascii(rest, sep);
        assert(is_ascii_chars(parts[0]));
        let j = join_seq(parts, sep);
        assert forall|k: int| 0 <= k < j.len() implies '\0' <= #[trigger] j[k] <= '\u{7f}' by {
            let a = parts[0];
            let b = join_seq(rest, sep);
            assert(j == a + seq![sep] + b);
            if k < a.len() {
                assert(j[k] == a[k]);
            } else if k == a.len() {
                assert(j[k] == sep);
                assert(seq![sep][0] == sep);
            } else {
                assert(j[k] == b[k - a.len() - 1]);
            }
        }
    }
}

proof fn lemma_latin1_of_ascii(s: Seq<char>)
    requires
        is_ascii_chars(s),
    ensures
        latin1(encode_utf8(s)) == s,
{
    is_ascii_chars_encode_utf8(s);
    let t = latin1(encode_utf8(s));
    assert forall|i: int| 0 <= i < s.len() implies t[i] == s[i] by {
        let c = s[i];
        assert('\0' <= c <= '\u{7f}');
        assert(encode_utf8(s)[i] == c as u8);
        assert(((c as u8) as char) == c) by {
            assert((c as u32) < 128);
        }
    }
    assert(t =~= s);
}

/// A non-empty list of ASCII hashes without commas reads back as written.
pub proof fn law_tx_list_round_trip(hashes: Seq<Seq<char>>)
    requires
        hashes.len() >= 1,
        forall|i: int|
            0 <= i < hashes.len() ==> is_ascii_chars(#[trigger] hashes[i]) && free_of(
                hashes[i],
                ',',
            ),
    ensures
        split_seq(latin1(encode_utf8(join_seq(hashes, ','))), ',') == hashes,
{
    assert(is_ascii_chars(seq![',']));
    lemma_join_ascii(hashes, ',');
    lemma_latin1_of_ascii(join_seq(hashes, ','));
    law_split_join(hashes, ',');
}

/// The last `len` base-256 digits of `n`, most significant first.
pub open spec fn be_bytes(n: nat, len: nat) -> Seq<u8>
    decreases len,
{
    if len == 0 {
        Seq::<u8>::empty()
    } else {
        be_bytes(n / 256, (len - 1) as nat).push((n % 256) as u8)
    }
}

/// The key a pending transaction is stored under: its position in the
/// pool as eight big-endian bytes.
pub open spec fn txpool_key_bytes(index: u64) -> Seq<u8> {
    be_bytes(index as nat, 8)
}

/// The key a pending transaction is stored under: its position in the
/// pool as eight big-endian bytes (`to_be_bytes`).
pub fn txpool_key(index: u64) -> (key: Vec<u8>)
    ensures
        key@ == txpool_key_bytes(index),
{
    let mut digits: Vec<u8> = Vec::new();
    let mut rest: u64 = index;
    let mut k: usize = 0;
    proof {
        assert(pow256(0) == 1);
        assert((index as nat) / 1 == index as nat);
        assert(be_bytes(index as nat, 8) + digits@ =~= be_bytes(index as nat, 8));
    }
    while k < 8
        invariant
            k <= 8,
            rest as nat == (index as nat) / pow256(k as nat),
            be_bytes(index as nat, 8) == be_bytes(rest as nat, (8 - k) as nat) + digits@,
        decreases 8 - k,
    {
        let ghost old_digits = digits@;
        let ghost old_rest = rest;
        let byte: u8 = (rest % 256) as u8;
        digits.insert(0, byte);
        rest = rest / 256;
        proof {
            assert(digits@ =~= seq![byte] + old_digits);
            assert(be_bytes(old_rest as nat, (8 - k) as nat) == be_bytes(
                rest as nat,
                (8 - k - 1) as nat,
            ).push(byte));
            assert(be_bytes(rest as nat, (8 - k - 1) as nat).push(byte) + old_digits
                =~= be_bytes(rest as nat, (8 - k - 1) as nat) + digits@);
            lemma_div_pow256(index as nat, k as nat);
        }
        k = k + 1;
    }
    proof {
        assert(be_bytes(rest as nat, 0) =~= Seq::<u8>::empty());
        assert(Seq::<u8>::empty() + digits@ =~= digits@);
    }
    digits
}

/// `256` to the power `k`.
pub open spec fn pow256(k: nat) -> nat
    decreases k,
{
    if k == 0 {
        1
    } else {
        256 * pow256((k - 1) as nat)
    }
}

proof fn lemma_div_pow256(n: nat, k: nat)
    ensures
        n / pow256(k) / 256 == n / pow256(k + 1),
{
    lemma_pow256_positive(k);
    vstd::arithmetic::div_mod::lemma_div_denominator(n as int, pow256(k) as int, 256);
    assert(pow256(k + 1) == 256 * pow256(k));
    vstd::arithmetic::mul::lemma_mul_is_commutative(256, pow256(k) as int);
}

proof fn lemma_pow256_positive(k: nat)
    ensures
        pow256(k) > 0,
    decreases k,
{
    if k > 0 {
        lemma_pow256_positive((k - 1) as nat);
    }
}

/// `x` comes before `y` in byte-wise (lexicographic) order.
pub open spec fn bytes_less(x: Seq<u8>, y: Seq<u8>) -> bool {
    exists|k: int|
        0 <= k < x.len() && k < y.len() && x.take(k) == y.take(k) && #[trigger] x[k] < y[k]
}

proof fn lemma_be_bytes_order(a: nat, b: nat, len: nat)
    requires
        a < b,
        b < pow256(len),
    ensures
        bytes_less(be_bytes(a, len), be_bytes(b, len)),
        be_bytes(a, len).len() == len,
        be_bytes(b, len).len() == len,
    decreases len,
{
    lemma_be_bytes_len(a, len);
    lemma_be_bytes_len(b, len);
    if len == 0 {
        assert(false);
    } else {
        let l1 = (len - 1) as nat;
        let x = be_bytes(a, len);
        let y = be_bytes(b, len);
        let px = be_bytes(a / 256, l1);
        let py = be_bytes(b / 256, l1);
        lemma_be_bytes_len(a / 256, l1);
        lemma_be_bytes_len(b / 256, l1);
        assert(x == px.push((a % 256) as u8));
        assert(y == py.push((b % 256) as u8));
        assert(b / 256 < pow256(l1)) by {
            assert(pow256(len) == 256 * pow256(l1));
            vstd::arithmetic::div_mod::lemma_div_by_multiple_is_strongly_ordered(
                b as int,
                (pow256(len)) as int,
                pow256(l1) as int,
                256,
            );
        }
        if a / 256 < b / 256 {
            lemma_be_bytes_order(a / 256, b / 256, l1);
            let k = choose|k: int|
                0 <= k < px.len() && k < py.len() && px.take(k) == py.take(k) && #[trigger] px[k]
                    < py[k];
            assert(x.take(k) =~= px.take(k));
            assert(y.take(k) =~= py.take(k));
            assert(x[k] == px[k] && y[k] == py[k]);
        } else {
            assert(a / 256 == b / 256) by {
                vstd::arithmetic::div_mod::lemma_div_is_ordered(a as int, b as int, 256);
            }
            assert(a % 256 < b % 256) by {
                vstd::arithmetic::div_mod::lemma_fundamental_div_mod(a as int, 256);
                vstd::arithmetic::div_mod::lemma_fundamental_div_mod(b as int, 256);
            }
            let k: int = l1 as int;
            assert(x.take(k) =~= px);
            assert(y.take(k) =~= py);
            assert(x[k] < y[k]);
        }
    }
}

proof fn lemma_be_bytes_len(n: nat, len: nat)
    ensures
        be_bytes(n, len).len() == len,
    decreases len,
{
    if len > 0 {
        lemma_be_bytes_len(n / 256, (len - 1) as nat);
    }
}

/// Pending transactions are stored under keys whose byte order is the
/// pool order, so reading the store in key order gives them back in the
/// order they were added.
pub proof fn law_txpool_keys_keep_order(i: u64, j: u64)
    requires
        i < j,
    ensures
        bytes_less(txpool_key_bytes(i), txpool_key_bytes(j)),
{
    assert(pow256(8) == 0x1_0000_0000_0000_0000) by {
        reveal_with_fuel(pow256, 9);
    }
    lemma_be_bytes_order(i as nat, j as nat, 8);
}

/// Blocks in order of their numbers.
pub open spec fn sorted_by_number(blocks: Seq<Block>) -> bool {
    forall|i: int, j: int| 0 <= i <= j < blocks.len() ==> blocks[i].number <= blocks[j].number
}

/// The blocks that have number `number`, in order.
pub open spec fn numbered(blocks: Seq<Block>, number: u64) -> Seq<Block> {
    blocks.filter(|b: Block| b.number == number)
}

proof fn lemma_numbered_insert(s: Seq<Block>, p: int, b: Block, k: u64)
    requires
        0 <= p <= s.len(),
        forall|j: int| p <= j < s.len() ==> s[j].number > b.number,
    ensures
        numbered(s.insert(p, b), k) == if b.number == k {
            numbered(s, k).push(b)
        } else {
            numbered(s, k)
        },
{
    let pred = |x: Block| x.number == k;
    let a = s.take(p);
    let c = s.skip(p);
    assert(s =~= a + c);
    assert(s.insert(p, b) =~= a + seq![b] + c);
    Seq::filter_distributes_over_add(a + seq![b], c, pred);
    Seq::filter_distributes_over_add(a, seq![b], pred);
    Seq::filter_distributes_over_add(a, c, pred);
    reveal_with_fuel(Seq::filter, 2);
    assert(seq![b].drop_last() =~= Seq::<Block>::empty());
    if b.number == k {
        assert forall|j: int| 0 <= j < c.len() implies !pred(c[j]) by {
            assert(c[j] == s[p + j]);
        }
        c.lemma_all_neg_filter_empty(pred);
        assert(c.filter(pred) =~= Seq::<Block>::empty());
        assert(seq![b].filter(pred) =~= seq![b]);
        assert(numbered(s.insert(p, b), k) =~= numbered(s, k).push(b));
    } else {
        assert(seq![b].filter(pred) =~= Seq::<Block>::empty());
        assert(numbered(s.insert(p, b), k) =~= numbered(s, k));
    }
}

/// The blocks ordered by number; blocks with the same number keep their
/// relative order (a stable sort).
pub fn sort_blocks_by_number(blocks: Vec<Block>) -> (sorted: Vec<Block>)
    ensures
        sorted_by_number(sorted@),
        forall|k: u64| #[trigger] numbered(sorted@, k) == numbered(blocks@, k),
{
    let ghost input = blocks@;
    assert(input.len() == blocks.len());
    let mut rest = blocks;
    let mut sorted: Vec<Block> = Vec::new();
    let mut i: usize = 0;
    proof {
        assert(input.skip(0) =~= input);
        assert forall|k: u64| #[trigger] numbered(sorted@, k) == numbered(input.take(0), k) by {
            assert(sorted@ =~= input.take(0));
        }
    }
    while rest.len() > 0
        invariant
            i <= input.len(),
            input.len() <= usize::MAX,
            rest@ == input.skip(i as int),
            sorted_by_number(sorted@),
            forall|k: u64| #[trigger] numbered(sorted@, k) == numbered(input.take(i as int), k),
        decreases rest.len(),
    {
        proof {
            assert(input.skip(i as int).len() == input.len() - i);
        }
        let b = rest.remove(0);
        proof {
            assert(rest@ =~= input.skip(i + 1));
            assert(b == input[i as int]);
        }
        let mut p: usize = 0;
        while p < sorted.len() && sorted[p].number <= b.number
            invariant
                p <= sorted.len(),
                forall|j: int| 0 <= j < p ==> sorted@[j].number <= b.number,
            decreases sorted.len() - p,
        {
            p = p + 1;
        }
        let ghost before = sorted@;
        proof {
            assert forall|j: int| p <= j < before.len() implies before[j].number > b.number by {
                if p < before.len() {
                    assert(before[p as int].number > b.number);
                    assert(before[p as int].number <= before[j].number);
                }
            }
        }
        sorted.insert(p, b);
        proof {
            assert(input.take(i + 1) =~= input.take(i as int).push(b));
            assert forall|k: u64| #[trigger] numbered(sorted@, k) == numbered(
                input.take(i + 1),
                k,
            ) by {
                lemma_numbered_insert(before, p as int, b, k);
                input.take(i as int).lemma_filter_push(b, |x: Block| x.number == k);
            }
            assert forall|x: int, y: int| 0 <= x <= y < sorted@.len() implies sorted@[x].number
                <= sorted@[y].number by {
                if x < p && y < p {
                    assert(sorted@[x] == before[x] && sorted@[y] == before[y]);
                } else if x < p && y == p {
                    assert(sorted@[x] == before[x]);
                } else if x < p {
                    assert(sorted@[x] == before[x] && sorted@[y] == before[y - 1]);
                } else if x == p && y > p {
                    assert(sorted@[y] == before[y - 1]);
                } else if x > p {
                    assert(sorted@[x] == before[x - 1] && sorted@[y] == before[y - 1]);
                }
            }
        }
        i = i + 1;
    }
    proof {
        assert(input.take(i as int) =~= input) by {
            assert(input.skip(i as int).len() == 0);
        }
    }
    sorted
}

} // verus!
