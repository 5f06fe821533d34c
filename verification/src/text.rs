//! Character-sequence utilities: splitting on a separator, joining with
//! a separator, and conversions between strings, bytes and char vectors.
use vstd::prelude::*;
use vstd::utf8::is_ascii_chars;

verus! {

/// `String::push` appends one character.
pub assume_specification[ String::push ](s: &mut String, ch: char)
    ensures
        final(s)@ == old(s)@.push(ch),
;

/// The pieces of `s` between occurrences of `sep`, as `str::split` yields
/// them: always at least one piece, empty pieces kept.
pub open spec fn split_seq(s: Seq<char>, sep: char) -> Seq<Seq<char>>
    decreases s.len(),
{
    if s.len() == 0 {
        seq![Seq::<char>::empty()]
    } else {
        let rest = split_seq(s.drop_first(), sep);
        if s[0] == sep {
            seq![Seq::<char>::empty()] + rest
        } else {
            rest.update(0, seq![s[0]] + rest[0])
        }
    }
}

/// Prefixes `prefix` to the first piece of `pieces`.
pub open spec fn prepend_first(prefix: Seq<char>, pieces: Seq<Seq<char>>) -> Seq<Seq<char>> {
    pieces.update(0, prefix + pieces[0])
}

pub proof fn lemma_split_nonempty(s: Seq<char>, sep: char)
    ensures
        split_seq(s, sep).len() >= 1,
    decreases s.len(),
{
    if s.len() > 0 {
        lemma_split_nonempty(s.drop_first(), sep);
    }
}

/// The views of a vector of char vectors.
pub open spec fn char_vecs_view(v: Seq<Vec<char>>) -> Seq<Seq<char>> {
    v.map_values(|p: Vec<char>| p@)
}

/// Splits `s` on every occurrence of `sep`.
pub fn split_chars(s: &Vec<char>, sep: char) -> (parts: Vec<Vec<char>>)
    ensures
        char_vecs_view(parts@) == split_seq(s@, sep),
{
    let mut parts: Vec<Vec<char>> = Vec::new();
    let mut cur: Vec<char> = Vec::new();
    let mut i: usize = 0;
    proof {
        lemma_split_nonempty(s@, sep);
        assert(s@.skip(0) =~= s@);
        assert(prepend_first(cur@, split_seq(s@, sep)) =~= split_seq(s@, sep));
        assert(char_vecs_view(parts@) + prepend_first(cur@, split_seq(s@.skip(0), sep))
            =~= split_seq(s@, sep));
    }
    while i < s.len()
        invariant
            i <= s.len(),
            split_seq(s@, sep) == char_vecs_view(parts@) + prepend_first(
                cur@,
                split_seq(s@.skip(i as int), sep),
            ),
        decreases s.len() - i,
    {
        let c = s[i];
        let ghost tail = s@.skip(i as int);
        let ghost rest = split_seq(s@.skip(i + 1), sep);
        proof {
            assert(tail.drop_first() =~= s@.skip(i + 1));
            assert(tail[0] == c);
            lemma_split_nonempty(s@.skip(i + 1), sep);
        }
        if c == sep {
            let ghost old_parts = char_vecs_view(parts@);
            let ghost old_cur = cur@;
            parts.push(cur);
            cur = Vec::new();
            proof {
                assert(char_vecs_view(parts@) =~= old_parts.push(old_cur));
                assert(prepend_first(cur@, rest) =~= rest);
                assert(prepend_first(old_cur, split_seq(tail, sep)) =~= seq![old_cur] + rest);
                assert(old_parts + prepend_first(old_cur, split_seq(tail, sep)) =~= char_vecs_view(
                    parts@,
                ) + prepend_first(cur@, rest));
            }
        } else {
            let ghost old_cur = cur@;
            cur.push(c);
            proof {
                assert(split_seq(tail, sep) == rest.update(0, seq![c] + rest[0]));
                assert(old_cur + (seq![c] + rest[0]) =~= cur@ + rest[0]);
                assert(prepend_first(old_cur, split_seq(tail, sep)) =~= prepend_first(
                    cur@,
                    rest,
                ));
            }
        }
        i = i + 1;
    }
    let ghost old_parts = char_vecs_view(parts@);
    let ghost old_cur = cur@;
    proof {
        assert(s@.skip(i as int) =~= Seq::<char>::empty());
        assert(prepend_first(old_cur, split_seq(Seq::<char>::empty(), sep)) =~= seq![old_cur]);
    }
    parts.push(cur);
    proof {
        assert(char_vecs_view(parts@) =~= old_parts.push(old_cur));
    }
    parts
}

/// The characters of `s`, in order.
pub fn chars_of(s: &str) -> (v: Vec<char>)
    ensures
        v@ == s@,
{
    let mut v: Vec<char> = Vec::new();
    for c in it: s.chars()
        invariant
            v@ == it.seq().take(it.index() as int),
    {
        v.push(c);
    }
    v
}

/// A string holding the characters of `v`.
pub fn string_of(v: &Vec<char>) -> (s: String)
    ensures
        s@ == v@,
{
    let mut s = String::new();
    for i in 0..v.len()
        invariant
            s@ == v@.take(i as int),
    {
        s.push(v[i]);
        proof {
            assert(v@.take(i as int).push(v@[i as int]) =~= v@.take(i + 1));
        }
    }
    proof {
        assert(v@.take(v@.len() as int) =~= v@);
    }
    s
}

/// Each byte read as the character with the same code (Latin-1).
pub open spec fn latin1(bytes: Seq<u8>) -> Seq<char> {
    bytes.map_values(|b: u8| b as char)
}

/// The characters that `bytes` stand for, one per byte.
pub fn latin1_chars(bytes: &[u8]) -> (v: Vec<char>)
    ensures
        v@ == latin1(bytes@),
{
    let mut v: Vec<char> = Vec::new();
    for i in 0..bytes.len()
        invariant
            v@ =~= latin1(bytes@.take(i as int)),
    {
        let b: u8 = bytes[i];
        v.push(b as char);
        proof {
            assert(bytes@.take(i + 1) =~= bytes@.take(i as int).push(b));
        }
    }
    proof {
        assert(bytes@.take(bytes@.len() as int) =~= bytes@);
    }
    v
}

/// Whether `v` holds exactly the characters of `s`.
pub fn chars_eq_str(v: &Vec<char>, s: &str) -> (eq: bool)
    ensures
        eq == (v@ == s@),
{
    let n: usize = s.unicode_len();
    if n != v.len() {
        return false;
    }
    for i in 0..n
        invariant
            n == v@.len(),
            n == s@.len(),
            forall|j: int| 0 <= j < i ==> v@[j] == s@[j],
    {
        if v[i] != s.get_char(i) {
            return false;
        }
    }
    proof {
        assert(v@ =~= s@);
    }
    true
}

/// Whether `c` ends a request line: a newline, or a NUL when `stop_at_nul`.
pub open spec fn is_line_end(c: char, stop_at_nul: bool) -> bool {
    c == '\n' || (stop_at_nul && c == '\0')
}

/// How many characters of `s` come before the first line end.
pub open spec fn line_len(s: Seq<char>, stop_at_nul: bool) -> nat
    decreases s.len(),
{
    if s.len() == 0 || is_line_end(s[0], stop_at_nul) {
        0
    } else {
        1 + line_len(s.drop_first(), stop_at_nul)
    }
}

/// The characters of `s` before the first line end.
pub open spec fn first_line(s: Seq<char>, stop_at_nul: bool) -> Seq<char> {
    s.take(line_len(s, stop_at_nul) as int)
}

/// The characters of `s` before the first newline (or NUL, when
/// `stop_at_nul`).
pub fn first_line_chars(s: &Vec<char>, stop_at_nul: bool) -> (line: Vec<char>)
    ensures
        line@ == first_line(s@, stop_at_nul),
{
    let mut line: Vec<char> = Vec::new();
    let mut i: usize = 0;
    proof {
        assert(s@.skip(0) =~= s@);
    }
    while i < s.len() && !(s[i] == '\n' || (stop_at_nul && s[i] == '\0'))
        invariant
            i <= s.len(),
            line@ == s@.take(i as int),
            line_len(s@, stop_at_nul) == i + line_len(s@.skip(i as int), stop_at_nul),
        decreases s.len() - i,
    {
        proof {
            assert(s@.skip(i as int).drop_first() =~= s@.skip(i + 1));
        }
        line.push(s[i]);
        proof {
            assert(s@.take(i as int).push(s@[i as int]) =~= s@.take(i + 1));
        }
        i = i + 1;
    }
    proof {
        if i == s.len() {
            assert(s@.skip(i as int).len() == 0);
        }
    }
    line
}

/// The pieces written one after another with `sep` between neighbours,
/// as `[T]::join` writes them.
pub open spec fn join_seq(parts: Seq<Seq<char>>, sep: char) -> Seq<char>
    decreases parts.len(),
{
    if parts.len() == 0 {
        Seq::<char>::empty()
    } else if parts.len() == 1 {
        parts[0]
    } else {
        parts[0] + seq![sep] + join_seq(parts.drop_first(), sep)
    }
}

proof fn lemma_join_push(parts: Seq<Seq<char>>, sep: char, last: Seq<char>)
    requires
        parts.len() >= 1,
    ensures
        join_seq(parts.push(last), sep) == join_seq(parts, sep) + seq![sep] + last,
    decreases parts.len(),
{
    let q = parts.push(last);
    if parts.len() == 1 {
        assert(q.drop_first() =~= seq![last]);
        assert(join_seq(q.drop_first(), sep) == last);
    } else {
        assert(q.drop_first() =~= parts.drop_first().push(last));
        lemma_join_push(parts.drop_first(), sep, last);
        assert(join_seq(q, sep) =~= join_seq(parts, sep) + seq![sep] + last);
    }
}

/// The strings of `list` joined with `sep`.
pub fn join_strings(list: &Vec<String>, sep: char) -> (joined: String)
    ensures
        joined@ == join_seq(list@.map_values(|s: String| s@), sep),
{
    let ghost views = list@.map_values(|s: String| s@);
    let mut joined = String::new();
    for i in 0..list.len()
        invariant
            views == list@.map_values(|s: String| s@),
            joined@ == join_seq(views.take(i as int), sep),
    {
        proof {
            assert(views.take(i + 1) =~= views.take(i as int).push(views[i as int]));
        }
        if i > 0 {
            joined.push(sep);
            proof {
                lemma_join_push(views.take(i as int), sep, views[i as int]);
            }
        } else {
            proof {
                assert(joined@ == Seq::<char>::empty());
                assert(views.take(1)[0] == views[0]);
            }
        }
        joined.append(list[i].as_str());
    }
    proof {
        assert(views.take(list.len() as int) =~= views);
    }
    joined
}

/// Whether `s` does not contain `sep`.
pub open spec fn free_of(s: Seq<char>, sep: char) -> bool {
    forall|i: int| 0 <= i < s.len() ==> s[i] != sep
}

proof fn lemma_split_free(s: Seq<char>, sep: char)
    requires
        free_of(s, sep),
    ensures
        split_seq(s, sep) == seq![s],
    decreases s.len(),
{
    if s.len() > 0 {
        lemma_split_free(s.drop_first(), sep);
        assert(seq![s[0]] + s.drop_first() =~= s);
    } else {
        assert(s =~= Seq::<char>::empty());
    }
}

proof fn lemma_split_after_piece(a: Seq<char>, b: Seq<char>, sep: char)
    requires
        free_of(a, sep),
    ensures
        split_seq(a + seq![sep] + b, sep) == seq![a] + split_seq(b, sep),
    decreases a.len(),
{
    let s = a + seq![sep] + b;
    if a.len() == 0 {
        assert(s.drop_first() =~= b);
        assert(a =~= Seq::<char>::empty());
    } else {
        assert(s.drop_first() =~= a.drop_first() + seq![sep] + b);
        lemma_split_after_piece(a.drop_first(), b, sep);
        assert(seq![a[0]] + a.drop_first() =~= a);
        assert(split_seq(s, sep) =~= seq![a] + split_seq(b, sep));
    }
}

/// Splitting what was joined gives back the pieces, when there is at
/// least one piece and no piece holds the separator.
pub proof fn law_split_join(parts: Seq<Seq<char>>, sep: char)
    requires
        parts.len() >= 1,
        forall|i: int| 0 <= i < parts.len() ==> free_of(#[trigger] parts[i], sep),
    ensures
        split_seq(join_seq(parts, sep), sep) == parts,
    decreases parts.len(),
{
    if parts.len() == 1 {
        lemma_split_free(parts[0], sep);
        assert(seq![parts[0]] =~= parts);
    } else {
        let rest = parts.drop_first();
        assert forall|i: int| 0 <= i < rest.len() implies free_of(#[trigger] rest[i], sep) by {
            assert(rest[i] == parts[i + 1]);
        }
        law_split_join(rest, sep);
        assert(free_of(parts[0], sep));
        lemma_split_after_piece(parts[0], join_seq(rest, sep), sep);
        assert(seq![parts[0]] + rest =~= parts);
    }
}

/// One byte per character, each the character's code.
pub open spec fn ascii_bytes(s: Seq<char>) -> Seq<u8> {
    s.map_values(|c: char| c as u8)
}

/// ASCII text written one byte per character reads back as itself.
pub proof fn lemma_latin1_ascii_bytes(s: Seq<char>)
    requires
        is_ascii_chars(s),
    ensures
        latin1(ascii_bytes(s)) == s,
{
    let t = latin1(ascii_bytes(s));
    assert forall|i: int| 0 <= i < s.len() implies t[i] == s[i] by {
        let c = s[i];
        assert('\0' <= c <= '\u{7f}');
        assert(((c as u8) as char) == c) by {
            assert((c as u32) < 128);
        }
    }
    assert(t =~= s);
}

/// Reading bytes one character per byte works piece by piece.
pub proof fn lemma_latin1_concat(a: Seq<u8>, b: Seq<u8>)
    ensures
        latin1(a + b) == latin1(a) + latin1(b),
{
    assert(latin1(a + b) =~= latin1(a) + latin1(b));
}

/// Whether no character of `s` ends a line.
pub open spec fn no_line_end(s: Seq<char>, stop_at_nul: bool) -> bool {
    forall|i: int| 0 <= i < s.len() ==> !is_line_end(#[trigger] s[i], stop_at_nul)
}

/// The first line of text that a line end follows is that text.
pub proof fn lemma_first_line_of(s: Seq<char>, end: char, rest: Seq<char>, stop_at_nul: bool)
    requires
        no_line_end(s, stop_at_nul),
        is_line_end(end, stop_at_nul),
    ensures
        first_line(s + seq![end] + rest, stop_at_nul) == s,
{
    lemma_line_len_of(s, end, rest, stop_at_nul);
    assert((s + seq![end] + rest).take(s.len() as int) =~= s);
}

proof fn lemma_line_len_of(s: Seq<char>, end: char, rest: Seq<char>, stop_at_nul: bool)
    requires
        no_line_end(s, stop_at_nul),
        is_line_end(end, stop_at_nul),
    ensures
        line_len(s + seq![end] + rest, stop_at_nul) == s.len(),
    decreases s.len(),
{
    let t = s + seq![end] + rest;
    if s.len() == 0 {
        assert(t[0] == end);
    } else {
        assert(t[0] == s[0]);
        assert(!is_line_end(s[0], stop_at_nul));
        assert(t.drop_first() =~= s.drop_first() + seq![end] + rest);
        assert forall|i: int| 0 <= i < s.drop_first().len() implies !is_line_end(
            #[trigger] s.drop_first()[i],
            stop_at_nul,
        ) by {
            assert(s.drop_first()[i] == s[i + 1]);
        }
        lemma_line_len_of(s.drop_first(), end, rest, stop_at_nul);
    }
}

/// A line written as `first`, `sep`, `second` splits back into the two.
pub proof fn lemma_split_two(first: Seq<char>, second: Seq<char>, sep: char)
    requires
        free_of(first, sep),
        free_of(second, sep),
    ensures
        split_seq(first + seq![sep] + second, sep) == seq![first, second],
{
    lemma_split_after_piece(first, second, sep);
    lemma_split_free(second, sep);
    assert(seq![first] + seq![second] =~= seq![first, second]);
}

} // verus!
