//! Decimal text for `u64`: the digits that `to_string` prints, and the
//! values that `str::parse::<u64>` accepts.
use vstd::prelude::*;

verus! {

/// The character for a digit `d < 10`.
pub open spec fn digit_char(d: nat) -> char {
    (d + 48) as char
}

/// Whether `c` is one of `'0'..='9'`.
pub open spec fn is_digit(c: char) -> bool {
    '0' <= c && c <= '9'
}

/// The value of a digit character.
pub open spec fn digit_value(c: char) -> nat {
    (c as nat - 48) as nat
}

/// The decimal digits of `n`, most significant first, with no leading zero.
pub open spec fn decimal(n: nat) -> Seq<char>
    decreases n,
{
    if n < 10 {
        seq![digit_char(n)]
    } else {
        decimal(n / 10).push(digit_char(n % 10))
    }
}

/// Whether every character of `s` is a decimal digit.
pub open spec fn all_digits(s: Seq<char>) -> bool {
    forall|i: int| 0 <= i < s.len() ==> is_digit(#[trigger] s[i])
}

/// The number that a string of digits denotes.
pub open spec fn digits_value(s: Seq<char>) -> nat
    decreases s.len(),
{
    if s.len() == 0 {
        0
    } else {
        digits_value(s.drop_last()) * 10 + digit_value(s.last())
    }
}

/// What `str::parse::<u64>` returns: an optional `+`, then one or more
/// digits whose value fits in a `u64`; anything else is refused.
pub open spec fn parse_u64(s: Seq<char>) -> Option<u64> {
    let digits = if s.len() > 0 && s[0] == '+' {
        s.drop_first()
    } else {
        s
    };
    if digits.len() > 0 && all_digits(digits) && digits_value(digits) <= u64::MAX {
        Some(digits_value(digits) as u64)
    } else {
        None
    }
}

proof fn lemma_digit_char_value(d: nat)
    requires
        d < 10,
    ensures
        is_digit(digit_char(d)),
        digit_value(digit_char(d)) == d,
        digit_char(d) != '+',
{
}

proof fn lemma_decimal_digits(n: nat)
    ensures
        decimal(n).len() > 0,
        all_digits(decimal(n)),
        digits_value(decimal(n)) == n,
        decimal(n)[0] != '+',
    decreases n,
{
    if n >= 10 {
        lemma_decimal_digits(n / 10);
        let d = decimal(n / 10);
        assert(decimal(n) == d.push(digit_char(n % 10)));
        assert(decimal(n).drop_last() =~= d);
        lemma_digit_char_value((n % 10) as nat);
        assert((n / 10) * 10 + n % 10 == n);
        assert(decimal(n).last() == digit_char(n % 10));
        assert(digits_value(decimal(n)) == digits_value(d) * 10 + digit_value(digit_char(n % 10)));
        assert(decimal(n)[0] == d[0]);
    } else {
        lemma_digit_char_value(n);
        let d = decimal(n);
        assert(d.drop_last() =~= Seq::<char>::empty());
        assert(digits_value(d) == digits_value(d.drop_last()) * 10 + digit_value(d.last()));
    }
}

/// Different numbers have different decimal texts.
pub proof fn law_decimal_injective(a: nat, b: nat)
    ensures
        decimal(a) == decimal(b) ==> a == b,
{
    lemma_decimal_digits(a);
    lemma_decimal_digits(b);
}

/// An amount written in decimal (as `to_string` writes it) is parsed
/// back (as `str::parse` parses it) to the same number.
pub proof fn law_parse_decimal_round_trip(n: u64)
    ensures
        parse_u64(decimal(n as nat)) == Some(n),
{
    lemma_decimal_digits(n as nat);
}

fn digit_to_char(d: u64) -> (c: char)
    requires
        d < 10,
    ensures
        c == digit_char(d as nat),
{
    let b: u8 = (d as u8) + 48;
    b as char
}

/// The decimal text of `n`, as `n.to_string()` prints it.
pub fn decimal_chars(n: u64) -> (v: Vec<char>)
    ensures
        v@ == decimal(n as nat),
    decreases n,
{
    if n < 10 {
        let mut v: Vec<char> = Vec::new();
        v.push(digit_to_char(n));
        v
    } else {
        let mut v = decimal_chars(n / 10);
        v.push(digit_to_char(n % 10));
        v
    }
}

/// Appends the decimal text of `n` to `s`.
pub fn push_decimal(s: &mut String, n: u64)
    ensures
        final(s)@ == old(s)@ + decimal(n as nat),
{
    let digits = decimal_chars(n);
    let ghost start = s@;
    for i in 0..digits.len()
        invariant
            s@ == start + digits@.take(i as int),
    {
        s.push(digits[i]);
        proof {
            assert(start + digits@.take(i + 1) =~= (start + digits@.take(i as int)).push(
                digits@[i as int],
            ));
        }
    }
    proof {
        assert(digits@.take(digits@.len() as int) =~= digits@);
    }
}

/// The decimal text of `n` as a `String`.
pub fn u64_to_string(n: u64) -> (s: String)
    ensures
        s@ == decimal(n as nat),
{
    let mut s = String::new();
    push_decimal(&mut s, n);
    proof {
        assert(Seq::<char>::empty() + decimal(n as nat) =~= decimal(n as nat));
    }
    s
}

proof fn lemma_digits_value_step(s: Seq<char>, i: int)
    requires
        0 <= i < s.len(),
    ensures
        digits_value(s.take(i + 1)) == digits_value(s.take(i)) * 10 + digit_value(s[i]),
{
    assert(s.take(i + 1).drop_last() =~= s.take(i));
}

/// `s` parsed as `str::parse::<u64>` parses it.
pub fn parse_u64_chars(s: &Vec<char>) -> (r: Option<u64>)
    ensures
        r == parse_u64(s@),
{
    let start: usize = if s.len() > 0 && s[0] == '+' {
        1
    } else {
        0
    };
    let ghost digits = s@.skip(start as int);
    proof {
        if start == 1 {
            assert(digits =~= s@.drop_first());
        } else {
            assert(digits =~= s@);
        }
    }
    if start >= s.len() {
        return None;
    }
    let mut value: u64 = 0;
    let mut i: usize = start;
    while i < s.len()
        invariant
            start <= i <= s.len(),
            digits == s@.skip(start as int),
            digits == (if s@.len() > 0 && s@[0] == '+' {
                s@.drop_first()
            } else {
                s@
            }),
            all_digits(s@.subrange(start as int, i as int)),
            value as nat == digits_value(s@.subrange(start as int, i as int)),
        decreases s.len() - i,
    {
        let c = s[i];
        let ghost pre = s@.subrange(start as int, i as int);
        proof {
            assert(digits.take(i - start) =~= pre);
            assert(digits.take(i - start + 1) =~= s@.subrange(start as int, i + 1));
            assert(digits[i - start] == c);
            lemma_digits_value_step(digits, i - start);
        }
        if c < '0' || c > '9' {
            proof {
                assert(!is_digit(digits[i - start]));
                assert(!all_digits(digits));
            }
            return None;
        }
        let d: u64 = ((c as u32) - 48) as u64;
        if value > (u64::MAX - d) / 10 {
            proof {
                assert(value * 10 + d > u64::MAX) by (nonlinear_arith)
                    requires
                        value > (u64::MAX - d) / 10,
                        d < 10,
                ;
                if all_digits(digits) {
                    lemma_digits_value_prefix_bound(digits, i - start + 1);
                }
            }
            return None;
        }
        proof {
            assert(value * 10 + d <= u64::MAX) by (nonlinear_arith)
                requires
                    value <= (u64::MAX - d) / 10,
                    d < 10,
            ;
        }
        value = value * 10 + d;
        i = i + 1;
        proof {
            assert forall|k: int| 0 <= k < s@.subrange(start as int, i as int).len() implies is_digit(
                #[trigger] s@.subrange(start as int, i as int)[k],
            ) by {
                if k < i - 1 - start {
                    assert(s@.subrange(start as int, i as int)[k] == pre[k]);
                }
            }
        }
    }
    proof {
        assert(s@.subrange(start as int, i as int) =~= digits);
    }
    Some(value)
}

/// A prefix of a digit string denotes no more than the whole string.
proof fn lemma_digits_value_prefix_bound(s: Seq<char>, k: int)
    requires
        0 <= k <= s.len(),
        all_digits(s),
    ensures
        digits_value(s.take(k)) <= digits_value(s),
    decreases s.len() - k,
{
    if k < s.len() {
        lemma_digits_value_prefix_bound(s, k + 1);
        lemma_digits_value_step(s, k);
    } else {
        assert(s.take(k) =~= s);
    }
}

} // verus!
