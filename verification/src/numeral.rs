//! Decimal numerals: reading an `i32` from text and rendering one back.

use vstd::prelude::*;

verus! {

/// Whether `c` is a decimal digit.
pub open spec fn is_digit(c: char) -> bool {
    '0' <= c && c <= '9'
}

/// The numeric value of a digit character.
pub open spec fn digit_value(c: char) -> int {
    c as int - '0' as int
}

/// Whether every character of `s` is a decimal digit.
pub open spec fn all_digits(s: Seq<char>) -> bool {
    forall|i: int| 0 <= i < s.len() ==> is_digit(#[trigger] s[i])
}

/// The number denoted by a sequence of digit characters, read left to right.
pub open spec fn digits_value(s: Seq<char>) -> int
    decreases s.len(),
{
    if s.len() == 0 {
        0
    } else {
        digits_value(s.drop_last()) * 10 + digit_value(s.last())
    }
}

/// The digit characters of an integer literal: everything after an optional
/// leading sign.
pub open spec fn digits_part(s: Seq<char>) -> Seq<char> {
    if s.len() > 0 && (s[0] == '+' || s[0] == '-') {
        s.subrange(1, s.len() as int)
    } else {
        s
    }
}

/// The sign an integer literal denotes: `-1` under a leading minus, else `1`.
pub open spec fn literal_sign(s: Seq<char>) -> int {
    if s.len() > 0 && s[0] == '-' {
        -1
    } else {
        1
    }
}

/// Whether `s` is a well-formed decimal integer literal: an optional sign
/// followed by at least one digit, with nothing else.
pub open spec fn is_int_literal(s: Seq<char>) -> bool {
    digits_part(s).len() > 0 && all_digits(digits_part(s))
}

/// The integer a well-formed literal denotes.
pub open spec fn int_literal_value(s: Seq<char>) -> int {
    literal_sign(s) * digits_value(digits_part(s))
}

/// Whether `s` denotes an integer that fits in an `i32`.
pub open spec fn is_i32_literal(s: Seq<char>) -> bool {
    is_int_literal(s) && i32::MIN <= int_literal_value(s) <= i32::MAX
}

/// A sequence of digits denotes a non-negative number.
proof fn lemma_digits_value_nonneg(s: Seq<char>)
    requires
        all_digits(s),
    ensures
        digits_value(s) >= 0,
    decreases s.len(),
{
    if s.len() > 0 {
        assert(all_digits(s.drop_last()));
        lemma_digits_value_nonneg(s.drop_last());
    }
}

/// Extending a digit sequence on the right never shrinks its value.
proof fn lemma_digits_value_prefix(s: Seq<char>, i: int)
    requires
        all_digits(s),
        0 <= i <= s.len(),
    ensures
        digits_value(s.subrange(0, i)) <= digits_value(s),
    decreases s.len() - i,
{
    if i < s.len() {
        lemma_digits_value_prefix(s, i + 1);
        let t = s.subrange(0, i + 1);
        assert(t.drop_last() =~= s.subrange(0, i));
        assert(all_digits(s.subrange(0, i)));
        lemma_digits_value_nonneg(s.subrange(0, i));
    } else {
        assert(s.subrange(0, i) =~= s);
    }
}

/// Reads a decimal `i32` from `s`: an optional `+` or `-` sign followed by
/// one or more digits, denoting a value that fits in an `i32`. Anything else
/// yields `None`.
pub fn parse_i32(s: &str) -> (r: Option<i32>)
    ensures
        match r {
            Some(v) => is_i32_literal(s@) && v as int == int_literal_value(s@),
            None => !is_i32_literal(s@),
        },
{
    let len = s.unicode_len();
    if len == 0 {
        return None;
    }
    let first = s.get_char(0);
    let negative = first == '-';
    let start: usize = if first == '-' || first == '+' {
        1
    } else {
        0
    };
    if start == len {
        return None;
    }
    let ghost digits = digits_part(s@);
    proof {
        assert(digits =~= s@.subrange(start as int, len as int));
    }
    let mut i = start;
    let mut magnitude: u64 = 0;
    while i < len
        invariant
            start <= i <= len,
            len == s@.len(),
            digits == digits_part(s@),
            digits == s@.subrange(start as int, len as int),
            all_digits(s@.subrange(start as int, i as int)),
            magnitude == digits_value(s@.subrange(start as int, i as int)),
            magnitude <= 0x8000_0000,
        decreases len - i,
    {
        let c = s.get_char(i);
        if !('0' <= c && c <= '9') {
            proof {
                assert(digits[i - start] == c);
                assert(!all_digits(digits));
            }
            return None;
        }
        let d: u64 = (c as u32 as u64) - 48;
        proof {
            assert(s@.subrange(start as int, i + 1).drop_last() =~= s@.subrange(
                start as int,
                i as int,
            ));
        }
        magnitude = magnitude * 10 + d;
        i = i + 1;
        if magnitude > 0x8000_0000 {
            proof {
                if all_digits(digits) {
                    assert(s@.subrange(start as int, i as int) =~= digits.subrange(
                        0,
                        i - start,
                    ));
                    assert(digits_value(digits.subrange(0, i - start)) == magnitude);
                    lemma_digits_value_prefix(digits, i - start);
                    lemma_digits_value_nonneg(digits);
                }
            }
            return None;
        }
    }
    proof {
        assert(s@.subrange(start as int, i as int) =~= digits);
    }
    if negative {
        Some((-(magnitude as i64)) as i32)
    } else if magnitude <= 0x7fff_ffff {
        Some(magnitude as i32)
    } else {
        None
    }
}

/// The digit character with value `d`.
pub open spec fn digit_char(d: int) -> char {
    if d == 0 {
        '0'
    } else if d == 1 {
        '1'
    } else if d == 2 {
        '2'
    } else if d == 3 {
        '3'
    } else if d == 4 {
        '4'
    } else if d == 5 {
        '5'
    } else if d == 6 {
        '6'
    } else if d == 7 {
        '7'
    } else if d == 8 {
        '8'
    } else {
        '9'
    }
}

/// The decimal numeral for `n`, without sign or leading zeros.
pub open spec fn dec_rep(n: nat) -> Seq<char>
    decreases n,
{
    if n < 10 {
        seq![digit_char(n as int)]
    } else {
        dec_rep(n / 10) + seq![digit_char((n % 10) as int)]
    }
}

/// The decimal numeral for `n`, with a leading minus when `n` is negative.
pub open spec fn int_dec_rep(n: int) -> Seq<char> {
    if n < 0 {
        seq!['-'] + dec_rep((-n) as nat)
    } else {
        dec_rep(n as nat)
    }
}

/// The one-character string for the digit with value `d`.
fn digit_str(d: u32) -> (r: &'static str)
    requires
        d < 10,
    ensures
        r@ =~= seq![digit_char(d as int)],
{
    proof {
        reveal_strlit("0");
        reveal_strlit("1");
        reveal_strlit("2");
        reveal_strlit("3");
        reveal_strlit("4");
        reveal_strlit("5");
        reveal_strlit("6");
        reveal_strlit("7");
        reveal_strlit("8");
        reveal_strlit("9");
    }
    match d {
        0 => "0",
        1 => "1",
        2 => "2",
        3 => "3",
        4 => "4",
        5 => "5",
        6 => "6",
        7 => "7",
        8 => "8",
        _ => "9",
    }
}

/// Renders `n` as its decimal numeral.
pub fn u32_to_string(n: u32) -> (r: String)
    ensures
        r@ == dec_rep(n as nat),
    decreases n,
{
    if n < 10 {
        String::from_str(digit_str(n))
    } else {
        let mut prefix = u32_to_string(n / 10);
        prefix.append(digit_str(n % 10));
        prefix
    }
}

/// The digit character for `d` is a digit and denotes `d`.
proof fn lemma_digit_char_value(d: int)
    requires
        0 <= d < 10,
    ensures
        is_digit(digit_char(d)),
        digit_value(digit_char(d)) == d,
{
}

/// A decimal numeral is one or more digit characters whose value is the
/// number it renders.
proof fn lemma_dec_rep_digits(n: nat)
    ensures
        all_digits(dec_rep(n)),
        dec_rep(n).len() > 0,
        digits_value(dec_rep(n)) == n,
    decreases n,
{
    if n < 10 {
        lemma_digit_char_value(n as int);
        assert(dec_rep(n).drop_last() =~= Seq::<char>::empty());
        assert(digits_value(Seq::<char>::empty()) == 0);
        assert(digits_value(dec_rep(n)) == digits_value(dec_rep(n).drop_last()) * 10
            + digit_value(dec_rep(n).last()));
    } else {
        lemma_dec_rep_digits(n / 10);
        lemma_digit_char_value((n % 10) as int);
        vstd::arithmetic::div_mod::lemma_fundamental_div_mod(n as int, 10);
        let rep = dec_rep(n);
        assert(rep.drop_last() =~= dec_rep(n / 10));
        assert(rep.last() == digit_char((n % 10) as int));
        assert forall|i: int| 0 <= i < rep.len() implies is_digit(#[trigger] rep[i]) by {
            if i < rep.len() - 1 {
                assert(rep[i] == dec_rep(n / 10)[i]);
            }
        }
    }
}

/// Rendering an `i32` as a decimal numeral and reading that numeral back
/// yields the same value: the numeral is a well-formed literal, fits in an
/// `i32`, and denotes the number it was rendered from.
pub proof fn lemma_numeral_round_trip(n: i32)
    ensures
        is_i32_literal(int_dec_rep(n as int)),
        int_literal_value(int_dec_rep(n as int)) == n as int,
{
    if n >= 0 {
        lemma_dec_rep_digits(n as nat);
        let rep = int_dec_rep(n as int);
        assert(is_digit(rep[0]));
        assert(digits_part(rep) =~= dec_rep(n as nat));
    } else {
        let m = (-(n as int)) as nat;
        lemma_dec_rep_digits(m);
        let rep = int_dec_rep(n as int);
        assert(rep[0] == '-');
        assert(digits_part(rep) =~= dec_rep(m));
    }
}

/// Renders `n` as its decimal numeral, with a leading minus when negative.
pub fn i32_to_string(n: i32) -> (r: String)
    ensures
        r@ == int_dec_rep(n as int),
{
    if n < 0 {
        let magnitude: u32 = (-(n as i64)) as u32;
        let mut out = String::from_str("-");
        proof {
            reveal_strlit("-");
            assert("-"@ =~= seq!['-']);
        }
        out.append(u32_to_string(magnitude).as_str());
        proof {
            assert(out@ =~= int_dec_rep(n as int));
        }
        out
    } else {
        u32_to_string(n as u32)
    }
}

} // verus!
