//! Text comparison and the reading of unsigned numbers, decimal or
//! hexadecimal, from text.

use vstd::prelude::*;
use vstd::string::*;
use vstd::utf8::*;

verus! {

/// Tells whether two texts hold the same characters.
pub fn str_eq(a: &str, b: &str) -> (r: bool)
    ensures
        r == (a@ == b@),
{
    let x = a.as_bytes();
    let y = b.as_bytes();
    proof {
        encode_utf8_decode_utf8(a@);
        encode_utf8_decode_utf8(b@);
    }
    if x.len() != y.len() {
        return false;
    }
    let mut i: usize = 0;
    while i < x.len()
        invariant
            i <= x@.len(),
            x@.len() == y@.len(),
            x@ == encode_utf8(a@),
            y@ == encode_utf8(b@),
            forall|k: int| 0 <= k < i ==> x@[k] == y@[k],
        decreases x@.len() - i,
    {
        if x[i] != y[i] {
            return false;
        }
        i += 1;
    }
    assert(x@ =~= y@);
    true
}

/// The radix of a number: sixteen if `hex`, ten otherwise.
pub open spec fn radix_of(hex: bool) -> nat {
    if hex {
        16
    } else {
        10
    }
}

/// The value of one digit: `0`-`9` in both radices and, in hexadecimal only,
/// `a`-`f` in either case.
pub open spec fn digit_value(c: char, hex: bool) -> Option<nat> {
    if '0' <= c && c <= '9' {
        Some((c as nat - '0' as nat) as nat)
    } else if hex && 'a' <= c && c <= 'f' {
        Some((c as nat - 'a' as nat + 10) as nat)
    } else if hex && 'A' <= c && c <= 'F' {
        Some((c as nat - 'A' as nat + 10) as nat)
    } else {
        None
    }
}

/// Every character of `s` is a digit.
pub open spec fn all_digits(s: Seq<char>, hex: bool) -> bool {
    forall|i: int| 0 <= i < s.len() ==> (#[trigger] digit_value(s[i], hex)) is Some
}

/// The number that a run of digits denotes, most significant digit first.
pub open spec fn digits_value(s: Seq<char>, hex: bool) -> nat
    decreases s.len(),
{
    if s.len() == 0 {
        0
    } else {
        digits_value(s.drop_last(), hex) * radix_of(hex) + match digit_value(s.last(), hex) {
            Some(d) => d,
            None => 0,
        }
    }
}

/// The text without a leading `+`.
pub open spec fn unsigned_part(s: Seq<char>) -> Seq<char> {
    if s.len() > 0 && s[0] == '+' {
        s.skip(1)
    } else {
        s
    }
}

/// The number written in `s`: an optional `+`, then one or more digits and
/// nothing else, denoting a value that fits a `usize`. Anything else, the
/// empty text included, is no number.
pub open spec fn number_in(s: Seq<char>, hex: bool) -> Option<usize> {
    let digits = unsigned_part(s);
    if digits.len() > 0 && all_digits(digits, hex) && digits_value(digits, hex) <= usize::MAX {
        Some(digits_value(digits, hex) as usize)
    } else {
        None
    }
}

/// A longer run of digits denotes at least as much as each of its prefixes.
pub proof fn lemma_digits_value_grows(s: Seq<char>, hex: bool, n: int)
    requires
        0 <= n <= s.len(),
    ensures
        digits_value(s.take(n), hex) <= digits_value(s, hex),
    decreases s.len(),
{
    if n == s.len() {
        assert(s.take(n) =~= s);
    } else {
        lemma_digits_value_grows(s.drop_last(), hex, n);
        assert(s.drop_last().take(n) =~= s.take(n));
        let shorter = digits_value(s.drop_last(), hex);
        assert(shorter <= shorter * radix_of(hex)) by (nonlinear_arith)
            requires
                radix_of(hex) >= 1,
        ;
    }
}

/// The value of the digit that the byte `b` encodes in ASCII, if it is one.
pub open spec fn byte_digit(b: u8, hex: bool) -> Option<nat> {
    if 48 <= b && b <= 57 {
        Some((b - 48) as nat)
    } else if hex && 97 <= b && b <= 102 {
        Some((b - 97 + 10) as nat)
    } else if hex && 65 <= b && b <= 70 {
        Some((b - 65 + 10) as nat)
    } else {
        None
    }
}

/// An ASCII character is a digit exactly when its byte is, with the same
/// value.
pub proof fn lemma_byte_digit(c: char, hex: bool)
    requires
        c <= '\u{7f}',
    ensures
        byte_digit(c as u8, hex) == digit_value(c, hex),
{
}

fn digit_of_byte(b: u8, hex: bool) -> (r: Option<usize>)
    ensures
        r matches Some(d) ==> byte_digit(b, hex) == Some(d as nat) && d < radix_of(hex),
        r is None ==> byte_digit(b, hex) is None,
{
    if b >= 48 && b <= 57 {
        Some((b - 48) as usize)
    } else if hex && b >= 97 && b <= 102 {
        Some((b - 97 + 10) as usize)
    } else if hex && b >= 65 && b <= 70 {
        Some((b - 65 + 10) as usize)
    } else {
        None
    }
}

/// Reads an unsigned number from `text`, in hexadecimal if `hex` and in
/// decimal otherwise.
pub fn parse_number(text: &str, hex: bool) -> (r: Option<usize>)
    ensures
        r == number_in(text@, hex),
{
    broadcast use is_ascii_spec_bytes;

    let ghost s = text@;
    let ghost digits = unsigned_part(s);
    if !text.is_ascii() {
        proof {
            let i = choose|i: int| 0 <= i < s.len() && !('\0' <= #[trigger] s[i] <= '\u{7f}');
            if digits.len() > 0 && all_digits(digits, hex) {
                if s[0] == '+' {
                    assert(digits[i - 1] == s[i]);
                    assert(digit_value(digits[i - 1], hex) is Some);
                } else {
                    assert(digit_value(digits[i], hex) is Some);
                }
            }
        }
        return None;
    }
    let bytes = text.as_bytes();
    assert(bytes@.len() == s.len());
    assert(forall|i: int| 0 <= i < s.len() ==> bytes@[i] == #[trigger] s[i] as u8);
    let radix: usize = if hex {
        16
    } else {
        10
    };
    let start: usize = if bytes.len() > 0 && bytes[0] == 43 {
        1
    } else {
        0
    };
    assert(digits == s.skip(start as int));
    if start == bytes.len() {
        return None;
    }
    let mut value: usize = 0;
    let mut i: usize = start;
    while i < bytes.len()
        invariant
            start <= i <= bytes@.len(),
            bytes@.len() == s.len(),
            s == text@,
            digits == unsigned_part(s),
            digits == s.skip(start as int),
            radix == radix_of(hex),
            is_ascii_chars(s),
            forall|k: int| 0 <= k < s.len() ==> bytes@[k] == #[trigger] s[k] as u8,
            all_digits(digits.take(i - start), hex),
            value == digits_value(digits.take(i - start), hex),
        decreases bytes@.len() - i,
    {
        let ghost seen = digits.take(i - start);
        let ghost next = digits.take(i - start + 1);
        proof {
            assert(next.drop_last() =~= seen);
            assert(next.last() == s[i as int]);
            assert(digits[i - start] == s[i as int]);
            lemma_byte_digit(s[i as int], hex);
        }
        let d = match digit_of_byte(bytes[i], hex) {
            Some(d) => d,
            None => {
                proof {
                    assert(!(digit_value(digits[i - start], hex) is Some));
                }
                return None;
            },
        };
        proof {
            assert forall|k: int| 0 <= k < next.len() implies (#[trigger] digit_value(
                next[k],
                hex,
            )) is Some by {
                if k < seen.len() {
                    assert(next[k] == seen[k]);
                }
            }
            lemma_digits_value_grows(digits, hex, i - start + 1);
            lemma_byte_digit(s[i as int], hex);
            assert(digits_value(next, hex) == value * radix + d);
        }
        let scaled = match value.checked_mul(radix) {
            Some(v) => v,
            None => { return None; },
        };
        value = match scaled.checked_add(d) {
            Some(v) => v,
            None => { return None; },
        };
        i += 1;
    }
    proof {
        assert(digits.take(i - start) =~= digits);
    }
    Some(value)
}

} // verus!
