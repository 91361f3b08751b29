//! Decimal text: reading a declared content length, and writing the
//! `bytes=<start>-<end>` value of a range header.

use vstd::prelude::*;

verus! {

/// Whether a character is a decimal digit.
pub open spec fn is_ascii_digit(c: char) -> bool {
    48 <= c as u32 <= 57
}

/// The numeric value of a digit character.
pub open spec fn digit_value(c: char) -> nat {
    (c as u32 - 48) as nat
}

/// Whether every character of `s` is a decimal digit.
pub open spec fn all_digits(s: Seq<char>) -> bool {
    forall|i: int| 0 <= i < s.len() ==> is_ascii_digit(#[trigger] s[i])
}

/// The number that digit text denotes, most significant digit first.
pub open spec fn decimal_value(s: Seq<char>) -> nat
    decreases s.len(),
{
    if s.len() == 0 {
        0
    } else {
        decimal_value(s.drop_last()) * 10 + digit_value(s.last())
    }
}

/// A longer run of digits never denotes a smaller number: every prefix of a
/// digit text denotes at most the value of the whole text.
proof fn lemma_decimal_prefix_le(s: Seq<char>, i: int)
    requires
        0 <= i <= s.len(),
    ensures
        decimal_value(s.take(i)) <= decimal_value(s),
    decreases s.len() - i,
{
    if i == s.len() {
        assert(s.take(i) =~= s);
    } else {
        lemma_decimal_prefix_le(s, i + 1);
        assert(s.take(i + 1).drop_last() =~= s.take(i));
        assert(decimal_value(s.take(i + 1)) == decimal_value(s.take(i)) * 10 + digit_value(
            s.take(i + 1).last(),
        ));
        assert(decimal_value(s.take(i)) <= decimal_value(s.take(i)) * 10) by (nonlinear_arith);
    }
}

/// The size a content-length text declares: the number its digits denote, or
/// zero when the text is absent, empty, holds a non-digit, or denotes a
/// number too large for 64 bits — any parse failure means "size unknown".
pub open spec fn content_length_spec(value: Option<Seq<char>>) -> u64 {
    match value {
        Option::Some(s) => {
            if s.len() > 0 && all_digits(s) && decimal_value(s) <= u64::MAX {
                decimal_value(s) as u64
            } else {
                0
            }
        },
        Option::None => 0,
    }
}

/// Reads a declared content length. Absence, an empty text, a non-digit, or
/// a value over 64 bits all yield 0, which callers treat as "size unknown".
#[verifier::loop_isolation(false)]
pub fn parse_content_length(value: Option<&str>) -> (r: u64)
    ensures
        match value {
            Option::Some(s) => r == content_length_spec(Option::Some(s@)),
            Option::None => r == 0,
        },
{
    let s: &str = match value {
        Option::Some(s) => s,
        Option::None => {
            return 0;
        },
    };
    let n: usize = s.unicode_len();
    if n == 0 {
        return 0;
    }
    let mut acc: u64 = 0;
    let mut i: usize = 0;
    while i < n
        invariant
            i <= n,
            n == s@.len(),
            forall|k: int| 0 <= k < i ==> is_ascii_digit(#[trigger] s@[k]),
            acc == decimal_value(s@.take(i as int)),
        decreases n - i,
    {
        let c = s.get_char(i);
        let code: u32 = c as u32;
        if code < 48 || code > 57 {
            assert(!all_digits(s@));
            return 0;
        }
        let d: u64 = (code - 48) as u64;
        proof {
            assert(s@.take(i + 1).drop_last() =~= s@.take(i as int));
            assert(decimal_value(s@.take(i + 1)) == acc * 10 + d);
        }
        if acc > (u64::MAX - d) / 10 {
            proof {
                assert(acc * 10 + d > u64::MAX) by (nonlinear_arith)
                    requires
                        acc > (u64::MAX - d) / 10,
                        d <= u64::MAX,
                ;
                lemma_decimal_prefix_le(s@, i + 1);
            }
            return 0;
        }
        proof {
            assert(acc * 10 + d <= u64::MAX) by (nonlinear_arith)
                requires
                    acc <= (u64::MAX - d) / 10,
                    d <= 9,
            ;
        }
        acc = acc * 10 + d;
        i = i + 1;
    }
    proof {
        assert(s@.take(n as int) =~= s@);
    }
    acc
}

/// The decimal digit characters of `n`, most significant first, as ASCII
/// bytes.
pub open spec fn decimal_digits(n: nat) -> Seq<u8>
    decreases n,
{
    if n < 10 {
        seq![(n + 48) as u8]
    } else {
        decimal_digits(n / 10).push((n % 10 + 48) as u8)
    }
}

/// Every byte of a decimal rendering is an ASCII digit.
proof fn lemma_decimal_digits_ascii(n: nat)
    ensures
        forall|i: int|
            0 <= i < decimal_digits(n).len() ==> 48 <= #[trigger] decimal_digits(n)[i] <= 57,
    decreases n,
{
    if n < 10 {
        assert(decimal_digits(n) =~= seq![(n + 48) as u8]);
    } else {
        lemma_decimal_digits_ascii(n / 10);
        assert(decimal_digits(n) == decimal_digits(n / 10).push((n % 10 + 48) as u8));
    }
}

/// Appends the decimal rendering of `n` to `out`.
fn push_decimal(out: &mut Vec<u8>, n: u64)
    ensures
        final (out)@ == old(out)@ + decimal_digits(n as nat),
    decreases n,
{
    if n >= 10 {
        push_decimal(out, n / 10);
    }
    let digit: u8 = (n % 10) as u8 + 48;
    out.push(digit);
    proof {
        if n < 10 {
            assert(old(out)@ + decimal_digits(n as nat) =~= old(out)@.push(digit));
        } else {
            assert(old(out)@ + decimal_digits(n as nat) =~= (old(out)@ + decimal_digits(
                (n / 10) as nat,
            )).push(digit));
        }
    }
}

/// The characters that a run of ASCII bytes spells.
pub open spec fn ascii_chars(bytes: Seq<u8>) -> Seq<char> {
    bytes.map_values(|b: u8| b as char)
}

/// Relies on String::from_utf8: decoding bytes that are all ASCII (below
/// 128) yields exactly those characters.
#[verifier::external_body]
fn ascii_string(bytes: Vec<u8>) -> (r: String)
    requires
        forall|i: int| 0 <= i < bytes@.len() ==> bytes@[i] < 128,
    ensures
        r@ == ascii_chars(bytes@),
{
    match String::from_utf8(bytes) {
        Ok(s) => s,
        Err(_) => String::new(),
    }
}

/// The text of the range header for an inclusive byte range:
/// `bytes=<start>-<end>` in decimal.
pub open spec fn range_header_spec(start_byte: u64, end_byte: u64) -> Seq<char> {
    ascii_chars(
        seq![98u8, 121u8, 116u8, 101u8, 115u8, 61u8] + decimal_digits(start_byte as nat)
            + seq![45u8] + decimal_digits(end_byte as nat),
    )
}

/// Writes the value of the range header that requests the bytes from
/// `start_byte` through `end_byte` inclusive: `bytes=<start>-<end>`.
pub fn range_header_value(start_byte: u64, end_byte: u64) -> (r: String)
    ensures
        r@ == range_header_spec(start_byte, end_byte),
{
    let mut out: Vec<u8> = Vec::new();
    out.push(98);
    out.push(121);
    out.push(116);
    out.push(101);
    out.push(115);
    out.push(61);
    let ghost prefix = out@;
    push_decimal(&mut out, start_byte);
    out.push(45);
    push_decimal(&mut out, end_byte);
    proof {
        lemma_decimal_digits_ascii(start_byte as nat);
        lemma_decimal_digits_ascii(end_byte as nat);
        assert(out@ =~= seq![98u8, 121u8, 116u8, 101u8, 115u8, 61u8] + decimal_digits(
            start_byte as nat,
        ) + seq![45u8] + decimal_digits(end_byte as nat));
    }
    ascii_string(out)
}

} // verus!
