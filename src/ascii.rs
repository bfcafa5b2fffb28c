//! Fixed-width ASCII decimal fields: reading them and writing them.

use vstd::prelude::*;

verus! {

/// The byte is an ASCII decimal digit.
pub open spec fn is_digit(b: u8) -> bool {
    48 <= b <= 57
}

/// Every byte of `s` is an ASCII decimal digit.
pub open spec fn all_digits(s: Seq<u8>) -> bool {
    forall|i: int| 0 <= i < s.len() ==> is_digit(#[trigger] s[i])
}

/// The base-10 value of a string of ASCII digits, most significant first.
pub open spec fn decimal_value(s: Seq<u8>) -> nat
    decreases s.len(),
{
    if s.len() == 0 {
        0
    } else {
        decimal_value(s.drop_last()) * 10 + (s.last() - 48) as nat
    }
}

/// Ten to the power `n`.
pub open spec fn pow10(n: nat) -> nat
    decreases n,
{
    if n == 0 {
        1
    } else {
        10 * pow10((n - 1) as nat)
    }
}

/// The ASCII digits of `n`, without leading zeros (`"0"` for zero).
pub open spec fn decimal_text(n: nat) -> Seq<u8>
    decreases n,
{
    if n < 10 {
        seq![(48 + n) as u8]
    } else {
        decimal_text(n / 10).push((48 + n % 10) as u8)
    }
}

/// The last `width` ASCII digits of `n`, padded with leading zeros.
pub open spec fn padded_text(n: nat, width: nat) -> Seq<u8>
    decreases width,
{
    if width == 0 {
        Seq::empty()
    } else {
        padded_text(n / 10, (width - 1) as nat).push((48 + n % 10) as u8)
    }
}

/// The field `s[start..start + width]` read as a decimal number: `None` unless
/// every byte of it is a digit.
pub fn parse_decimal(s: &[u8], start: usize, width: usize) -> (r: Option<u64>)
    requires
        start + width <= s@.len(),
        width <= 9,
    ensures
        r == if all_digits(s@.subrange(start as int, start + width)) {
            Some(decimal_value(s@.subrange(start as int, start + width)) as u64)
        } else {
            None::<u64>
        },
        all_digits(s@.subrange(start as int, start + width)) ==> decimal_value(
            s@.subrange(start as int, start + width),
        ) < pow10(width as nat),
{
    let ghost field = s@.subrange(start as int, start + width);
    let len = s.len();
    let mut acc: u64 = 0;
    let mut k: usize = 0;
    proof {
        lemma_pow10_monotone(0, 9);
    }
    while k < width
        invariant
            len == s@.len(),
            start + width <= len,
            width <= 9,
            k <= width,
            field == s@.subrange(start as int, start + width),
            all_digits(field.take(k as int)),
            acc == decimal_value(field.take(k as int)),
            acc < pow10(k as nat),
        decreases width - k,
    {
        let b = s[start + k];
        if b < 48 || b > 57 {
            assert(!is_digit(field[k as int]));
            return None;
        }
        assert(field.take(k + 1).drop_last() =~= field.take(k as int));
        proof {
            assert(pow10(9) == 1_000_000_000) by {
                reveal_with_fuel(pow10, 10);
            }
            lemma_pow10_monotone((k + 1) as nat, 9);
        }
        assert(acc * 10 + (b - 48) < pow10(k as nat) * 10) by (nonlinear_arith)
            requires
                acc < pow10(k as nat),
                b - 48 < 10,
        ;
        assert(pow10((k + 1) as nat) == pow10(k as nat) * 10);
        acc = acc * 10 + (b - 48) as u64;
        assert(all_digits(field.take(k + 1))) by {
            assert forall|i: int| 0 <= i < k + 1 implies is_digit(#[trigger] field.take(k + 1)[i]) by {
                if i < k {
                    assert(field.take(k + 1)[i] == field.take(k as int)[i]);
                }
            }
        }
        k += 1;
    }
    assert(field.take(width as int) =~= field);
    Some(acc)
}

/// Ten to a larger power is larger.
pub proof fn lemma_pow10_monotone(a: nat, b: nat)
    requires
        a <= b,
    ensures
        pow10(a) <= pow10(b),
    decreases b - a,
{
    if a < b {
        lemma_pow10_monotone(a, (b - 1) as nat);
    }
}

/// Appends the digits of `n` without leading zeros.
pub fn push_decimal(out: &mut Vec<u8>, n: u64)
    ensures
        final(out)@ == old(out)@ + decimal_text(n as nat),
    decreases n,
{
    if n < 10 {
        out.push(48 + n as u8);
    } else {
        push_decimal(out, n / 10);
        out.push(48 + (n % 10) as u8);
    }
    assert(final(out)@ =~= old(out)@ + decimal_text(n as nat));
}

/// Appends the last `width` digits of `n`, padded with leading zeros.
pub fn push_padded(out: &mut Vec<u8>, n: u64, width: usize)
    ensures
        final(out)@ == old(out)@ + padded_text(n as nat, width as nat),
    decreases width,
{
    if width > 0 {
        push_padded(out, n / 10, width - 1);
        out.push(48 + (n % 10) as u8);
    }
    assert(final(out)@ =~= old(out)@ + padded_text(n as nat, width as nat));
}

/// Whether a byte string is well-formed UTF-8.
pub uninterp spec fn utf8_valid(b: Seq<u8>) -> bool;

/// Every byte of `b` is ASCII.
pub open spec fn is_ascii_bytes(b: Seq<u8>) -> bool {
    forall|i: int| 0 <= i < b.len() ==> #[trigger] b[i] < 128
}

/// The characters of an ASCII byte string, one per byte.
pub open spec fn ascii_chars(b: Seq<u8>) -> Seq<char> {
    b.map_values(|c: u8| c as char)
}

/// Relies on std's `str::from_utf8`: it succeeds exactly on well-formed UTF-8,
/// and reads an ASCII byte string as one character per byte.
#[verifier::external_body]
pub(crate) fn utf8_text(b: &[u8]) -> (r: Option<&str>)
    ensures
        r.is_some() == utf8_valid(b@),
        is_ascii_bytes(b@) ==> r.is_some() && r.unwrap()@ == ascii_chars(b@),
{
    std::str::from_utf8(b).ok()
}

} // verus!
