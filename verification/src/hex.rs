//! Hexadecimal digits and big-endian numbers.
use vstd::prelude::*;

verus! {

/// `b` is an ASCII hexadecimal digit (either case).
pub open spec fn is_hex_digit(b: u8) -> bool {
    (0x30 <= b && b <= 0x39) || (0x41 <= b && b <= 0x46) || (0x61 <= b && b <= 0x66)
}

/// The value of the hexadecimal digit `b`.
pub open spec fn hex_digit_value(b: u8) -> int
    recommends
        is_hex_digit(b),
{
    if 0x30 <= b && b <= 0x39 {
        b - 0x30
    } else if 0x41 <= b && b <= 0x46 {
        b - 0x41 + 10
    } else {
        b - 0x61 + 10
    }
}

/// The byte that the two-character text `a b` denotes in hexadecimal: both
/// characters must be hexadecimal digits; anything else denotes no byte.
pub open spec fn hex_pair(a: u8, b: u8) -> Option<u8> {
    if is_hex_digit(a) && is_hex_digit(b) {
        Some((16 * hex_digit_value(a) + hex_digit_value(b)) as u8)
    } else {
        None
    }
}

/// The unsigned number whose big-endian bytes are `bytes`.
pub open spec fn be_value(bytes: Seq<u8>) -> nat
    decreases bytes.len(),
{
    if bytes.len() == 0 {
        0
    } else {
        be_value(bytes.drop_last()) * 256 + bytes.last() as nat
    }
}

pub proof fn lemma_be_value_bound(bytes: Seq<u8>)
    ensures
        bytes.len() <= 4 ==> be_value(bytes) < pow256(bytes.len()),
    decreases bytes.len(),
{
    if bytes.len() > 0 {
        lemma_be_value_bound(bytes.drop_last());
        if bytes.len() <= 4 {
            let v = be_value(bytes.drop_last());
            let p = pow256((bytes.len() - 1) as nat);
            assert(v * 256 + bytes.last() < p * 256) by (nonlinear_arith)
                requires
                    v < p,
                    bytes.last() < 256,
            ;
        }
    }
}

/// 256 to the power `n`.
pub open spec fn pow256(n: nat) -> nat
    decreases n,
{
    if n == 0 {
        1
    } else {
        256 * pow256((n - 1) as nat)
    }
}

pub fn hex_digit_exec(b: u8) -> (r: Option<u8>)
    ensures
        r is Some <==> is_hex_digit(b),
        r matches Some(v) ==> v == hex_digit_value(b),
{
    if 0x30 <= b && b <= 0x39 {
        Some(b - 0x30)
    } else if 0x41 <= b && b <= 0x46 {
        Some(b - 0x41 + 10)
    } else if 0x61 <= b && b <= 0x66 {
        Some(b - 0x61 + 10)
    } else {
        None
    }
}

/// The byte that the two-character text `a b` denotes in hexadecimal, as
/// [`hex_pair`] states.
pub fn hex_pair_exec(a: u8, b: u8) -> (r: Option<u8>)
    ensures
        r == hex_pair(a, b),
{
    match (hex_digit_exec(a), hex_digit_exec(b)) {
        (Some(x), Some(y)) => Some(16 * x + y),
        _ => None,
    }
}

/// The digits of a byte written in upper case.
pub open spec fn upper_digit(v: int) -> u8 {
    if v < 10 {
        (0x30 + v) as u8
    } else {
        (0x41 + v - 10) as u8
    }
}

/// The digits of a byte written in lower case.
pub open spec fn lower_digit(v: int) -> u8 {
    if v < 10 {
        (0x30 + v) as u8
    } else {
        (0x61 + v - 10) as u8
    }
}

/// A pair of characters denotes a byte exactly when both are hexadecimal
/// digits (`0-9`, `A-F`, `a-f`); every byte, written with two digits in
/// either case, high nibble first, reads back as itself.
pub proof fn law_hex_pair(a: u8, b: u8, v: u8)
    ensures
        hex_pair(a, b) is Some <==> ((0x30 <= a <= 0x39 || 0x41 <= a <= 0x46 || 0x61 <= a <= 0x66)
            && (0x30 <= b <= 0x39 || 0x41 <= b <= 0x46 || 0x61 <= b <= 0x66)),
        hex_pair(upper_digit(v as int / 16), upper_digit(v as int % 16)) == Some(v),
        hex_pair(lower_digit(v as int / 16), lower_digit(v as int % 16)) == Some(v),
        hex_pair(upper_digit(v as int / 16), lower_digit(v as int % 16)) == Some(v),
{
    assert(16 * (v / 16) + v % 16 == v);
}

} // verus!
