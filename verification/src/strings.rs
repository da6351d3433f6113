//! Text building blocks: hexadecimal and decimal numbers, padding, repetition.
use vstd::prelude::*;

verus! {

/// The upper-case hexadecimal digit of `v < 16`.
pub open spec fn hex_digit_char(v: u8) -> char {
    if v < 10 {
        (0x30 + v) as char
    } else {
        (0x41 + v - 10) as char
    }
}

/// `n` copies of `c`.
pub open spec fn repeat(c: char, n: nat) -> Seq<char> {
    Seq::new(n, |i: int| c)
}

/// `s` followed by spaces up to `w` characters (`{:<w$}`).
pub open spec fn pad_right(s: Seq<char>, w: int) -> Seq<char> {
    if s.len() < w {
        s + repeat(' ', (w - s.len()) as nat)
    } else {
        s
    }
}

/// `s` preceded by spaces up to `w` characters (`{:>w$}`).
pub open spec fn pad_left(s: Seq<char>, w: int) -> Seq<char> {
    if s.len() < w {
        repeat(' ', (w - s.len()) as nat) + s
    } else {
        s
    }
}

/// The decimal digit of `d < 10`.
pub open spec fn dec_digit_char(d: nat) -> char {
    (0x30 + d) as char
}

/// The decimal text of `n` (`{}`).
pub open spec fn dec_text(n: nat) -> Seq<char>
    decreases n,
{
    if n < 10 {
        seq![dec_digit_char(n)]
    } else {
        dec_text(n / 10).push(dec_digit_char(n % 10))
    }
}

/// The eight upper-case hexadecimal digits of `v` (`{:08X}`).
pub open spec fn hex8_text(v: u32) -> Seq<char> {
    Seq::new(8, |i: int| hex_digit_char(((v >> ((28 - 4 * i) as u32)) & 0xf) as u8))
}

/// Appends `c` to `s`.
/// Calls `String::push`; the contract claims that the text of `s` gains `c`
/// at its end, as the documentation of `String::push` says.
#[verifier::external_body]
pub(crate) fn push_char(s: &mut String, c: char)
    ensures
        final(s)@ == old(s)@.push(c),
{
    s.push(c)
}

/// The hexadecimal digit of `v < 16`.
pub fn hex_digit_char_exec(v: u8) -> (c: char)
    requires
        v < 16,
    ensures
        c == hex_digit_char(v),
{
    if v < 10 {
        (0x30 + v) as char
    } else {
        (0x41 + v - 10) as char
    }
}

/// Appends `n` copies of `c`.
pub fn push_repeat(s: &mut String, c: char, n: usize)
    ensures
        final(s)@ == old(s)@ + repeat(c, n as nat),
{
    let ghost s0 = s@;
    for i in 0..n
        invariant
            s@ == s0 + repeat(c, i as nat),
    {
        push_char(s, c);
        assert(s@ =~= s0 + repeat(c, (i + 1) as nat));
    }
    assert(s@ =~= s0 + repeat(c, n as nat));
}

/// Appends the decimal text of `n`.
pub fn push_dec(s: &mut String, n: usize)
    ensures
        final(s)@ == old(s)@ + dec_text(n as nat),
    decreases n,
{
    let ghost s0 = s@;
    if n >= 10 {
        push_dec(s, n / 10);
    }
    let d = (n % 10) as u8;
    let c = (0x30 + d) as char;
    push_char(s, c);
    proof {
        if n >= 10 {
            assert(s@ =~= s0 + dec_text(n as nat));
        } else {
            assert(s@ =~= s0 + dec_text(n as nat));
        }
    }
}

/// Appends the eight upper-case hexadecimal digits of `v`.
pub fn push_hex8(s: &mut String, v: u32)
    ensures
        final(s)@ == old(s)@ + hex8_text(v),
{
    let ghost s0 = s@;
    for i in 0..8usize
        invariant
            s@ == s0 + hex8_text(v).take(i as int),
    {
        let sh: u32 = 28 - 4 * (i as u32);
        let nib = ((v >> sh) & 0xf) as u8;
        assert(((v >> sh) & 0xf) < 16) by (bit_vector);
        let c = hex_digit_char_exec(nib);
        push_char(s, c);
        assert(s@ =~= s0 + hex8_text(v).take(i + 1));
    }
    assert(hex8_text(v).take(8) =~= hex8_text(v));
}

/// Appends `t` padded with spaces on the right to `w` characters.
pub fn push_pad_right(s: &mut String, t: &str, w: usize)
    ensures
        final(s)@ == old(s)@ + pad_right(t@, w as int),
{
    let n = t.unicode_len();
    s.append(t);
    if n < w {
        push_repeat(s, ' ', w - n);
    }
}

/// The value of a decimal or upper-case hexadecimal digit, or -1.
pub open spec fn digit_value(c: char) -> int {
    if '0' <= c && c <= '9' {
        c as int - 0x30
    } else if 'A' <= c && c <= 'F' {
        c as int - 0x41 + 10
    } else {
        -1
    }
}

/// The number that the decimal digits `s` spell.
pub open spec fn dec_value(s: Seq<char>) -> int
    decreases s.len(),
{
    if s.len() == 0 {
        0
    } else {
        dec_value(s.drop_last()) * 10 + digit_value(s.last())
    }
}

/// 16 to the power `k`.
pub open spec fn pow16(k: nat) -> nat
    decreases k,
{
    if k == 0 {
        1
    } else {
        16 * pow16((k - 1) as nat)
    }
}

/// A hexadecimal digit shows its value as `'0'..='9'` or `'A'..='F'`.
pub proof fn law_hex_digit_char(v: u8)
    requires
        v < 16,
    ensures
        digit_value(hex_digit_char(v)) == v,
        ('0' <= hex_digit_char(v) && hex_digit_char(v) <= '9') || ('A' <= hex_digit_char(v)
            && hex_digit_char(v) <= 'F'),
{
}

/// The decimal text of `n` is one or more digits `'0'..='9'` that spell `n`,
/// with no leading zero except for `n == 0` itself.
pub proof fn law_dec_text(n: nat)
    ensures
        dec_text(n).len() >= 1,
        forall|k: int| 0 <= k < dec_text(n).len() ==> '0' <= #[trigger] dec_text(n)[k] <= '9',
        dec_value(dec_text(n)) == n,
        dec_text(n)[0] == '0' ==> n == 0 && dec_text(n).len() == 1,
    decreases n,
{
    if n >= 10 {
        law_dec_text(n / 10);
        let s = dec_text(n);
        assert(s.drop_last() =~= dec_text(n / 10));
        assert(s[0] == dec_text(n / 10)[0]);
        let d = n % 10;
        assert(digit_value(dec_digit_char(d)) == d);
        assert(s.last() == dec_digit_char(d));
        assert(dec_value(s) == dec_value(dec_text(n / 10)) * 10 + d);
        assert((n / 10) * 10 + d == n);
    } else {
        assert(digit_value(dec_digit_char(n)) == n);
        assert(dec_text(n).drop_last() =~= Seq::<char>::empty());
        assert(dec_value(Seq::<char>::empty()) == 0);
    }
}

/// The eight-digit hexadecimal text of `v`: digit `i` is the `(7 - i)`-th
/// base-16 digit of `v`, so the text spells `v`.
pub proof fn law_hex8_text(v: u32)
    ensures
        hex8_text(v).len() == 8,
        forall|i: int|
            0 <= i < 8 ==> digit_value(#[trigger] hex8_text(v)[i]) == (v as int / pow16(
                (7 - i) as nat,
            ) as int) % 16,
{
    assert(pow16(0) == 1);
    assert(pow16(1) == 0x10);
    assert(pow16(2) == 0x100);
    assert(pow16(3) == 0x1000);
    assert(pow16(4) == 0x10000);
    assert(pow16(5) == 0x100000);
    assert(pow16(6) == 0x1000000);
    assert(pow16(7) == 0x10000000);
    assert((v >> 28u32) & 0xf == (v / 0x10000000) % 16) by (bit_vector);
    assert((v >> 24u32) & 0xf == (v / 0x1000000) % 16) by (bit_vector);
    assert((v >> 20u32) & 0xf == (v / 0x100000) % 16) by (bit_vector);
    assert((v >> 16u32) & 0xf == (v / 0x10000) % 16) by (bit_vector);
    assert((v >> 12u32) & 0xf == (v / 0x1000) % 16) by (bit_vector);
    assert((v >> 8u32) & 0xf == (v / 0x100) % 16) by (bit_vector);
    assert((v >> 4u32) & 0xf == (v / 0x10) % 16) by (bit_vector);
    assert((v >> 0u32) & 0xf == v % 16) by (bit_vector);
    assert forall|i: int| 0 <= i < 8 implies digit_value(#[trigger] hex8_text(v)[i]) == (v as int
        / pow16((7 - i) as nat) as int) % 16 by {
        let x: u32 = v >> ((28 - 4 * i) as u32);
        assert(x & 0xf < 16) by (bit_vector);
        let d = (x & 0xf) as u8;
        law_hex_digit_char(d);
        assert(hex8_text(v)[i] == hex_digit_char(d));
        if i == 0 {
            assert(x == v >> 28u32);
            assert(pow16((7 - i) as nat) == 0x10000000);
            assert(d as int == (v as int / 0x10000000) % 16);
        } else if i == 1 {
            assert(x == v >> 24u32);
            assert(pow16((7 - i) as nat) == 0x1000000);
            assert(d as int == (v as int / 0x1000000) % 16);
        } else if i == 2 {
            assert(x == v >> 20u32);
            assert(pow16((7 - i) as nat) == 0x100000);
            assert(d as int == (v as int / 0x100000) % 16);
        } else if i == 3 {
            assert(x == v >> 16u32);
            assert(pow16((7 - i) as nat) == 0x10000);
            assert(d as int == (v as int / 0x10000) % 16);
        } else if i == 4 {
            assert(x == v >> 12u32);
            assert(pow16((7 - i) as nat) == 0x1000);
            assert(d as int == (v as int / 0x1000) % 16);
        } else if i == 5 {
            assert(x == v >> 8u32);
            assert(pow16((7 - i) as nat) == 0x100);
            assert(d as int == (v as int / 0x100) % 16);
        } else if i == 6 {
            assert(x == v >> 4u32);
            assert(pow16((7 - i) as nat) == 0x10);
            assert(d as int == (v as int / 0x10) % 16);
        } else if i == 7 {
            assert(x == v >> 0u32);
            assert(pow16((7 - i) as nat) == 0x1);
            assert(d as int == (v as int / 0x1) % 16);
        }
    }
}

/// Padding on the right keeps the text and appends spaces up to the width;
/// padding on the left puts the spaces first. A text as wide as the width or
/// wider stays as it is.
pub proof fn law_padding(s: Seq<char>, w: int)
    ensures
        pad_right(s, w).len() == (if s.len() < w {
            w
        } else {
            s.len() as int
        }),
        pad_left(s, w).len() == pad_right(s, w).len(),
        pad_right(s, w).take(s.len() as int) == s,
        pad_left(s, w).skip(pad_left(s, w).len() - s.len()) == s,
        forall|k: int| s.len() <= k < pad_right(s, w).len() ==> #[trigger] pad_right(s, w)[k] == ' ',
        forall|k: int|
            0 <= k < pad_left(s, w).len() - s.len() ==> #[trigger] pad_left(s, w)[k] == ' ',
{
    assert(pad_right(s, w).take(s.len() as int) =~= s);
    assert(pad_left(s, w).skip(pad_left(s, w).len() - s.len()) =~= s);
}

} // verus!
