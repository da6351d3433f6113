//! Line splitting and whitespace trimming over the UTF-8 bytes of a text.
//!
//! A line is a maximal run of bytes without `'\n'`. Trimming removes, at both
//! ends, the UTF-8 encodings of the characters that Unicode marks as
//! `White_Space` (the ASCII ones `'\t'`, `'\n'`, VT, FF, `'\r'`, `' '`, and
//! U+0085, U+00A0, U+1680, U+2000..=U+200A, U+2028, U+2029, U+202F, U+205F,
//! U+3000).
use vstd::prelude::*;

verus! {

/// An ASCII whitespace byte: `' '` or one of `'\t'`, `'\n'`, VT, FF, `'\r'`.
pub open spec fn is_ascii_ws(b: u8) -> bool {
    b == 0x20 || (0x09 <= b && b <= 0x0d)
}

/// The two-byte encodings of U+0085 and U+00A0.
pub open spec fn is_ws2(a: u8, b: u8) -> bool {
    a == 0xc2 && (b == 0x85 || b == 0xa0)
}

/// The three-byte encodings of U+1680, U+2000..=U+200A, U+2028, U+2029,
/// U+202F, U+205F and U+3000.
pub open spec fn is_ws3(a: u8, b: u8, c: u8) -> bool {
    ||| (a == 0xe1 && b == 0x9a && c == 0x80)
    ||| (a == 0xe2 && b == 0x80 && ((0x80 <= c && c <= 0x8a) || c == 0xa8 || c == 0xa9 || c == 0xaf))
    ||| (a == 0xe2 && b == 0x81 && c == 0x9f)
    ||| (a == 0xe3 && b == 0x80 && c == 0x80)
}

/// Length of the whitespace character encoded at the start of `t`, or 0.
pub open spec fn ws_lead_len(t: Seq<u8>) -> int {
    if t.len() >= 1 && is_ascii_ws(t[0]) {
        1
    } else if t.len() >= 2 && is_ws2(t[0], t[1]) {
        2
    } else if t.len() >= 3 && is_ws3(t[0], t[1], t[2]) {
        3
    } else {
        0
    }
}

/// Length of the whitespace character encoded at the end of `t`, or 0.
pub open spec fn ws_trail_len(t: Seq<u8>) -> int {
    let n = t.len() as int;
    if n >= 1 && is_ascii_ws(t[n - 1]) {
        1
    } else if n >= 2 && is_ws2(t[n - 2], t[n - 1]) {
        2
    } else if n >= 3 && is_ws3(t[n - 3], t[n - 2], t[n - 1]) {
        3
    } else {
        0
    }
}

/// `t` without its leading whitespace characters.
pub open spec fn trim_start(t: Seq<u8>) -> Seq<u8>
    decreases t.len(),
{
    let k = ws_lead_len(t);
    if k > 0 {
        trim_start(t.skip(k))
    } else {
        t
    }
}

/// `t` without its trailing whitespace characters.
pub open spec fn trim_end(t: Seq<u8>) -> Seq<u8>
    decreases t.len(),
{
    let k = ws_trail_len(t);
    if k > 0 {
        trim_end(t.take(t.len() - k))
    } else {
        t
    }
}

/// `t` without whitespace at either end.
pub open spec fn trim(t: Seq<u8>) -> Seq<u8> {
    trim_end(trim_start(t))
}

/// Index of the first `'\n'` at or after `i`, or the length of `s`.
pub open spec fn line_end(s: Seq<u8>, i: int) -> int
    decreases s.len() - i,
{
    if i >= s.len() {
        s.len() as int
    } else if s[i] == 0x0a {
        i
    } else {
        line_end(s, i + 1)
    }
}

pub proof fn lemma_line_end_bounds(s: Seq<u8>, i: int)
    requires
        0 <= i <= s.len(),
    ensures
        i <= line_end(s, i) <= s.len(),
        line_end(s, i) < s.len() ==> s[line_end(s, i)] == 0x0a,
        forall|k: int| i <= k < line_end(s, i) ==> s[k] != 0x0a,
    decreases s.len() - i,
{
    if i < s.len() && s[i] != 0x0a {
        lemma_line_end_bounds(s, i + 1);
    }
}

fn ws_lead_at(s: &[u8], i: usize, e: usize) -> (k: usize)
    requires
        i <= e <= s@.len(),
    ensures
        k as int == ws_lead_len(s@.subrange(i as int, e as int)),
{
    let ghost t = s@.subrange(i as int, e as int);
    let n = e - i;
    if n >= 1 && (s[i] == 0x20 || (0x09 <= s[i] && s[i] <= 0x0d)) {
        1
    } else if n >= 2 && s[i] == 0xc2 && (s[i + 1] == 0x85 || s[i + 1] == 0xa0) {
        assert(t[0] == s@[i as int] && t[1] == s@[i + 1]);
        2
    } else if n >= 3 && is_ws3_exec(s[i], s[i + 1], s[i + 2]) {
        assert(t[0] == s@[i as int] && t[1] == s@[i + 1] && t[2] == s@[i + 2]);
        3
    } else {
        proof {
            if n >= 2 {
                assert(t[0] == s@[i as int] && t[1] == s@[i + 1]);
            }
            if n >= 3 {
                assert(t[2] == s@[i + 2]);
            }
        }
        0
    }
}

fn ws_trail_at(s: &[u8], i: usize, e: usize) -> (k: usize)
    requires
        i <= e <= s@.len(),
    ensures
        k as int == ws_trail_len(s@.subrange(i as int, e as int)),
{
    let ghost t = s@.subrange(i as int, e as int);
    let n = e - i;
    if n >= 1 && (s[e - 1] == 0x20 || (0x09 <= s[e - 1] && s[e - 1] <= 0x0d)) {
        1
    } else if n >= 2 && s[e - 2] == 0xc2 && (s[e - 1] == 0x85 || s[e - 1] == 0xa0) {
        assert(t[n - 2] == s@[e - 2] && t[n - 1] == s@[e - 1]);
        2
    } else if n >= 3 && is_ws3_exec(s[e - 3], s[e - 2], s[e - 1]) {
        assert(t[n - 3] == s@[e - 3] && t[n - 2] == s@[e - 2] && t[n - 1] == s@[e - 1]);
        3
    } else {
        proof {
            if n >= 2 {
                assert(t[n - 2] == s@[e - 2] && t[n - 1] == s@[e - 1]);
            }
            if n >= 3 {
                assert(t[n - 3] == s@[e - 3]);
            }
        }
        0
    }
}

fn is_ws3_exec(a: u8, b: u8, c: u8) -> (r: bool)
    ensures
        r == is_ws3(a, b, c),
{
    (a == 0xe1 && b == 0x9a && c == 0x80) || (a == 0xe2 && b == 0x80 && ((0x80 <= c && c <= 0x8a)
        || c == 0xa8 || c == 0xa9 || c == 0xaf)) || (a == 0xe2 && b == 0x81 && c == 0x9f) || (a
        == 0xe3 && b == 0x80 && c == 0x80)
}

/// The bounds of `s[start..end]` with whitespace trimmed at both ends.
pub fn trim_bounds(s: &[u8], start: usize, end: usize) -> (r: (usize, usize))
    requires
        start <= end <= s@.len(),
    ensures
        start <= r.0 <= r.1 <= end,
        s@.subrange(r.0 as int, r.1 as int) == trim(s@.subrange(start as int, end as int)),
{
    let mut i = start;
    while i < end
        invariant
            start <= i <= end <= s@.len(),
            trim_start(s@.subrange(start as int, end as int)) == trim_start(
                s@.subrange(i as int, end as int),
            ),
        ensures
            start <= i <= end,
            trim_start(s@.subrange(start as int, end as int)) == trim_start(
                s@.subrange(i as int, end as int),
            ),
            ws_lead_len(s@.subrange(i as int, end as int)) == 0,
        decreases end - i,
    {
        let k = ws_lead_at(s, i, end);
        if k == 0 {
            break;
        }
        assert(s@.subrange(i as int, end as int).skip(k as int) =~= s@.subrange(
            i + k,
            end as int,
        ));
        i = i + k;
    }
    let mut e = end;
    while e > i
        invariant
            start <= i <= e <= end <= s@.len(),
            trim_end(trim_start(s@.subrange(start as int, end as int))) == trim_end(
                s@.subrange(i as int, e as int),
            ),
        ensures
            i <= e <= end,
            trim_end(trim_start(s@.subrange(start as int, end as int))) == trim_end(
                s@.subrange(i as int, e as int),
            ),
            ws_trail_len(s@.subrange(i as int, e as int)) == 0,
        decreases e - i,
    {
        let k = ws_trail_at(s, i, e);
        if k == 0 {
            break;
        }
        assert(s@.subrange(i as int, e as int).take(e - i - k) =~= s@.subrange(
            i as int,
            e - k,
        ));
        e = e - k;
    }
    (i, e)
}

/// The index of the first `'\n'` in `s` at or after `i`, or `s.len()`.
pub fn find_line_end(s: &[u8], i: usize) -> (j: usize)
    requires
        i <= s@.len(),
    ensures
        j as int == line_end(s@, i as int),
{
    let mut j = i;
    while j < s.len() && s[j] != 0x0a
        invariant
            i <= j <= s@.len(),
            line_end(s@, i as int) == line_end(s@, j as int),
        decreases s@.len() - j,
    {
        j = j + 1;
    }
    j
}

} // verus!
