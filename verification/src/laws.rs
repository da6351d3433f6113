//! Laws of the S19 parser.
use vstd::prelude::*;
use crate::hex::{hex_pair, is_hex_digit, hex_digit_value, be_value, pow256, lemma_be_value_bound};
use crate::parse::{
    record_kind, body_pair, pairs_valid, pairs_bytes, line_record, line_records, parse_from,
    parse_text, is_boundary, pairs_cut_whole, line_cuts_whole,
};
use crate::record::RecordModel;
use crate::text::{
    trim, trim_start, trim_end, ws_lead_len, ws_trail_len, is_ascii_ws, line_end,
    lemma_line_end_bounds,
};
use vstd::utf8::{
    valid_utf8, encode_utf8, encode_utf8_valid_utf8, pop_first_scalar, length_of_first_scalar,
    valid_first_scalar, valid_leading_and_continuation_bytes_first_codepoint,
};

verus! {

/// What every parsed record satisfies: its type is 1, 2 or 3, its address
/// fits the 2, 3 or 4 address bytes of that type, and address, data and
/// checksum fit the one-byte byte count.
pub open spec fn record_shape_ok(r: RecordModel) -> bool {
    &&& 1 <= r.0 <= 3
    &&& r.1 < pow256((r.0 + 1) as nat)
    &&& r.2.len() + r.0 + 2 <= 255
}

/// The upper-case hexadecimal digit of `v < 16`.
pub open spec fn hex_char(v: u8) -> u8 {
    if v < 10 {
        (0x30 + v) as u8
    } else {
        (0x41 + v - 10) as u8
    }
}

/// Two upper-case hexadecimal digits per byte of `bytes`.
pub open spec fn hex_text(bytes: Seq<u8>) -> Seq<u8> {
    Seq::new(
        2 * bytes.len(),
        |i: int|
            if i % 2 == 0 {
                hex_char(bytes[i / 2] / 16)
            } else {
                hex_char(bytes[i / 2] % 16)
            },
    )
}

/// The `n` big-endian bytes of `a`.
pub open spec fn be_bytes(a: nat, n: nat) -> Seq<u8>
    decreases n,
{
    if n == 0 {
        Seq::empty()
    } else {
        be_bytes(a / 256, (n - 1) as nat).push((a % 256) as u8)
    }
}

/// The S-record line of record `r` with checksum byte `checksum`:
/// `S`, the type digit, then in hexadecimal the byte count, the address
/// bytes, the data and the checksum.
pub open spec fn record_line(r: RecordModel, checksum: u8) -> Seq<u8> {
    let aw = (r.0 + 1) as nat;
    let bc = aw + r.2.len() + 1;
    seq![0x53u8, (0x30 + r.0) as u8] + hex_text(
        seq![bc as u8] + be_bytes(r.1 as nat, aw) + r.2 + seq![checksum],
    )
}

proof fn lemma_hex_char_pair(b: u8)
    ensures
        hex_pair(hex_char(b / 16), hex_char(b % 16)) == Some(b),
        is_hex_digit(hex_char(b / 16)),
        is_hex_digit(hex_char(b % 16)),
        hex_char(b % 16) < 0x80,
        hex_char(b / 16) < 0x80,
{
    let hi = b / 16;
    let lo = b % 16;
    assert(hex_digit_value(hex_char(hi)) == hi);
    assert(hex_digit_value(hex_char(lo)) == lo);
    assert(16 * hi + lo == b);
}

proof fn lemma_be_bytes(a: nat, n: nat)
    requires
        a < pow256(n),
    ensures
        be_bytes(a, n).len() == n,
        be_value(be_bytes(a, n)) == a,
    decreases n,
{
    if n > 0 {
        assert(a / 256 < pow256((n - 1) as nat)) by (nonlinear_arith)
            requires
                a < 256 * pow256((n - 1) as nat),
        ;
        lemma_be_bytes(a / 256, (n - 1) as nat);
        let s = be_bytes(a, n);
        assert(s.drop_last() =~= be_bytes(a / 256, (n - 1) as nat));
    }
}

proof fn lemma_no_newline_line_end(s: Seq<u8>, i: int)
    requires
        0 <= i <= s.len(),
        forall|k: int| i <= k < s.len() ==> s[k] != 0x0a,
    ensures
        line_end(s, i) == s.len(),
    decreases s.len() - i,
{
    if i < s.len() {
        lemma_no_newline_line_end(s, i + 1);
    }
}

/// Every record of every text is well shaped: type 1, 2 or 3, an address
/// that fits its type's address width, and a byte count of at most 255.
pub proof fn law_records_well_shaped(s: Seq<u8>)
    ensures
        forall|k: int|
            0 <= k < parse_text(s).len() ==> record_shape_ok(#[trigger] parse_text(s)[k]),
{
    lemma_parse_from_shaped(s, 0);
}

proof fn lemma_line_record_shaped(t: Seq<u8>)
    ensures
        line_record(t) matches Some(r) ==> record_shape_ok(r),
{
    if let Some(r) = line_record(t) {
        let (rt, aw) = record_kind(t[0], t[1]).unwrap();
        let bc = hex_pair(t[2], t[3]).unwrap();
        let bytes = pairs_bytes(t.skip(4), bc as int);
        lemma_be_value_bound(bytes.take(aw));
        assert(pow256(0) == 1);
        assert(pow256(1) == 256);
        assert(pow256(2) == 65536);
        assert(pow256(3) == 0x1000000);
        assert(pow256(4) == 0x100000000);
    }
}

proof fn lemma_parse_from_shaped(s: Seq<u8>, i: int)
    ensures
        forall|k: int|
            0 <= k < parse_from(s, i).len() ==> record_shape_ok(#[trigger] parse_from(s, i)[k]),
    decreases s.len() - i,
{
    if 0 <= i <= s.len() {
        lemma_line_end_bounds(s, i);
        let j = line_end(s, i);
        let t = trim(s.subrange(i, j));
        lemma_line_record_shaped(t);
        let head = line_records(s.subrange(i, j));
        let tail = if j < s.len() {
            parse_from(s, j + 1)
        } else {
            Seq::empty()
        };
        if j < s.len() {
            lemma_parse_from_shaped(s, j + 1);
        }
        assert(parse_from(s, i) == head + tail);
        assert forall|k: int| 0 <= k < parse_from(s, i).len() implies record_shape_ok(
            #[trigger] parse_from(s, i)[k],
        ) by {
            if k < head.len() {
                assert(parse_from(s, i)[k] == head[k]);
            } else {
                assert(parse_from(s, i)[k] == tail[k - head.len()]);
            }
        }
    }
}

proof fn lemma_hex_text(all: Seq<u8>)
    ensures
        hex_text(all).len() == 2 * all.len(),
        forall|k: int|
            0 <= k < all.len() ==> #[trigger] hex_pair(hex_text(all)[2 * k], hex_text(all)[2 * k + 1])
                == Some(all[k]),
        forall|i: int|
            0 <= i < hex_text(all).len() ==> #[trigger] hex_text(all)[i] < 0x80 && is_hex_digit(
                hex_text(all)[i],
            ),
{
    let h = hex_text(all);
    assert forall|k: int| 0 <= k < all.len() implies #[trigger] hex_pair(h[2 * k], h[2 * k + 1])
        == Some(all[k]) by {
        assert(h[2 * k] == hex_char(all[k] / 16));
        assert(h[2 * k + 1] == hex_char(all[k] % 16));
        lemma_hex_char_pair(all[k]);
    }
    assert forall|i: int| 0 <= i < h.len() implies #[trigger] h[i] < 0x80 && is_hex_digit(h[i]) by {
        lemma_hex_char_pair(all[i / 2]);
    }
}

/// A record written as an S-record line, with any checksum byte, reads back
/// as exactly that record.
pub proof fn law_record_line_round_trip(r: RecordModel, checksum: u8)
    requires
        record_shape_ok(r),
    ensures
        parse_text(record_line(r, checksum)) == seq![r],
{
    let aw = (r.0 + 1) as nat;
    let bc = aw + r.2.len() + 1;
    let addr = be_bytes(r.1 as nat, aw);
    lemma_be_bytes(r.1 as nat, aw);
    let rest = addr + r.2 + seq![checksum];
    let all = seq![bc as u8] + rest;
    let l = record_line(r, checksum);
    let h = hex_text(all);
    lemma_hex_text(all);
    assert(l =~= seq![0x53u8, (0x30 + r.0) as u8] + h);
    assert(l.len() == 2 + 2 * (bc + 1));
    assert forall|k: int| 0 <= k < l.len() implies #[trigger] l[k] < 0x80 && l[k] != 0x0a && (k >= 2
        ==> is_hex_digit(l[k])) by {
        if k >= 2 {
            assert(l[k] == h[k - 2]);
        }
    }
    assert(line_end_free(l));
    lemma_trim_plain(l);
    lemma_no_newline_line_end(l, 0);
    assert(l.subrange(0, l.len() as int) =~= l);
    lemma_line_of_record(r, checksum);
}

/// `t` has no line break and no byte outside ASCII.
spec fn line_end_free(t: Seq<u8>) -> bool {
    forall|k: int| 0 <= k < t.len() ==> #[trigger] t[k] < 0x80 && t[k] != 0x0a
}

proof fn lemma_trim_plain(l: Seq<u8>)
    requires
        l.len() >= 4,
        l[0] == 0x53,
        line_end_free(l),
        is_hex_digit(l[l.len() - 1]),
    ensures
        trim(l) == l,
{
    assert(l[l.len() - 1] < 0x80);
    assert(ws_lead_len(l) == 0);
    assert(trim_start(l) == l);
    assert(ws_trail_len(l) == 0);
}

proof fn lemma_line_of_record(r: RecordModel, checksum: u8)
    requires
        record_shape_ok(r),
    ensures
        line_record(record_line(r, checksum)) == Some(r),
{
    let aw = (r.0 + 1) as nat;
    let bc = aw + r.2.len() + 1;
    let addr = be_bytes(r.1 as nat, aw);
    lemma_be_bytes(r.1 as nat, aw);
    let rest = addr + r.2 + seq![checksum];
    let all = seq![bc as u8] + rest;
    let l = record_line(r, checksum);
    let h = hex_text(all);
    lemma_hex_text(all);
    assert(l =~= seq![0x53u8, (0x30 + r.0) as u8] + h);
    assert(record_kind(l[0], l[1]) == Some((r.0, aw as int)));
    assert(l[2] == h[0] && l[3] == h[1]);
    assert(hex_pair(h[2 * 0int], h[2 * 0int + 1]) == Some(all[0int]));
    assert(hex_pair(l[2], l[3]) == Some(bc as u8));
    let body = l.skip(4);
    assert forall|k: int| 0 <= k < bc implies #[trigger] body_pair(body, k) == Some(rest[k]) by {
        assert(body[2 * k] == h[2 * (k + 1)]);
        assert(body[2 * k + 1] == h[2 * (k + 1) + 1]);
        assert(hex_pair(h[2 * (k + 1)], h[2 * (k + 1) + 1]) == Some(all[k + 1]));
    }
    assert(pairs_valid(body, bc as int));
    assert(pairs_bytes(body, bc as int) =~= rest);
    assert(rest.take(aw as int) =~= addr);
    assert(rest.subrange(aw as int, bc - 1) =~= r.2);
}

/// Line splitting: the records of two texts joined by a line break are the
/// records of the first followed by those of the second.
pub proof fn law_lines_independent(a: Seq<u8>, b: Seq<u8>)
    ensures
        parse_text(a + seq![0x0au8] + b) == parse_text(a) + parse_text(b),
{
    let c = a + seq![0x0au8] + b;
    lemma_parse_from_suffix(c, a.len() + 1 as int);
    assert(c.skip(a.len() + 1 as int) =~= b);
    lemma_join_from(a, b, 0);
}

/// Reading from a line start depends only on the text from there on.
proof fn lemma_parse_from_suffix(s: Seq<u8>, d: int)
    requires
        0 <= d <= s.len(),
    ensures
        parse_from(s, d) == parse_text(s.skip(d)),
{
    lemma_parse_from_shift(s, d, d);
}

proof fn lemma_line_end_shift(s: Seq<u8>, d: int, i: int)
    requires
        0 <= d <= i <= s.len(),
    ensures
        line_end(s, i) == line_end(s.skip(d), i - d) + d,
    decreases s.len() - i,
{
    if i < s.len() && s[i] != 0x0a {
        lemma_line_end_shift(s, d, i + 1);
    }
}

proof fn lemma_parse_from_shift(s: Seq<u8>, d: int, i: int)
    requires
        0 <= d <= i <= s.len(),
    ensures
        parse_from(s, i) == parse_from(s.skip(d), i - d),
    decreases s.len() - i,
{
    let t = s.skip(d);
    lemma_line_end_shift(s, d, i);
    lemma_line_end_bounds(s, i);
    let j = line_end(s, i);
    assert(s.subrange(i, j) =~= t.subrange(i - d, j - d));
    if j < s.len() {
        lemma_parse_from_shift(s, d, j + 1);
    }
}

proof fn lemma_line_end_join(a: Seq<u8>, b: Seq<u8>, i: int)
    requires
        0 <= i <= a.len(),
    ensures
        line_end(a + seq![0x0au8] + b, i) == line_end(a, i),
    decreases a.len() - i,
{
    let c = a + seq![0x0au8] + b;
    if i < a.len() {
        assert(c[i] == a[i]);
        if a[i] != 0x0a {
            lemma_line_end_join(a, b, i + 1);
        }
    } else {
        assert(c[i] == 0x0a);
    }
}

proof fn lemma_join_from(a: Seq<u8>, b: Seq<u8>, i: int)
    requires
        0 <= i <= a.len(),
    ensures
        parse_from(a + seq![0x0au8] + b, i) == parse_from(a, i) + parse_text(b),
    decreases a.len() - i,
{
    let c = a + seq![0x0au8] + b;
    lemma_line_end_join(a, b, i);
    lemma_line_end_bounds(a, i);
    lemma_line_end_bounds(c, i);
    let j = line_end(a, i);
    assert(c.subrange(i, j) =~= a.subrange(i, j));
    if j < a.len() {
        lemma_join_from(a, b, j + 1);
        assert(line_records(a.subrange(i, j)) + (parse_from(a, j + 1) + parse_text(b))
            =~= line_records(a.subrange(i, j)) + parse_from(a, j + 1) + parse_text(b));
    } else {
        lemma_parse_from_suffix(c, a.len() + 1 as int);
        assert(c.skip(a.len() + 1 as int) =~= b);
        assert(parse_from(a, i) =~= line_records(a.subrange(i, j)));
    }
}

/// No continuation byte (0x80..=0xbf) directly follows an ASCII byte, as in
/// every valid UTF-8 text and every piece of one.
pub open spec fn no_stray_continuation(t: Seq<u8>) -> bool {
    forall|k: int|
        0 < k < t.len() && 0x80 <= #[trigger] t[k] && t[k] <= 0xbf ==> t[k - 1] >= 0x80
}

proof fn lemma_utf8_no_stray(b: Seq<u8>)
    requires
        valid_utf8(b),
    ensures
        no_stray_continuation(b),
    decreases b.len(),
{
    if b.len() > 0 {
        let n = length_of_first_scalar(b);
        let rest = pop_first_scalar(b);
        assert(rest.len() < b.len());
        lemma_utf8_no_stray(rest);
        assert forall|k: int| 0 < k < b.len() && 0x80 <= #[trigger] b[k] && b[k] <= 0xbf implies b[k
            - 1] >= 0x80 by {
            if k >= n {
                assert(b[k] == rest[k - n]);
                if k > n {
                    assert(b[k - 1] == rest[k - 1 - n]);
                } else {
                    assert(rest.len() != 0);
                    assert(valid_utf8(rest));
                    assert(valid_first_scalar(rest));
                    assert(valid_leading_and_continuation_bytes_first_codepoint(rest));
                    assert(false);
                }
            }
        }
    }
}

proof fn lemma_no_stray_subrange(t: Seq<u8>, a: int, b: int)
    requires
        no_stray_continuation(t),
        0 <= a <= b <= t.len(),
    ensures
        no_stray_continuation(t.subrange(a, b)),
{
    let u = t.subrange(a, b);
    assert forall|k: int| 0 < k < u.len() && 0x80 <= #[trigger] u[k] && u[k] <= 0xbf implies u[k
        - 1] >= 0x80 by {
        assert(u[k] == t[a + k] && u[k - 1] == t[a + k - 1]);
    }
}

proof fn lemma_trim_pieces(t: Seq<u8>)
    ensures
        exists|a: int, b: int| 0 <= a <= b <= t.len() && trim(t) == t.subrange(a, b),
{
    lemma_trim_start_piece(t);
    let a = choose|a: int| 0 <= a <= t.len() && trim_start(t) == t.subrange(a, t.len() as int);
    let u = trim_start(t);
    lemma_trim_end_piece(u);
    let b = choose|b: int| 0 <= b <= u.len() && trim_end(u) == u.subrange(0, b);
    assert(trim(t) =~= t.subrange(a, a + b));
}

proof fn lemma_trim_start_piece(t: Seq<u8>)
    ensures
        exists|a: int| 0 <= a <= t.len() && trim_start(t) == t.subrange(a, t.len() as int),
    decreases t.len(),
{
    let k = ws_lead_len(t);
    if k > 0 {
        lemma_trim_start_piece(t.skip(k));
        let a = choose|a: int|
            0 <= a <= t.skip(k).len() && trim_start(t.skip(k)) == t.skip(k).subrange(
                a,
                t.skip(k).len() as int,
            );
        assert(t.skip(k).subrange(a, t.skip(k).len() as int) =~= t.subrange(k + a, t.len() as int));
    } else {
        assert(t.subrange(0, t.len() as int) =~= t);
    }
}

proof fn lemma_trim_end_piece(t: Seq<u8>)
    ensures
        exists|b: int| 0 <= b <= t.len() && trim_end(t) == t.subrange(0, b),
    decreases t.len(),
{
    let k = ws_trail_len(t);
    if k > 0 {
        let u = t.take(t.len() - k);
        lemma_trim_end_piece(u);
        let b = choose|b: int| 0 <= b <= u.len() && trim_end(u) == u.subrange(0, b);
        assert(u.subrange(0, b) =~= t.subrange(0, b));
    } else {
        assert(t.subrange(0, t.len() as int) =~= t);
    }
}

/// A line whose reading would take a slice that cuts a character yields no
/// record: the cut always falls inside the record kind, the byte count or a
/// hex pair, which then is no valid hex. Stated of any line that, as every
/// piece of a UTF-8 text, has no continuation byte right after an ASCII byte.
pub proof fn law_cut_lines_skipped(t: Seq<u8>)
    requires
        no_stray_continuation(t),
    ensures
        !line_cuts_whole(t) ==> line_record(t) is None,
{
    if !line_cuts_whole(t) {
        assert(t.len() >= 4);
        if !is_boundary(t, 2) {
            assert(t[1] >= 0x80);
        } else if record_kind(t[0], t[1]) is Some {
            if !is_boundary(t, 4) {
                assert(t[3] >= 0x80);
            } else if let Some(bc) = hex_pair(t[2], t[3]) {
                let body = t.skip(4);
                assert(!pairs_cut_whole(body, bc as int));
                let j = choose|j: int|
                    0 <= j < bc && pairs_valid(body, j) && !(#[trigger] is_boundary(
                        body,
                        2 * j + 2,
                    ));
                assert(body[2 * j + 2] == t[2 * j + 6]);
                assert(t[2 * j + 5] >= 0x80);
                assert(body[2 * j + 1] == t[2 * j + 5]);
                assert(body_pair(body, j) is None);
            }
        }
    }
}

/// In any text, a line whose reading would take a slice that cuts a
/// character yields no record.
pub proof fn law_cut_lines_skipped_in_text(c: Seq<char>, i: int)
    requires
        0 <= i <= encode_utf8(c).len(),
    ensures
        ({
            let s = encode_utf8(c);
            let raw = s.subrange(i, line_end(s, i));
            !line_cuts_whole(trim(raw)) ==> line_records(raw) == Seq::<RecordModel>::empty()
        }),
{
    let s = encode_utf8(c);
    encode_utf8_valid_utf8(c);
    lemma_utf8_no_stray(s);
    lemma_line_end_bounds(s, i);
    let raw = s.subrange(i, line_end(s, i));
    lemma_no_stray_subrange(s, i, line_end(s, i));
    lemma_trim_pieces(raw);
    let (a, b) = choose|a: int, b: int| 0 <= a <= b <= raw.len() && trim(raw) == raw.subrange(a, b);
    lemma_no_stray_subrange(raw, a, b);
    law_cut_lines_skipped(trim(raw));
}

proof fn lemma_trim_end_keeps(x: Seq<u8>, k: int)
    requires
        1 <= k <= x.len(),
        x[k - 1] < 0x80,
        !is_ascii_ws(x[k - 1]),
    ensures
        k <= trim_end(x).len() <= x.len(),
        trim_end(x) == x.take(trim_end(x).len() as int),
    decreases x.len(),
{
    let w = ws_trail_len(x);
    if w > 0 {
        let u = x.take(x.len() - w);
        assert(x.len() - w >= k);
        assert(u[k - 1] == x[k - 1]);
        lemma_trim_end_keeps(u, k);
        assert(u.take(trim_end(u).len() as int) =~= x.take(trim_end(u).len() as int));
    } else {
        assert(x.take(x.len() as int) =~= x);
    }
}

proof fn lemma_record_from_prefix(t: Seq<u8>, t2: Seq<u8>, bc: int)
    requires
        line_record(t) is Some,
        t.len() >= 4,
        0 <= bc <= 255,
        hex_pair(t[2], t[3]) == Some(bc as u8),
        t2.len() >= 4 + 2 * bc,
        t2.take(2 + 2 * bc) == t.take(2 + 2 * bc),
        is_hex_digit(t2[2 + 2 * bc]),
        is_hex_digit(t2[3 + 2 * bc]),
    ensures
        line_record(t2) == line_record(t),
{
    let (rt, aw) = record_kind(t[0], t[1]).unwrap();
    assert(bc >= aw + 1);
    assert(t.skip(4).len() >= 2 * bc);
    let p = t.take(2 + 2 * bc);
    let p2 = t2.take(2 + 2 * bc);
    assert forall|i: int| 0 <= i < 2 + 2 * bc implies #[trigger] t2[i] == t[i] by {
        assert(p2[i] == t2[i]);
        assert(p[i] == t[i]);
    }
    assert(t2[0] == t[0] && t2[1] == t[1] && t2[2] == t[2] && t2[3] == t[3]);
    let body = t.skip(4);
    let body2 = t2.skip(4);
    assert forall|k: int| 0 <= k < bc - 1 implies #[trigger] body_pair(body2, k) == body_pair(
        body,
        k,
    ) by {
        assert(t2[4 + 2 * k] == t[4 + 2 * k]);
        assert(t2[5 + 2 * k] == t[5 + 2 * k]);
        assert(body2[2 * k] == t2[4 + 2 * k] && body[2 * k] == t[4 + 2 * k]);
        assert(body2[2 * k + 1] == t2[5 + 2 * k] && body[2 * k + 1] == t[5 + 2 * k]);
    }
    assert(body2[2 * (bc - 1)] == t2[2 + 2 * bc]);
    assert(body2[2 * (bc - 1) + 1] == t2[3 + 2 * bc]);
    assert(body_pair(body2, bc - 1) is Some);
    assert(pairs_valid(body2, bc));
    let bytes = pairs_bytes(body, bc);
    let bytes2 = pairs_bytes(body2, bc);
    assert(bytes2.take(aw) =~= bytes.take(aw));
    assert(bytes2.subrange(aw, bc - 1) =~= bytes.subrange(aw, bc - 1));
}

/// The checksum pair and whatever follows it on the line do not matter: a
/// line that yields a record and starts with it yields the same records when
/// its checksum pair is replaced by any two hex digits and anything without
/// a line break follows.
pub proof fn law_checksum_and_tail_ignored(l: Seq<u8>, l2: Seq<u8>)
    requires
        parse_text(l).len() == 1,
        l.len() >= 4,
        l[0] == 0x53,
        forall|k: int| 0 <= k < l.len() ==> l[k] != 0x0a,
        forall|k: int| 0 <= k < l2.len() ==> l2[k] != 0x0a,
        hex_pair(l[2], l[3]) is Some,
        l2.len() >= 4 + 2 * hex_pair(l[2], l[3]).unwrap(),
        l2.take(2 + 2 * hex_pair(l[2], l[3]).unwrap()) == l.take(
            2 + 2 * hex_pair(l[2], l[3]).unwrap(),
        ),
        is_hex_digit(l2[2 + 2 * hex_pair(l[2], l[3]).unwrap()]),
        is_hex_digit(l2[3 + 2 * hex_pair(l[2], l[3]).unwrap()]),
    ensures
        parse_text(l2) == parse_text(l),
{
    let bc = hex_pair(l[2], l[3]).unwrap() as int;
    lemma_no_newline_line_end(l, 0);
    lemma_no_newline_line_end(l2, 0);
    assert(l.subrange(0, l.len() as int) =~= l);
    assert(l2.subrange(0, l2.len() as int) =~= l2);
    assert(parse_text(l) == line_records(l));
    assert(parse_text(l2) == line_records(l2));
    assert(ws_lead_len(l) == 0);
    assert(trim_start(l) == l);
    let t = trim(l);
    assert(line_record(t) is Some);
    lemma_trim_end_piece(l);
    let m = t.len() as int;
    assert(t =~= l.take(m)) by {
        let b = choose|b: int| 0 <= b <= l.len() && trim_end(l) == l.subrange(0, b);
        assert(l.subrange(0, b) =~= l.take(b));
    }
    assert(t[2] == l[2] && t[3] == l[3]);
    assert(m >= 4 + 2 * bc);
    assert(t.take(2 + 2 * bc) =~= l.take(2 + 2 * bc));
    assert(l2[0] == 0x53) by {
        assert(l2.take(2 + 2 * bc)[0] == l.take(2 + 2 * bc)[0]);
    }
    assert(ws_lead_len(l2) == 0);
    assert(trim_start(l2) == l2);
    assert(l2[3 + 2 * bc] < 0x80 && !is_ascii_ws(l2[3 + 2 * bc]));
    lemma_trim_end_keeps(l2, 4 + 2 * bc);
    let t2 = trim(l2);
    assert(t2.take(2 + 2 * bc) =~= l2.take(2 + 2 * bc));
    assert(t2[2 + 2 * bc] == l2[2 + 2 * bc] && t2[3 + 2 * bc] == l2[3 + 2 * bc]);
    lemma_record_from_prefix(t, t2, bc);
}

} // verus!
