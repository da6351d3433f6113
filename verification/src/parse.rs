//! The S19 text parser.
//!
//! A text is read line by line. Each line is trimmed; a line yields a record
//! when it is at least four bytes long, starts with `S1`, `S2` or `S3`, carries
//! a hexadecimal byte count `bc`, is followed by at least `2 * bc` further
//! bytes whose first `bc` pairs are hexadecimal bytes, and `bc` covers the
//! address (2, 3 or 4 bytes) and the checksum byte. The address is big-endian;
//! the data are the bytes between the address and the checksum, which is not
//! checked. Every other line is skipped.
//!
//! Reading a trimmed line takes its bytes `0..2`, `2..4` and then the hex
//! pairs as slices; a line where such a slice would cut a character is
//! skipped like any other malformed line ([`line_cuts_whole`],
//! `law_cut_lines_skipped`).
use vstd::prelude::*;
use vstd::string::StringSliceAdditionalSpecFns;
use crate::hex::{hex_pair, hex_pair_exec, be_value, pow256, lemma_be_value_bound};
use crate::record::{S19Record, RecordModel};
use crate::text::{trim, line_end, lemma_line_end_bounds, trim_bounds, find_line_end};

verus! {

/// The record type and address width named by the two characters `a b`:
/// `S1` (type 1, 2 bytes), `S2` (type 2, 3 bytes), `S3` (type 3, 4 bytes).
pub open spec fn record_kind(a: u8, b: u8) -> Option<(u8, int)> {
    if a == 0x53 && b == 0x31 {
        Some((1u8, 2int))
    } else if a == 0x53 && b == 0x32 {
        Some((2u8, 3int))
    } else if a == 0x53 && b == 0x33 {
        Some((3u8, 4int))
    } else {
        None
    }
}

/// The `k`-th two-character pair of `body`, read as a hexadecimal byte.
pub open spec fn body_pair(body: Seq<u8>, k: int) -> Option<u8> {
    hex_pair(body[2 * k], body[2 * k + 1])
}

/// The first `n` pairs of `body` are all hexadecimal bytes.
pub open spec fn pairs_valid(body: Seq<u8>, n: int) -> bool {
    forall|k: int| 0 <= k < n ==> (#[trigger] body_pair(body, k)) is Some
}

/// The bytes that the first `n` pairs of `body` denote.
pub open spec fn pairs_bytes(body: Seq<u8>, n: int) -> Seq<u8> {
    Seq::new(n as nat, |k: int| body_pair(body, k).unwrap())
}

/// The record that the trimmed line `t` denotes, if any.
pub open spec fn line_record(t: Seq<u8>) -> Option<RecordModel> {
    if t.len() < 4 {
        None
    } else {
        match record_kind(t[0], t[1]) {
            None => None,
            Some((rt, aw)) => match hex_pair(t[2], t[3]) {
                None => None,
                Some(bc) => {
                    let body = t.skip(4);
                    if body.len() < 2 * bc || !pairs_valid(body, bc as int) || bc < aw + 1 {
                        None
                    } else {
                        let bytes = pairs_bytes(body, bc as int);
                        Some((rt, be_value(bytes.take(aw)) as u32, bytes.subrange(aw, bc - 1)))
                    }
                },
            },
        }
    }
}

/// The records of the raw (untrimmed) line `raw`: none or one.
pub open spec fn line_records(raw: Seq<u8>) -> Seq<RecordModel> {
    match line_record(trim(raw)) {
        Some(r) => seq![r],
        None => Seq::empty(),
    }
}

/// The records of the lines of `s` that start at or after the line start `i`.
pub open spec fn parse_from(s: Seq<u8>, i: int) -> Seq<RecordModel>
    decreases s.len() - i,
{
    if 0 <= i <= s.len() {
        let j = line_end(s, i);
        proof {
            lemma_line_end_bounds(s, i);
        }
        line_records(s.subrange(i, j)) + if j < s.len() {
            parse_from(s, j + 1)
        } else {
            Seq::empty()
        }
    } else {
        Seq::empty()
    }
}

/// The records of the text whose UTF-8 bytes are `s`, in line order.
pub open spec fn parse_text(s: Seq<u8>) -> Seq<RecordModel> {
    parse_from(s, 0)
}

/// `k` is a character boundary of the UTF-8 text `t`: its start, its end, or
/// an index whose byte is not a continuation byte.
pub open spec fn is_boundary(t: Seq<u8>, k: int) -> bool {
    k == 0 || k == t.len() || (0 < k < t.len() && !(0x80 <= t[k] && t[k] <= 0xbf))
}

/// Slicing the pairs of `body` one after the other, up to the first pair that
/// is no hexadecimal byte, never cuts a character.
pub open spec fn pairs_cut_whole(body: Seq<u8>, n: int) -> bool {
    forall|j: int|
        0 <= j < n && pairs_valid(body, j) ==> #[trigger] is_boundary(body, 2 * j + 2)
}

/// Reading the trimmed line `t` never slices it inside a character.
pub open spec fn line_cuts_whole(t: Seq<u8>) -> bool {
    t.len() < 4 || (is_boundary(t, 2) && (record_kind(t[0], t[1]) is None || (is_boundary(t, 4)
        && match hex_pair(t[2], t[3]) {
        None => true,
        Some(bc) => t.len() - 4 < 2 * bc || pairs_cut_whole(t.skip(4), bc as int),
    })))
}

/// The record of the line `s[start..end]`, as [`line_records`] states.
fn parse_line(s: &[u8], start: usize, end: usize) -> (r: Option<S19Record>)
    requires
        start <= end <= s@.len(),
    ensures
        match line_record(trim(s@.subrange(start as int, end as int))) {
            None => r is None,
            Some(m) => r matches Some(rec) && rec.wf() && rec@ == m,
        },
{
    let (ts, te) = trim_bounds(s, start, end);
    let ghost t = s@.subrange(ts as int, te as int);
    assert(t == trim(s@.subrange(start as int, end as int)));
    if te - ts < 4 {
        return None;
    }
    assert(t[0] == s@[ts as int] && t[1] == s@[ts + 1] && t[2] == s@[ts + 2] && t[3] == s@[ts
        + 3]);
    let (rt, aw): (u8, usize) = if s[ts] == 0x53 && s[ts + 1] == 0x31 {
        (1, 2)
    } else if s[ts] == 0x53 && s[ts + 1] == 0x32 {
        (2, 3)
    } else if s[ts] == 0x53 && s[ts + 1] == 0x33 {
        (3, 4)
    } else {
        return None;
    };
    assert(record_kind(t[0], t[1]) == Some((rt, aw as int)));
    let bc: usize = match hex_pair_exec(s[ts + 2], s[ts + 3]) {
        Some(v) => v as usize,
        None => {
            return None;
        },
    };
    let body = ts + 4;
    let ghost bseq = t.skip(4);
    assert(bseq =~= s@.subrange(body as int, te as int));
    if te - body < bc * 2 {
        return None;
    }
    let mut bytes: Vec<u8> = Vec::new();
    let mut k: usize = 0;
    while k < bc
        invariant
            k <= bc <= 255,
            t == s@.subrange(ts as int, te as int),
            t == trim(s@.subrange(start as int, end as int)),
            start <= end <= s@.len(),
            te - ts >= 4,
            bseq == t.skip(4),
            hex_pair(t[2], t[3]) == Some(bc as u8),
            record_kind(t[0], t[1]) == Some((rt, aw as int)),
            body == ts + 4,
            body + 2 * bc <= te <= s@.len(),
            bseq =~= s@.subrange(body as int, te as int),
            pairs_valid(bseq, k as int),
            bytes@ == pairs_bytes(bseq, k as int),
        decreases bc - k,
    {
        assert(bseq[2 * k as int] == s@[body + 2 * k] && bseq[2 * k + 1] == s@[body + 2 * k + 1]);
        match hex_pair_exec(s[body + 2 * k], s[body + 2 * k + 1]) {
            Some(b) => {
                bytes.push(b);
            },
            None => {
                assert(!pairs_valid(bseq, bc as int)) by {
                    assert(body_pair(bseq, k as int) is None);
                }
                assert(hex_pair(t[2], t[3]) == Some(bc as u8));
                assert(line_record(t) is None);
                return None;
            },
        }
        k = k + 1;
        assert(bytes@ =~= pairs_bytes(bseq, k as int));
    }
    if bc < aw + 1 {
        return None;
    }
    let ghost all = pairs_bytes(bseq, bc as int);
    let mut address: u32 = 0;
    let mut m: usize = 0;
    while m < aw
        invariant
            m <= aw <= 4,
            aw < bc,
            bytes@ == all,
            all.len() == bc,
            address as int == be_value(all.take(m as int)),
        decreases aw - m,
    {
        proof {
            lemma_be_value_bound(all.take(m as int));
            assert(pow256(m as nat) <= 0x1000000) by {
                assert(pow256(0) == 1);
                assert(pow256(1) == 256);
                assert(pow256(2) == 65536);
                assert(pow256(3) == 0x1000000);
            }
            assert(all.take(m + 1).drop_last() =~= all.take(m as int));
        }
        let b = bytes[m];
        let a = address;
        assert(a < 0x1000000 ==> (a << 8) | (b as u32) == a * 256 + b) by (bit_vector);
        address = (address << 8) | (b as u32);
        m = m + 1;
    }
    let n = bc - 1 - aw;
    let mut data = [0u8; 255];
    let mut q: usize = 0;
    while q < n
        invariant
            q <= n,
            n + aw + 1 == bc,
            bc <= 255,
            bytes@ == all,
            all.len() == bc,
            forall|x: int| 0 <= x < q ==> data@[x] == all[aw + x],
            forall|x: int| q <= x < 255 ==> data@[x] == 0,
        decreases n - q,
    {
        data[q] = bytes[aw + q];
        q = q + 1;
    }
    let rec = S19Record { record_type: rt, address, data_len: n as u32, data };
    assert(rec.payload() =~= all.subrange(aw as int, bc - 1));
    Some(rec)
}

/// The records of `bytes`, the UTF-8 bytes of a text, as [`parse_text`]
/// states.
fn parse_bytes(s: &[u8]) -> (out: Vec<S19Record>)
    ensures
        out@.map_values(|r: S19Record| r@) == parse_text(s@),
        forall|k: int| 0 <= k < out@.len() ==> (#[trigger] out@[k]).wf(),
{
    let mut out: Vec<S19Record> = Vec::new();
    let mut i: usize = 0;
    loop
        invariant
            i <= s@.len(),
            out@.map_values(|r: S19Record| r@) + parse_from(s@, i as int) == parse_text(s@),
            forall|k: int| 0 <= k < out@.len() ==> (#[trigger] out@[k]).wf(),
        decreases s@.len() - i,
    {
        let j = find_line_end(s, i);
        proof {
            lemma_line_end_bounds(s@, i as int);
        }
        let ghost before = out@.map_values(|r: S19Record| r@);
        let ghost rest = if j < s@.len() {
            parse_from(s@, j + 1)
        } else {
            Seq::empty()
        };
        assert(parse_from(s@, i as int) == line_records(s@.subrange(i as int, j as int)) + rest);
        match parse_line(s, i, j) {
            Some(rec) => {
                out.push(rec);
                assert(out@.map_values(|r: S19Record| r@) =~= before.push(rec@));
                assert(before.push(rec@) + rest =~= before + (seq![rec@] + rest));
            },
            None => {
                assert(line_records(s@.subrange(i as int, j as int)) =~= Seq::empty());
                assert(before + (Seq::<RecordModel>::empty() + rest) =~= before + rest);
            },
        }
        if j == s.len() {
            assert(out@.map_values(|r: S19Record| r@) =~= parse_text(s@));
            return out;
        }
        i = j + 1;
    }
}

/// Parses the S19 text `content` into its S1, S2 and S3 records, in line
/// order; every other line is skipped (see [`line_record`]).
pub fn parse_s19_internal(content: &str) -> (records: Vec<S19Record>)
    ensures
        records@.map_values(|r: S19Record| r@) == parse_text(content.spec_bytes()),
        forall|k: int| 0 <= k < records@.len() ==> (#[trigger] records@[k]).wf(),
{
    parse_bytes(content.as_bytes())
}

} // verus!
