//! The table of a viewer: the data of each record cut into rows of sixteen
//! bytes, each row with its address, its bytes in hexadecimal and as ASCII.
use vstd::prelude::*;
use crate::record::{S19Record, RecordModel};
use crate::strings::{hex_digit_char, hex_digit_char_exec, push_char};

verus! {

/// One table row. Its texts are ASCII.
pub struct Row {
    addr: u32,
    hex: String,
    ascii: String,
}

/// What a row shows: its address, its hexadecimal text and its ASCII text.
pub type RowModel = (u32, Seq<char>, Seq<char>);

impl View for Row {
    type V = RowModel;

    closed spec fn view(&self) -> RowModel {
        (self.addr, self.hex@, self.ascii@)
    }
}

impl Row {
    /// The address of the row's first byte.
    pub fn addr(&self) -> (a: u32)
        ensures
            a == self@.0,
    {
        self.addr
    }

    /// The row's bytes as two upper-case hexadecimal digits each, separated
    /// by single spaces.
    pub fn hex(&self) -> (h: &str)
        ensures
            h@ == self@.1,
    {
        self.hex.as_str()
    }

    /// The row's bytes as characters, `'.'` for those that are not printable
    /// ASCII.
    pub fn ascii(&self) -> (t: &str)
        ensures
            t@ == self@.2,
    {
        self.ascii.as_str()
    }
}

/// How byte `b` shows in the ASCII column: itself when printable ASCII
/// (0x20..0x7f), `'.'` otherwise.
pub open spec fn ascii_char(b: u8) -> char {
    if 0x20 <= b && b < 0x7f {
        b as char
    } else {
        '.'
    }
}

/// The two upper-case hexadecimal digits of `b` (`{:02X}`).
pub open spec fn hex_byte(b: u8) -> Seq<char> {
    seq![hex_digit_char(b / 16), hex_digit_char(b % 16)]
}

/// The hexadecimal digits of the bytes of `c`, separated by single spaces.
pub open spec fn hex_join(c: Seq<u8>) -> Seq<char>
    decreases c.len(),
{
    if c.len() == 0 {
        Seq::empty()
    } else if c.len() == 1 {
        hex_byte(c[0])
    } else {
        hex_join(c.drop_last()) + seq![' '] + hex_byte(c.last())
    }
}

/// The ASCII column text of the bytes of `c`.
pub open spec fn ascii_text(c: Seq<u8>) -> Seq<char> {
    Seq::new(c.len(), |i: int| ascii_char(c[i]))
}

/// The number of rows that `n` bytes take.
pub open spec fn chunk_count(n: nat) -> nat {
    ((n + 15) / 16) as nat
}

/// The bytes of row `i` of `data`: sixteen, or what is left.
pub open spec fn chunk(data: Seq<u8>, i: int) -> Seq<u8> {
    let start = 16 * i;
    let end = if start + 16 <= data.len() {
        start + 16
    } else {
        data.len() as int
    };
    data.subrange(start, end)
}

/// The rows of one record.
pub open spec fn record_rows(r: RecordModel) -> Seq<RowModel> {
    Seq::new(
        chunk_count(r.2.len()),
        |i: int| ((r.1 + 16 * i) as u32, hex_join(chunk(r.2, i)), ascii_text(chunk(r.2, i))),
    )
}

/// The rows of a sequence of records, record after record.
pub open spec fn table_rows(rs: Seq<RecordModel>) -> Seq<RowModel>
    decreases rs.len(),
{
    if rs.len() == 0 {
        Seq::empty()
    } else {
        table_rows(rs.drop_last()) + record_rows(rs.last())
    }
}

/// The address of every row of `r` fits 32 bits.
pub open spec fn row_addresses_fit(r: RecordModel) -> bool {
    r.2.len() == 0 || r.1 + 16 * (chunk_count(r.2.len()) - 1) <= u32::MAX
}

/// Whether `rec` can be cut into rows: its length fits the buffer and the
/// address of each of its rows fits 32 bits.
pub fn rows_fit(rec: &S19Record) -> (r: bool)
    ensures
        r == (rec.data_len <= 255 && row_addresses_fit(rec@)),
{
    if rec.data_len > 255 {
        return false;
    }
    let n = rec.data_len;
    n == 0 || rec.address as u64 + 16 * (((n as u64 + 15) / 16) - 1) <= 0xffff_ffff
}

/// The row of `data[start..end]` at address `addr`.
fn make_row(data: &[u8; 255], start: usize, end: usize, addr: u32) -> (row: Row)
    requires
        start <= end <= 255,
    ensures
        row@ == (addr, hex_join(data@.subrange(start as int, end as int)), ascii_text(
            data@.subrange(start as int, end as int),
        )),
{
    let ghost c = data@.subrange(start as int, end as int);
    let mut hex = String::new();
    let mut ascii = String::new();
    let mut j = start;
    while j < end
        invariant
            start <= j <= end <= 255,
            c == data@.subrange(start as int, end as int),
            hex@ == hex_join(c.take(j - start)),
            ascii@ == ascii_text(c.take(j - start)),
        decreases end - j,
    {
        let b = data[j];
        assert(b == c[j - start]);
        if j > start {
            push_char(&mut hex, ' ');
        }
        push_char(&mut hex, hex_digit_char_exec(b / 16));
        push_char(&mut hex, hex_digit_char_exec(b % 16));
        let shown = if 0x20 <= b && b < 0x7f {
            b as char
        } else {
            '.'
        };
        push_char(&mut ascii, shown);
        proof {
            let k = j - start;
            assert(c.take(k + 1).drop_last() =~= c.take(k));
            if k == 0 {
                assert(hex@ =~= hex_join(c.take(k + 1)));
            } else {
                assert(hex@ =~= hex_join(c.take(k + 1)));
            }
            assert(ascii@ =~= ascii_text(c.take(k + 1)));
        }
        j = j + 1;
    }
    assert(c.take(end - start) =~= c);
    Row { addr, hex, ascii }
}

/// The rows of one record.
fn push_record_rows(rows: &mut Vec<Row>, rec: &S19Record)
    requires
        rec.data_len <= 255,
        row_addresses_fit(rec@),
    ensures
        final(rows)@.map_values(|r: Row| r@) == old(rows)@.map_values(|r: Row| r@) + record_rows(
            rec@,
        ),
{
    let ghost r0 = rows@.map_values(|r: Row| r@);
    let ghost m = rec@;
    let n = rec.data_len as usize;
    let count = (n + 15) / 16;
    assert(count == chunk_count(m.2.len()));
    let mut i: usize = 0;
    while i < count
        invariant
            n == rec.data_len,
            n <= 255,
            m == rec@,
            m.2.len() == n,
            count == chunk_count(n as nat),
            i <= count,
            row_addresses_fit(m),
            rows@.map_values(|r: Row| r@) == r0 + record_rows(m).take(i as int),
        decreases count - i,
    {
        let start = 16 * i;
        let end = if start + 16 <= n {
            start + 16
        } else {
            n
        };
        assert(rec.address + 16 * i <= u32::MAX);
        let addr = rec.address + (16 * i) as u32;
        let row = make_row(&rec.data, start, end, addr);
        assert(rec.data@.subrange(start as int, end as int) =~= chunk(m.2, i as int));
        assert(row@ == record_rows(m)[i as int]);
        let ghost before = rows@;
        rows.push(row);
        assert(rows@.map_values(|r: Row| r@) =~= before.map_values(|r: Row| r@).push(row@));
        assert(rows@.map_values(|r: Row| r@) =~= r0 + record_rows(m).take(i + 1));
        i = i + 1;
    }
    assert(record_rows(m).take(count as int) =~= record_rows(m));
}

/// Builds the table of `records`: for each record in order, its data cut
/// into rows of sixteen bytes (the last row of a record may be shorter).
pub fn build_table(records: &[S19Record]) -> (rows: Vec<Row>)
    requires
        forall|k: int|
            0 <= k < records@.len() ==> (#[trigger] records@[k]).data_len <= 255
                && row_addresses_fit(records@[k]@),
    ensures
        rows@.map_values(|r: Row| r@) == table_rows(records@.map_values(|r: S19Record| r@)),
{
    let mut rows: Vec<Row> = Vec::new();
    let ghost ms = records@.map_values(|r: S19Record| r@);
    for k in 0..records.len()
        invariant
            ms == records@.map_values(|r: S19Record| r@),
            forall|x: int|
                0 <= x < records@.len() ==> (#[trigger] records@[x]).data_len <= 255
                    && row_addresses_fit(records@[x]@),
            rows@.map_values(|r: Row| r@) == table_rows(ms.take(k as int)),
    {
        push_record_rows(&mut rows, &records[k]);
        assert(ms.take(k + 1).drop_last() =~= ms.take(k as int));
        assert(ms.take(k + 1).last() == records@[k as int]@);
    }
    assert(ms.take(records@.len() as int) =~= ms);
    rows
}

/// The bytes of the first `k` rows of `data`, one row after the other.
pub open spec fn rows_bytes(data: Seq<u8>, k: int) -> Seq<u8>
    decreases k,
{
    if k <= 0 {
        Seq::empty()
    } else {
        rows_bytes(data, k - 1) + chunk(data, k - 1)
    }
}

proof fn lemma_rows_bytes_prefix(data: Seq<u8>, k: int)
    requires
        0 <= k <= chunk_count(data.len()),
    ensures
        rows_bytes(data, k) == data.take(if 16 * k <= data.len() {
            16 * k
        } else {
            data.len() as int
        }),
    decreases k,
{
    if k > 0 {
        lemma_rows_bytes_prefix(data, k - 1);
        assert(16 * (k - 1) < data.len());
        assert(rows_bytes(data, k) =~= data.take(if 16 * k <= data.len() {
            16 * k
        } else {
            data.len() as int
        }));
    }
}

/// Each row holds one to sixteen bytes, and the rows of a record, read one
/// after the other, hold exactly its data.
pub proof fn law_rows_cover_data(data: Seq<u8>)
    ensures
        forall|i: int|
            0 <= i < chunk_count(data.len()) ==> 1 <= (#[trigger] chunk(data, i)).len() <= 16,
        rows_bytes(data, chunk_count(data.len()) as int) == data,
{
    let n = chunk_count(data.len());
    assert forall|i: int| 0 <= i < n implies 1 <= (#[trigger] chunk(data, i)).len() <= 16 by {
        assert(16 * i < data.len());
    }
    lemma_rows_bytes_prefix(data, n as int);
    assert(data.take(data.len() as int) =~= data);
}

proof fn lemma_hex_join_layout(c: Seq<u8>)
    ensures
        c.len() > 0 ==> hex_join(c).len() == 3 * c.len() - 1,
        c.len() == 0 ==> hex_join(c).len() == 0,
        forall|k: int|
            0 <= k < c.len() ==> hex_join(c)[3 * k] == hex_digit_char(#[trigger] c[k] / 16)
                && hex_join(c)[3 * k + 1] == hex_digit_char(c[k] % 16),
        forall|k: int| 0 <= k < c.len() - 1 ==> #[trigger] hex_join(c)[3 * k + 2] == ' ',
    decreases c.len(),
{
    if c.len() > 1 {
        let d = c.drop_last();
        lemma_hex_join_layout(d);
        let h = hex_join(c);
        assert(h == hex_join(d) + seq![' '] + hex_byte(c.last()));
        assert forall|k: int| 0 <= k < c.len() implies h[3 * k] == hex_digit_char(
            #[trigger] c[k] / 16,
        ) && h[3 * k + 1] == hex_digit_char(c[k] % 16) by {
            if k < c.len() - 1 {
                assert(d[k] == c[k]);
            }
        }
        assert forall|k: int| 0 <= k < c.len() - 1 implies #[trigger] h[3 * k + 2] == ' ' by {
            if k < c.len() - 2 {
                assert(hex_join(d)[3 * k + 2] == ' ');
            }
        }
    }
}

/// The rows of a record whose row addresses fit: one row per sixteen bytes
/// or part of it; row `i` starts at the record's address plus `16 * i` and
/// shows the bytes from `16 * i` on (sixteen, or what is left). Its ASCII
/// text has one character per byte, the byte itself when printable ASCII
/// (0x20..0x7f) and `'.'` otherwise; its hexadecimal text has two upper-case
/// digits per byte, high nibble first, with single spaces between bytes.
pub proof fn law_record_rows(r: RecordModel)
    requires
        row_addresses_fit(r),
    ensures
        record_rows(r).len() == (r.2.len() + 15) / 16,
        forall|i: int|
            0 <= i < record_rows(r).len() ==> {
                let row = #[trigger] record_rows(r)[i];
                let m = if 16 * i + 16 <= r.2.len() {
                    16
                } else {
                    r.2.len() - 16 * i
                };
                &&& row.0 == r.1 + 16 * i
                &&& 1 <= m <= 16
                &&& row.2.len() == m
                &&& row.1.len() == 3 * m - 1
                &&& forall|k: int|
                    0 <= k < m ==> {
                        let b = r.2[16 * i + k];
                        &&& (#[trigger] row.2[k]) == (if 0x20 <= b && b < 0x7f {
                            b as char
                        } else {
                            '.'
                        })
                        &&& row.1[3 * k] as u32 == (if b / 16 < 10 {
                            0x30 + b / 16
                        } else {
                            0x37 + b / 16
                        })
                        &&& row.1[3 * k + 1] as u32 == (if b % 16 < 10 {
                            0x30 + b % 16
                        } else {
                            0x37 + b % 16
                        })
                        &&& k < m - 1 ==> row.1[3 * k + 2] == ' '
                    }
            },
{
    assert forall|i: int| 0 <= i < record_rows(r).len() implies {
        let row = #[trigger] record_rows(r)[i];
        let m = if 16 * i + 16 <= r.2.len() {
            16
        } else {
            r.2.len() - 16 * i
        };
        &&& row.0 == r.1 + 16 * i
        &&& 1 <= m <= 16
        &&& row.2.len() == m
        &&& row.1.len() == 3 * m - 1
        &&& forall|k: int|
            0 <= k < m ==> {
                let b = r.2[16 * i + k];
                &&& (#[trigger] row.2[k]) == (if 0x20 <= b && b < 0x7f {
                    b as char
                } else {
                    '.'
                })
                &&& row.1[3 * k] as u32 == (if b / 16 < 10 {
                    0x30 + b / 16
                } else {
                    0x37 + b / 16
                })
                &&& row.1[3 * k + 1] as u32 == (if b % 16 < 10 {
                    0x30 + b % 16
                } else {
                    0x37 + b % 16
                })
                &&& k < m - 1 ==> row.1[3 * k + 2] == ' '
            }
    } by {
        let c = chunk(r.2, i);
        assert(16 * i < r.2.len());
        assert(r.1 + 16 * i <= u32::MAX) by {
            assert(i <= chunk_count(r.2.len()) - 1);
        }
        lemma_hex_join_layout(c);
        let m = c.len() as int;
        assert forall|k: int| 0 <= k < m implies c[k] == r.2[16 * i + k] && (c[k] / 16 < 10 ==> (
        hex_digit_char(c[k] / 16) as u32) == 0x30 + c[k] / 16) && (c[k] / 16 >= 10 ==> (
        hex_digit_char(c[k] / 16) as u32) == 0x37 + c[k] / 16) && (c[k] % 16 < 10 ==> (
        hex_digit_char(c[k] % 16) as u32) == 0x30 + c[k] % 16) && (c[k] % 16 >= 10 ==> (
        hex_digit_char(c[k] % 16) as u32) == 0x37 + c[k] % 16) by {
            assert(hex_join(c)[3 * k] == hex_digit_char(c[k] / 16));
        }
    }
}

/// The table of records one after the other is the table of the first
/// followed by the table of the second.
pub proof fn law_table_concat(a: Seq<RecordModel>, b: Seq<RecordModel>)
    ensures
        table_rows(a + b) == table_rows(a) + table_rows(b),
    decreases b.len(),
{
    if b.len() == 0 {
        assert(a + b =~= a);
        assert(table_rows(a) + table_rows(b) =~= table_rows(a));
    } else {
        law_table_concat(a, b.drop_last());
        assert((a + b).drop_last() =~= a + b.drop_last());
        assert((a + b).last() == b.last());
        assert(table_rows(a + b.drop_last()) + record_rows(b.last()) =~= table_rows(a) + (
        table_rows(b.drop_last()) + record_rows(b.last())));
    }
}

/// A single record's table is its rows.
pub proof fn law_table_single(r: RecordModel)
    ensures
        table_rows(seq![r]) == record_rows(r),
{
    assert(seq![r].drop_last() =~= Seq::<RecordModel>::empty());
    assert(table_rows(Seq::<RecordModel>::empty()) + record_rows(r) =~= record_rows(r));
}

} // verus!
