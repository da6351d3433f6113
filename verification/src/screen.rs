//! The screen of the terminal viewer: one frame of text with ANSI escape
//! sequences, the response to a key, and the console settings it runs with.
use vstd::prelude::*;
use crate::strings::{
    repeat, pad_right, pad_left, dec_text, hex8_text, push_char, push_repeat, push_dec, push_hex8,
    push_pad_right,
};
use crate::table::{Row, RowModel};

verus! {

pub open spec fn rst() -> Seq<char> {
    "\x1b[0m"@
}

pub open spec fn bold() -> Seq<char> {
    "\x1b[1m"@
}

pub open spec fn dim() -> Seq<char> {
    "\x1b[2m"@
}

pub open spec fn rev() -> Seq<char> {
    "\x1b[7m"@
}

pub open spec fn cyn() -> Seq<char> {
    "\x1b[36m"@
}

pub open spec fn ylw() -> Seq<char> {
    "\x1b[33m"@
}

pub open spec fn grn() -> Seq<char> {
    "\x1b[32m"@
}

pub open spec fn wht() -> Seq<char> {
    "\x1b[37m"@
}

/// `s` unless `off`, nothing otherwise.
pub open spec fn unless(off: bool, s: Seq<char>) -> Seq<char> {
    if off {
        Seq::empty()
    } else {
        s
    }
}

/// Lines of the screen that are not table rows: title, two column-header
/// lines, two rules, status.
pub open spec fn overhead() -> int {
    6
}

/// The number of table rows on a screen `term_h` lines high: at least one.
pub open spec fn visible_rows(term_h: usize) -> int {
    if term_h > overhead() {
        term_h - overhead()
    } else {
        1
    }
}

/// The first row shown: the top while the selection fits the first screen,
/// the last screenful once the selection is in it, and otherwise the screen
/// that has the selection in its middle.
pub open spec fn frame_offset(n: int, sel: int, vis: int) -> int {
    if sel < vis {
        0
    } else if n > vis && sel >= n - vis {
        n - vis
    } else {
        sel - vis / 2
    }
}

/// The width of the hexadecimal column: what the other columns leave of
/// `cols`, at least 20.
pub open spec fn hex_width(cols: usize, ascii: bool) -> int {
    let used: int = if ascii {
        37
    } else {
        16
    };
    if cols >= used + 20 {
        cols - used
    } else {
        20
    }
}

/// The width of the horizontal rules.
pub open spec fn rule_width(cols: usize, ascii: bool) -> int {
    let w = 15 + hex_width(cols, ascii) + if ascii {
        21int
    } else {
        0
    };
    let limit: int = if cols >= 1 {
        cols - 1
    } else {
        0
    };
    if w < limit {
        w
    } else {
        limit
    }
}

/// A horizontal rule `tw` characters wide.
pub open spec fn rule_line(tw: nat) -> Seq<char> {
    dim() + repeat('─', tw) + rst() + "\r\n"@
}

/// The title line.
pub open spec fn title_line(path: Seq<char>, nrec: nat, nrows: nat) -> Seq<char> {
    " "@ + bold() + cyn() + "S19 Viewer"@ + rst() + " | "@ + ylw() + path + rst() + " | "@ + grn()
        + "records:"@ + rst() + " "@ + dec_text(nrec) + "  "@ + grn() + "rows:"@ + rst() + " "@
        + dec_text(nrows) + "\r\n"@
}

/// The column-header line.
pub open spec fn header_line(hw: int, ascii: bool) -> Seq<char> {
    bold() + cyn() + " "@ + "  "@ + pad_right("Address"@, 10) + "  "@ + pad_right(
        "Hex Data (16 bytes/row)"@,
        hw - 1,
    ) + rst() + (if ascii {
        "  "@ + bold() + cyn() + pad_right("ASCII"@, 18) + rst()
    } else {
        Seq::empty()
    }) + "\r\n"@
}

/// The part of a hexadecimal text that fits a column `hw` wide.
pub open spec fn hex_shown(hex: Seq<char>, hw: int) -> Seq<char> {
    if hex.len() + 1 > hw {
        hex.take(hw - 1)
    } else {
        hex
    }
}

/// The line of table row `r`, highlighted when `hi`.
pub open spec fn row_line(r: RowModel, hi: bool, hw: int, ascii: bool) -> Seq<char> {
    unless(!hi, rev()) + unless(hi, ylw()) + " "@ + pad_left(seq!['0', 'x'] + hex8_text(r.0), 11)
        + " "@ + unless(hi, rst()) + unless(hi, wht()) + pad_right(hex_shown(r.1, hw), hw) + unless(
        hi,
        rst(),
    ) + (if ascii {
        unless(hi, grn()) + "  "@ + pad_right(r.2, 18) + unless(hi, rst())
    } else {
        Seq::empty()
    }) + unless(!hi, rst()) + "\r\n"@
}

/// The first `k` table lines of a frame that shows `rows` from `off` on.
pub open spec fn rows_block(
    rows: Seq<RowModel>,
    off: int,
    sel: int,
    hw: int,
    ascii: bool,
    k: int,
) -> Seq<char>
    decreases k,
{
    if k <= 0 {
        Seq::empty()
    } else {
        let ri = off + k - 1;
        rows_block(rows, off, sel, hw, ascii, k - 1) + if ri >= rows.len() {
            "\r\n"@
        } else {
            row_line(rows[ri], ri == sel, hw, ascii)
        }
    }
}

/// The status line.
pub open spec fn status_line(nrows: nat, sel: nat, ascii: bool) -> Seq<char> {
    " "@ + dim() + wht() + "↑↓ scroll  PgUp/PgDn page  g/G top/bot  "@ + (if ascii {
        "a:hide ASCII"@
    } else {
        "a:show ASCII"@
    }) + "  q:quit   "@ + cyn() + (if nrows == 0 {
        "─"@
    } else {
        dec_text(sel + 1) + "/"@ + dec_text(nrows)
    }) + rst()
}

/// The whole frame.
pub open spec fn frame(
    rows: Seq<RowModel>,
    sel: nat,
    path: Seq<char>,
    nrec: nat,
    ascii: bool,
    cols: usize,
    term_h: usize,
) -> Seq<char> {
    let vis = visible_rows(term_h);
    let off = frame_offset(rows.len() as int, sel as int, vis);
    let hw = hex_width(cols, ascii);
    let tw = rule_width(cols, ascii) as nat;
    "\x1b[?25l\x1b[H\x1b[2J"@ + title_line(path, nrec, rows.len()) + rule_line(tw) + header_line(
        hw,
        ascii,
    ) + rule_line(tw) + rows_block(rows, off, sel as int, hw, ascii, vis) + rule_line(tw)
        + status_line(rows.len(), sel, ascii)
}

fn push_rule(b: &mut String, tw: usize)
    ensures
        final(b)@ == old(b)@ + rule_line(tw as nat),
{
    let ghost b0 = b@;
    b.append("\x1b[2m");
    push_repeat(b, '─', tw);
    b.append("\x1b[0m");
    b.append("\r\n");
    assert(b@ =~= b0 + rule_line(tw as nat));
}

fn push_title(b: &mut String, path: &str, nrec: usize, nrows: usize)
    ensures
        final(b)@ == old(b)@ + title_line(path@, nrec as nat, nrows as nat),
{
    let ghost b0 = b@;
    b.append(" ");
    b.append("\x1b[1m");
    b.append("\x1b[36m");
    b.append("S19 Viewer");
    b.append("\x1b[0m");
    b.append(" | ");
    b.append("\x1b[33m");
    b.append(path);
    b.append("\x1b[0m");
    b.append(" | ");
    b.append("\x1b[32m");
    b.append("records:");
    b.append("\x1b[0m");
    b.append(" ");
    push_dec(b, nrec);
    b.append("  ");
    b.append("\x1b[32m");
    b.append("rows:");
    b.append("\x1b[0m");
    b.append(" ");
    push_dec(b, nrows);
    b.append("\r\n");
    assert(b@ =~= b0 + title_line(path@, nrec as nat, nrows as nat));
}

fn push_header(b: &mut String, hw: usize, ascii: bool)
    requires
        hw >= 1,
    ensures
        final(b)@ == old(b)@ + header_line(hw as int, ascii),
{
    let mut l = String::new();
    l.append("\x1b[1m");
    assert(l@ =~= bold());
    l.append("\x1b[36m");
    l.append(" ");
    l.append("  ");
    push_pad_right(&mut l, "Address", 10);
    l.append("  ");
    push_pad_right(&mut l, "Hex Data (16 bytes/row)", hw - 1);
    l.append("\x1b[0m");
    let ghost l1 = l@;
    if ascii {
        let mut t = String::new();
        t.append("  ");
        assert(t@ =~= "  "@);
        t.append("\x1b[1m");
        t.append("\x1b[36m");
        push_pad_right(&mut t, "ASCII", 18);
        t.append("\x1b[0m");
        l.append(t.as_str());
    }
    assert(l@ =~= l1 + (if ascii {
        "  "@ + bold() + cyn() + pad_right("ASCII"@, 18) + rst()
    } else {
        Seq::empty()
    }));
    l.append("\r\n");
    b.append(l.as_str());
}

fn push_row_line(b: &mut String, row: &Row, hi: bool, hw: usize, ascii: bool)
    requires
        hw >= 1,
    ensures
        final(b)@ == old(b)@ + row_line(row@, hi, hw as int, ascii),
{
    let mut l = String::new();
    if hi {
        l.append("\x1b[7m");
    }
    assert(l@ =~= unless(!hi, rev()));
    let ghost l0 = l@;
    if !hi {
        l.append("\x1b[33m");
    }
    assert(l@ =~= l0 + unless(hi, ylw()));
    l.append(" ");
    let ghost l1 = l@;
    push_char(&mut l, ' ');
    push_char(&mut l, '0');
    push_char(&mut l, 'x');
    push_hex8(&mut l, row.addr());
    assert(l@ =~= l1 + pad_left(seq!['0', 'x'] + hex8_text(row@.0), 11));
    l.append(" ");
    let ghost l2 = l@;
    if !hi {
        l.append("\x1b[0m");
    }
    assert(l@ =~= l2 + unless(hi, rst()));
    let ghost l3 = l@;
    if !hi {
        l.append("\x1b[37m");
    }
    assert(l@ =~= l3 + unless(hi, wht()));
    let hex = row.hex();
    let hn = hex.unicode_len();
    let shown = if hn >= hw {
        hex.substring_char(0, hw - 1)
    } else {
        hex
    };
    assert(shown@ == hex_shown(row@.1, hw as int));
    push_pad_right(&mut l, shown, hw);
    let ghost l4 = l@;
    if !hi {
        l.append("\x1b[0m");
    }
    assert(l@ =~= l4 + unless(hi, rst()));
    let ghost l5 = l@;
    if ascii {
        let mut t = String::new();
        if !hi {
            t.append("\x1b[32m");
        }
        assert(t@ =~= unless(hi, grn()));
        t.append("  ");
        push_pad_right(&mut t, row.ascii(), 18);
        let ghost t1 = t@;
        if !hi {
            t.append("\x1b[0m");
        }
        assert(t@ =~= t1 + unless(hi, rst()));
        l.append(t.as_str());
    }
    assert(l@ =~= l5 + (if ascii {
        unless(hi, grn()) + "  "@ + pad_right(row@.2, 18) + unless(hi, rst())
    } else {
        Seq::empty()
    }));
    let ghost l6 = l@;
    if hi {
        l.append("\x1b[0m");
    }
    assert(l@ =~= l6 + unless(!hi, rst()));
    l.append("\r\n");
    b.append(l.as_str());
}

fn push_status(b: &mut String, nrows: usize, sel: usize, ascii: bool)
    requires
        nrows > 0 ==> sel < usize::MAX,
    ensures
        final(b)@ == old(b)@ + status_line(nrows as nat, sel as nat, ascii),
{
    let ghost b0 = b@;
    b.append(" ");
    b.append("\x1b[2m");
    b.append("\x1b[37m");
    b.append("↑↓ scroll  PgUp/PgDn page  g/G top/bot  ");
    if ascii {
        b.append("a:hide ASCII");
    } else {
        b.append("a:show ASCII");
    }
    b.append("  q:quit   ");
    b.append("\x1b[36m");
    if nrows == 0 {
        b.append("─");
    } else {
        push_dec(b, sel + 1);
        b.append("/");
        push_dec(b, nrows);
    }
    b.append("\x1b[0m");
    assert(b@ =~= b0 + status_line(nrows as nat, sel as nat, ascii));
}

/// Renders one frame of the viewer: title with `path`, the numbers of
/// records and rows, the column headers, the rows that fit a terminal of
/// `term_h` lines starting at [`frame_offset`] (row `sel` highlighted), and a
/// status line. The ASCII column is shown when `ascii`; `cols` is the
/// terminal width.
pub fn render(
    rows: &[Row],
    sel: usize,
    path: &str,
    nrec: usize,
    ascii: bool,
    cols: usize,
    term_h: usize,
) -> (out: String)
    requires
        frame_offset(rows@.len() as int, sel as int, visible_rows(term_h)) + visible_rows(term_h) - 1
            <= usize::MAX,
        rows@.len() > 0 ==> sel < usize::MAX,
    ensures
        out@ == frame(rows@.map_values(|r: Row| r@), sel as nat, path@, nrec as nat, ascii, cols, term_h),
{
    let ghost rs = rows@.map_values(|r: Row| r@);
    let n = rows.len();
    let vis: usize = if term_h > 6 {
        term_h - 6
    } else {
        1
    };
    let off: usize = if sel < vis {
        0
    } else if n > vis && sel >= n - vis {
        n - vis
    } else {
        sel - vis / 2
    };
    let aw: usize = 12;
    let acw: usize = if ascii {
        18
    } else {
        0
    };
    let used: usize = aw + acw + if ascii {
        7
    } else {
        4
    };
    let hw: usize = if cols >= used + 20 {
        cols - used
    } else {
        20
    };
    let full: usize = aw + 3 + hw + if ascii {
        3 + acw
    } else {
        0
    };
    let limit: usize = if cols >= 1 {
        cols - 1
    } else {
        0
    };
    let tw: usize = if full < limit {
        full
    } else {
        limit
    };
    assert(hw == hex_width(cols, ascii));
    assert(tw == rule_width(cols, ascii));
    let mut b = String::new();
    b.append("\x1b[?25l\x1b[H\x1b[2J");
    push_title(&mut b, path, nrec, n);
    push_rule(&mut b, tw);
    push_header(&mut b, hw, ascii);
    push_rule(&mut b, tw);
    let ghost before_rows = b@;
    let mut i: usize = 0;
    while i < vis
        invariant
            i <= vis,
            vis == visible_rows(term_h),
            off == frame_offset(n as int, sel as int, vis as int),
            off + vis - 1 <= usize::MAX,
            n == rows@.len(),
            rs == rows@.map_values(|r: Row| r@),
            hw >= 20,
            b@ == before_rows + rows_block(rs, off as int, sel as int, hw as int, ascii, i as int),
        decreases vis - i,
    {
        let ri = off + i;
        if ri >= n {
            b.append("\r\n");
        } else {
            push_row_line(&mut b, &rows[ri], ri == sel, hw, ascii);
            assert(rs[ri as int] == rows@[ri as int]@);
        }
        i = i + 1;
    }
    push_rule(&mut b, tw);
    push_status(&mut b, n, sel, ascii);
    assert(b@ =~= frame(rs, sel as nat, path@, nrec as nat, ascii, cols, term_h));
    b
}

/// Whether a frame of `n` rows with selection `sel` on a terminal `term_h`
/// lines high can be rendered: the rows it would show are numbered within
/// `usize`, and so is the selection's position in the status line.
pub fn frame_fits(n: usize, sel: usize, term_h: usize) -> (r: bool)
    ensures
        r == (frame_offset(n as int, sel as int, visible_rows(term_h)) + visible_rows(term_h) - 1
            <= usize::MAX && (n > 0 ==> sel < usize::MAX)),
{
    let vis: usize = if term_h > 6 {
        term_h - 6
    } else {
        1
    };
    let off: usize = if sel < vis {
        0
    } else if n > vis && sel >= n - vis {
        n - vis
    } else {
        sel - vis / 2
    };
    off <= usize::MAX - (vis - 1) && (n == 0 || sel < usize::MAX)
}

/// The selected row is always on screen: the frame shows rows `off` to
/// `off + vis - 1`, and the selection `sel` of a non-empty table lies among
/// them; the frame starts inside the table.
pub proof fn law_selection_visible(n: int, sel: int, vis: int)
    requires
        1 <= vis,
        0 <= sel < n,
    ensures
        0 <= frame_offset(n, sel, vis) <= sel < frame_offset(n, sel, vis) + vis,
        frame_offset(n, sel, vis) < n,
        n > vis ==> frame_offset(n, sel, vis) + vis <= n,
        sel < vis ==> frame_offset(n, sel, vis) == 0,
        n > vis && sel >= vis && sel >= n - vis ==> frame_offset(n, sel, vis) == n - vis,
        sel >= vis && !(n > vis && sel >= n - vis) ==> frame_offset(n, sel, vis) == sel - vis / 2,
{
}

/// The screen's geometry: a terminal `term_h` lines high shows
/// `max(term_h - 6, 1)` table rows; the hexadecimal column takes what the
/// 12-character address column and the separators (4 characters, or 7 and
/// the 18-character ASCII column) leave of the width `cols`, at least 20;
/// the rules are as wide as all columns, but less than the terminal.
pub proof fn law_screen_geometry(cols: usize, term_h: usize)
    ensures
        visible_rows(term_h) == (if term_h >= 7 {
            term_h - 6
        } else {
            1
        }),
        hex_width(cols, false) == (if cols - 16 >= 20 {
            cols - 16
        } else {
            20
        }),
        hex_width(cols, true) == (if cols - 37 >= 20 {
            cols - 37
        } else {
            20
        }),
        rule_width(cols, false) == (if 12 + 3 + hex_width(cols, false) <= cols - 1 {
            12 + 3 + hex_width(cols, false)
        } else if cols >= 1 {
            cols - 1
        } else {
            0
        }),
        rule_width(cols, true) == (if 12 + 3 + hex_width(cols, true) + 3 + 18 <= cols - 1 {
            12 + 3 + hex_width(cols, true) + 3 + 18
        } else if cols >= 1 {
            cols - 1
        } else {
            0
        }),
{
}

/// The hexadecimal column shows a row's hexadecimal text whole when it fits
/// (text and one space of margin), and otherwise its first `hw - 1`
/// characters; so without the ASCII column, on a terminal of at least 64
/// columns, a full row of sixteen bytes (47 characters) shows whole.
pub proof fn law_hex_column(hex: Seq<char>, hw: int, cols: usize)
    requires
        hw >= 1,
    ensures
        hex.len() < hw ==> hex_shown(hex, hw) == hex,
        hex.len() >= hw ==> hex_shown(hex, hw) == hex.subrange(0, hw - 1),
        cols >= 64 && hex.len() <= 47 ==> hex_shown(hex, hex_width(cols, false)) == hex,
{
    assert(hex.len() >= hw ==> hex.take(hw - 1) =~= hex.subrange(0, hw - 1));
}

} // verus!
