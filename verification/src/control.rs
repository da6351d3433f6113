//! The viewer's decisions around the console: which input events are key
//! presses, what a key does to the selection, how large the window is and
//! which console modes it runs with.
use vstd::prelude::*;

verus! {

/// Virtual-key code of Page Up.
pub const VK_PRIOR: u16 = 0x21;
/// Virtual-key code of Page Down.
pub const VK_NEXT: u16 = 0x22;
/// Virtual-key code of End.
pub const VK_END: u16 = 0x23;
/// Virtual-key code of Home.
pub const VK_HOME: u16 = 0x24;
/// Virtual-key code of the up arrow.
pub const VK_UP: u16 = 0x26;
/// Virtual-key code of the down arrow.
pub const VK_DOWN: u16 = 0x28;
/// Input event type of a key event.
pub const KEY_EVENT: u16 = 0x0001;
/// Console input mode bit: processed input.
pub const ENABLE_PROCESSED_INPUT: u32 = 0x0001;
/// Console input mode bit: line input.
pub const ENABLE_LINE_INPUT: u32 = 0x0002;
/// Console input mode bit: echo input.
pub const ENABLE_ECHO_INPUT: u32 = 0x0004;
/// Console input mode bit: virtual terminal input.
pub const ENABLE_VIRTUAL_TERMINAL_INPUT: u32 = 0x0200;
/// Console output mode bit: processed output.
pub const ENABLE_PROCESSED_OUTPUT: u32 = 0x0001;
/// Console output mode bit: virtual terminal processing.
pub const ENABLE_VIRTUAL_TERMINAL_PROCESSING: u32 = 0x0004;

/// What the viewer keeps between keys: the selected row and whether the
/// ASCII column shows.
pub struct ViewState {
    pub sel: usize,
    pub ascii: bool,
}

/// The number of rows that Page Up and Page Down move on a terminal `term_h`
/// lines high: at least one.
pub open spec fn page_size(term_h: usize) -> int {
    if term_h > 7 {
        term_h - 7
    } else {
        1
    }
}

/// The last row, or 0 when there is none.
pub open spec fn last_row(n: int) -> int {
    if n > 0 {
        n - 1
    } else {
        0
    }
}

/// One row up, unless at the top.
pub open spec fn row_up(sel: int) -> int {
    if sel > 0 {
        sel - 1
    } else {
        sel
    }
}

/// One row down, unless at the last row.
pub open spec fn row_down(sel: int, n: int) -> int {
    if sel + 1 < n {
        sel + 1
    } else {
        sel
    }
}

/// `vk` is one of the navigation keys that the viewer reads by code.
pub open spec fn is_nav_key(vk: u16) -> bool {
    vk == VK_UP || vk == VK_DOWN || vk == VK_PRIOR || vk == VK_NEXT || vk == VK_HOME || vk == VK_END
}

/// The selection and ASCII flag after the key (`vk`, `ch`) on a table of `n`
/// rows, or `None` when the key quits: the arrows, Page Up/Down, Home and End
/// by key code; otherwise by the character's low byte `q`, `Q` or Esc quit,
/// `j`/`k` move down/up, `g`/`G` go to the top/bottom, `a`/`A` toggle the
/// ASCII column, and any other key changes nothing.
pub open spec fn next_view(sel: int, ascii: bool, n: int, page: int, vk: u16, ch: u16) -> Option<
    (int, bool),
> {
    if vk == VK_UP {
        Some((row_up(sel), ascii))
    } else if vk == VK_DOWN {
        Some((row_down(sel, n), ascii))
    } else if vk == VK_PRIOR {
        Some((if sel > page {
            sel - page
        } else {
            0
        }, ascii))
    } else if vk == VK_NEXT {
        Some((if sel + page < last_row(n) {
            sel + page
        } else {
            last_row(n)
        }, ascii))
    } else if vk == VK_HOME {
        Some((0, ascii))
    } else if vk == VK_END {
        Some((last_row(n), ascii))
    } else {
        let c = (ch % 256) as u8;
        if c == 0x71 || c == 0x51 || c == 0x1b {
            None
        } else if c == 0x6a {
            Some((row_down(sel, n), ascii))
        } else if c == 0x6b {
            Some((row_up(sel), ascii))
        } else if c == 0x67 {
            Some((0, ascii))
        } else if c == 0x47 {
            Some((last_row(n), ascii))
        } else if c == 0x61 || c == 0x41 {
            Some((sel, !ascii))
        } else {
            Some((sel, ascii))
        }
    }
}

/// The selection `sel` is a row of a table of `n` rows, or 0 when it has none.
pub open spec fn sel_in_range(sel: int, n: int) -> bool {
    sel < n || sel == 0
}

/// The number of rows that Page Up and Page Down move on a terminal
/// `term_h` lines high, as [`page_size`] states.
pub fn page_rows(term_h: usize) -> (p: usize)
    ensures
        p == page_size(term_h),
{
    if term_h > 7 {
        term_h - 7
    } else {
        1
    }
}

/// Whether the key (`vk`, `ch`) can be handled at selection `sel` with pages
/// of `page` rows: moving down or a page down keeps the row number within
/// `usize`.
pub fn key_fits(sel: usize, page: usize, vk: u16, ch: u16) -> (r: bool)
    ensures
        r == (((vk == VK_DOWN || (!is_nav_key(vk) && (ch % 256) as u8 == 0x6a)) ==> sel
            < usize::MAX) && (vk == VK_NEXT ==> sel + page <= usize::MAX)),
{
    let nav = vk == VK_UP || vk == VK_DOWN || vk == VK_PRIOR || vk == VK_NEXT || vk == VK_HOME
        || vk == VK_END;
    let down = vk == VK_DOWN || (!nav && (ch % 256) as u8 == 0x6a);
    (!down || sel < usize::MAX) && (vk != VK_NEXT || sel <= usize::MAX - page)
}

/// The viewer's response to the key (`vk`, `ch`) on a table of `n` rows, with
/// pages of `page` rows: the next state, or `None` to quit.
pub fn handle_key(state: ViewState, n: usize, page: usize, vk: u16, ch: u16) -> (r: Option<
    ViewState,
>)
    requires
        (vk == VK_DOWN || (!is_nav_key(vk) && (ch % 256) as u8 == 0x6a)) ==> state.sel
            < usize::MAX,
        vk == VK_NEXT ==> state.sel + page <= usize::MAX,
    ensures
        match next_view(state.sel as int, state.ascii, n as int, page as int, vk, ch) {
            None => r is None,
            Some((s, a)) => r matches Some(v) && v.sel == s && v.ascii == a,
        },
{
    let sel = state.sel;
    let ascii = state.ascii;
    let last: usize = if n > 0 {
        n - 1
    } else {
        0
    };
    if vk == VK_UP {
        Some(ViewState { sel: if sel > 0 { sel - 1 } else { sel }, ascii })
    } else if vk == VK_DOWN {
        Some(ViewState { sel: if sel + 1 < n { sel + 1 } else { sel }, ascii })
    } else if vk == VK_PRIOR {
        Some(ViewState { sel: if sel > page { sel - page } else { 0 }, ascii })
    } else if vk == VK_NEXT {
        Some(ViewState { sel: if sel + page < last { sel + page } else { last }, ascii })
    } else if vk == VK_HOME {
        Some(ViewState { sel: 0, ascii })
    } else if vk == VK_END {
        Some(ViewState { sel: last, ascii })
    } else {
        let c = (ch % 256) as u8;
        if c == 0x71 || c == 0x51 || c == 0x1b {
            None
        } else if c == 0x6a {
            Some(ViewState { sel: if sel + 1 < n { sel + 1 } else { sel }, ascii })
        } else if c == 0x6b {
            Some(ViewState { sel: if sel > 0 { sel - 1 } else { sel }, ascii })
        } else if c == 0x67 {
            Some(ViewState { sel: 0, ascii })
        } else if c == 0x47 {
            Some(ViewState { sel: last, ascii })
        } else if c == 0x61 || c == 0x41 {
            Some(ViewState { sel, ascii: !ascii })
        } else {
            Some(ViewState { sel, ascii })
        }
    }
}

/// Whether an input record is a key press: one event was read, it is a key
/// event, and the key went down.
pub fn is_key_press(n_read: u32, event_type: u16, key_down: i32) -> (r: bool)
    ensures
        r == (n_read != 0 && event_type == KEY_EVENT && key_down != 0),
{
    n_read != 0 && event_type == KEY_EVENT && key_down != 0
}

/// The size of the console window with edges `left`, `top`, `right`,
/// `bottom`: its width, at least 40, and its height, at least 5.
pub fn window_size(left: i16, top: i16, right: i16, bottom: i16) -> (r: (usize, usize))
    requires
        i16::MIN <= right - left,
        right - left + 1 <= i16::MAX,
        i16::MIN <= bottom - top,
        bottom - top + 1 <= i16::MAX,
    ensures
        r.0 == (if right - left + 1 > 40 {
            right - left + 1
        } else {
            40
        }),
        r.1 == (if bottom - top + 1 > 5 {
            bottom - top + 1
        } else {
            5
        }),
{
    let w: i16 = right - left + 1;
    let h: i16 = bottom - top + 1;
    let w2: i16 = if w > 40 {
        w
    } else {
        40
    };
    let h2: i16 = if h > 5 {
        h
    } else {
        5
    };
    (w2 as usize, h2 as usize)
}

/// The console modes the viewer runs with, from the console's previous input and
/// output modes: input without echo, line and processed input but with
/// virtual terminal input; output with virtual terminal processing and
/// processed output.
pub fn console_modes(orig_in: u32, orig_out: u32) -> (r: (u32, u32))
    ensures
        r.0 == (orig_in & !(ENABLE_ECHO_INPUT | ENABLE_LINE_INPUT | ENABLE_PROCESSED_INPUT))
            | ENABLE_VIRTUAL_TERMINAL_INPUT,
        r.1 == orig_out | ENABLE_VIRTUAL_TERMINAL_PROCESSING | ENABLE_PROCESSED_OUTPUT,
        r.0 & 0x7 == 0,
        r.0 & 0x200 == 0x200,
        r.0 & !0x207u32 == orig_in & !0x207u32,
        r.1 & 0x5 == 0x5,
        r.1 & !0x5u32 == orig_out & !0x5u32,
{
    let i = (orig_in & !(ENABLE_ECHO_INPUT | ENABLE_LINE_INPUT | ENABLE_PROCESSED_INPUT))
        | ENABLE_VIRTUAL_TERMINAL_INPUT;
    let o = orig_out | ENABLE_VIRTUAL_TERMINAL_PROCESSING | ENABLE_PROCESSED_OUTPUT;
    assert((orig_in & !(4u32 | 2u32 | 1u32)) | 0x200u32 == (orig_in & !7u32) | 0x200u32) by (bit_vector);
    assert(((orig_in & !7u32) | 0x200u32) & 0x7 == 0) by (bit_vector);
    assert(((orig_in & !7u32) | 0x200u32) & 0x200 == 0x200) by (bit_vector);
    assert(((orig_in & !7u32) | 0x200u32) & !0x207u32 == orig_in & !0x207u32) by (bit_vector);
    assert((orig_out | 4u32 | 1u32) & 0x5 == 0x5) by (bit_vector);
    assert((orig_out | 4u32 | 1u32) & !0x5u32 == orig_out & !0x5u32) by (bit_vector);
    (i, o)
}

/// Whatever key comes, a selection that is a row of the table (or 0 for an
/// empty table) stays one.
pub proof fn law_selection_stays_in_range(
    sel: int,
    ascii: bool,
    n: int,
    page: int,
    vk: u16,
    ch: u16,
)
    requires
        0 <= sel,
        0 <= n,
        0 <= page,
        sel_in_range(sel, n),
    ensures
        next_view(sel, ascii, n, page, vk, ch) matches Some((s, _)) ==> 0 <= s
            && sel_in_range(s, n),
{
}

/// What each key does, over every state. By key code: the up arrow (0x26)
/// moves one row up unless at the top, the down arrow (0x28) one row down
/// unless at the last row, Page Up (0x21) `page` rows up but not past the top,
/// Page Down (0x22) `page` rows down but not past the last row, Home (0x24) to
/// the top and End (0x23) to the last row; all keep the ASCII flag. Any other
/// key code goes by the character's low byte: `q`, `Q` and Esc quit, `j`
/// moves as the down arrow and `k` as the up arrow, `g` goes to the top and `G`
/// to the last row, `a` and `A` flip the ASCII flag and keep the selection, and
/// every other character changes nothing.
pub proof fn law_key_effects(sel: int, ascii: bool, n: int, page: int, vk: u16, ch: u16)
    requires
        0 <= sel,
        0 <= n,
        0 <= page,
    ensures
        ({
            let r = next_view(sel, ascii, n, page, vk, ch);
            let last = if n > 0 {
                n - 1
            } else {
                0
            };
            let by_code = vk == 0x21 || vk == 0x22 || vk == 0x23 || vk == 0x24 || vk == 0x26 || vk
                == 0x28;
            let c = ch % 256;
            &&& vk == 0x26 ==> r == Some((if sel > 0 {
                sel - 1
            } else {
                sel
            }, ascii))
            &&& vk == 0x28 ==> r == Some((if sel + 1 < n {
                sel + 1
            } else {
                sel
            }, ascii))
            &&& vk == 0x21 ==> r == Some((if sel >= page {
                sel - page
            } else {
                0
            }, ascii))
            &&& vk == 0x22 ==> r == Some((if sel + page <= last {
                sel + page
            } else {
                last
            }, ascii))
            &&& vk == 0x24 ==> r == Some((0int, ascii))
            &&& vk == 0x23 ==> r == Some((last, ascii))
            &&& !by_code && (c == 0x71 || c == 0x51 || c == 0x1b) ==> r is None
            &&& !by_code && c == 0x6a ==> r == Some((if sel + 1 < n {
                sel + 1
            } else {
                sel
            }, ascii))
            &&& !by_code && c == 0x6b ==> r == Some((if sel > 0 {
                sel - 1
            } else {
                sel
            }, ascii))
            &&& !by_code && c == 0x67 ==> r == Some((0int, ascii))
            &&& !by_code && c == 0x47 ==> r == Some((last, ascii))
            &&& !by_code && (c == 0x61 || c == 0x41) ==> r == Some((sel, !ascii))
            &&& !by_code && !(c == 0x71 || c == 0x51 || c == 0x1b || c == 0x6a || c == 0x6b || c
                == 0x67 || c == 0x47 || c == 0x61 || c == 0x41) ==> r == Some((sel, ascii))
        }),
{
}

/// Related calls: `j` and `k` act as the down and up arrows, and pressing `a`
/// twice gives back the state it started from.
pub proof fn law_key_pairs(sel: int, ascii: bool, n: int, page: int)
    requires
        0 <= sel,
        0 <= n,
        0 <= page,
    ensures
        next_view(sel, ascii, n, page, 0, 0x6a) == next_view(sel, ascii, n, page, 0x28, 0),
        next_view(sel, ascii, n, page, 0, 0x6b) == next_view(sel, ascii, n, page, 0x26, 0),
        next_view(sel, ascii, n, page, 0, 0x61) matches Some((s1, a1)) && next_view(
            s1,
            a1,
            n,
            page,
            0,
            0x61,
        ) == Some((sel, ascii)),
        next_view(sel, ascii, n, page, 0, 0x61) matches Some((s1, a1)) && a1 != ascii,
        next_view(sel, ascii, n, page, 0, 0x6a) matches Some((s2, _)) && s2 >= sel,
        next_view(sel, ascii, n, page, 0, 0x6b) matches Some((s3, _)) && s3 <= sel,
{
}

/// The console codes the viewer uses: the virtual-key codes of Page Up,
/// Page Down, End, Home, the up and down arrows, the key event type, and the
/// console mode bits. A key is a navigation key exactly when it has one of
/// those six key codes. Page Up and Page Down move the terminal height less
/// seven rows (title, headers, rules, status and one spare line), at least one.
pub proof fn law_console_codes(vk: u16, term_h: usize)
    ensures
        VK_PRIOR == 0x21 && VK_NEXT == 0x22 && VK_END == 0x23 && VK_HOME == 0x24 && VK_UP == 0x26
            && VK_DOWN == 0x28,
        KEY_EVENT == 1,
        ENABLE_PROCESSED_INPUT == 1 && ENABLE_LINE_INPUT == 2 && ENABLE_ECHO_INPUT == 4
            && ENABLE_VIRTUAL_TERMINAL_INPUT == 0x200,
        ENABLE_PROCESSED_OUTPUT == 1 && ENABLE_VIRTUAL_TERMINAL_PROCESSING == 4,
        is_nav_key(vk) <==> (vk == 0x21 || vk == 0x22 || vk == 0x23 || vk == 0x24 || vk == 0x26
            || vk == 0x28),
        page_size(term_h) == (if term_h >= 8 {
            term_h - 7
        } else {
            1
        }),
{
}

} // verus!
