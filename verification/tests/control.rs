use s19parser::control::{
    console_modes, handle_key, is_key_press, key_fits, page_rows, window_size, ViewState, VK_DOWN, VK_END,
    VK_HOME, VK_NEXT, VK_PRIOR, VK_UP,
};

fn key(sel: usize, ascii: bool, n: usize, page: usize, vk: u16, ch: u16) -> Option<(usize, bool)> {
    handle_key(ViewState { sel, ascii }, n, page, vk, ch).map(|s| (s.sel, s.ascii))
}

#[test]
fn arrows_move_within_the_table() {
    assert_eq!(key(0, true, 5, 3, VK_UP, 0), Some((0, true)));
    assert_eq!(key(2, true, 5, 3, VK_UP, 0), Some((1, true)));
    assert_eq!(key(2, true, 5, 3, VK_DOWN, 0), Some((3, true)));
    assert_eq!(key(4, false, 5, 3, VK_DOWN, 0), Some((4, false)));
    assert_eq!(key(0, true, 0, 3, VK_DOWN, 0), Some((0, true)));
}

#[test]
fn paging_and_ends() {
    assert_eq!(key(4, true, 10, 3, VK_PRIOR, 0), Some((1, true)));
    assert_eq!(key(2, true, 10, 3, VK_PRIOR, 0), Some((0, true)));
    assert_eq!(key(4, true, 10, 3, VK_NEXT, 0), Some((7, true)));
    assert_eq!(key(8, true, 10, 3, VK_NEXT, 0), Some((9, true)));
    assert_eq!(key(0, true, 0, 3, VK_NEXT, 0), Some((0, true)));
    assert_eq!(key(5, true, 10, 3, VK_HOME, 0), Some((0, true)));
    assert_eq!(key(5, true, 10, 3, VK_END, 0), Some((9, true)));
    assert_eq!(key(0, true, 0, 3, VK_END, 0), Some((0, true)));
}

#[test]
fn character_keys() {
    assert_eq!(key(1, true, 5, 3, 0, 'q' as u16), None);
    assert_eq!(key(1, true, 5, 3, 0, 'Q' as u16), None);
    assert_eq!(key(1, true, 5, 3, 0, 0x1B), None);
    assert_eq!(key(1, true, 5, 3, 0, 'j' as u16), Some((2, true)));
    assert_eq!(key(1, true, 5, 3, 0, 'k' as u16), Some((0, true)));
    assert_eq!(key(3, true, 5, 3, 0, 'g' as u16), Some((0, true)));
    assert_eq!(key(1, true, 5, 3, 0, 'G' as u16), Some((4, true)));
    assert_eq!(key(1, true, 5, 3, 0, 'a' as u16), Some((1, false)));
    assert_eq!(key(1, false, 5, 3, 0, 'A' as u16), Some((1, true)));
    assert_eq!(key(1, true, 5, 3, 0, 'x' as u16), Some((1, true)));
    // Only the low byte of the character counts.
    assert_eq!(key(1, true, 5, 3, 0, 0x0171), None);
    // A navigation key code wins over its character.
    assert_eq!(key(1, true, 5, 3, VK_UP, 'q' as u16), Some((0, true)));
}

#[test]
fn selection_stays_in_range() {
    let keys: [(u16, u16); 10] = [
        (VK_UP, 0), (VK_DOWN, 0), (VK_PRIOR, 0), (VK_NEXT, 0), (VK_HOME, 0), (VK_END, 0),
        (0, 'j' as u16), (0, 'k' as u16), (0, 'g' as u16), (0, 'G' as u16),
    ];
    for n in 0..6usize {
        for sel in 0..n.max(1) {
            for &(vk, ch) in keys.iter() {
                let (s, _) = key(sel, true, n, 2, vk, ch).unwrap();
                assert!(s < n || s == 0);
            }
        }
    }
}

#[test]
fn page_size_from_terminal_height() {
    assert_eq!(page_rows(30), 23);
    assert_eq!(page_rows(8), 1);
    assert_eq!(page_rows(7), 1);
    assert_eq!(page_rows(0), 1);
}

#[test]
fn key_presses() {
    assert!(is_key_press(1, 1, 1));
    assert!(!is_key_press(0, 1, 1));
    assert!(!is_key_press(1, 2, 1));
    assert!(!is_key_press(1, 1, 0));
}

#[test]
fn window_sizes() {
    assert_eq!(window_size(0, 0, 119, 29), (120, 30));
    assert_eq!(window_size(0, 0, 9, 1), (40, 5));
    assert_eq!(window_size(10, 5, 9, 4), (40, 5));
}

#[test]
fn console_mode_bits() {
    assert_eq!(console_modes(0x0007, 0x0000), (0x0200, 0x0005));
    assert_eq!(console_modes(0x01F7, 0x0010), (0x03F0, 0x0015));
}

#[test]
fn keys_that_fit() {
    assert!(key_fits(3, 10, VK_DOWN, 0));
    assert!(!key_fits(usize::MAX, 10, VK_DOWN, 0));
    assert!(!key_fits(usize::MAX, 10, 0, 'j' as u16));
    assert!(key_fits(usize::MAX, 10, VK_UP, 'j' as u16));
    assert!(key_fits(usize::MAX, 10, 0, 'k' as u16));
    assert!(!key_fits(usize::MAX - 5, 10, VK_NEXT, 0));
    assert!(key_fits(usize::MAX - 10, 10, VK_NEXT, 0));
}
