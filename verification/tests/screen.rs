use s19parser::parse::parse_s19_internal;
use s19parser::screen::{render, frame_fits};
use s19parser::table::{build_table, Row};

fn table() -> (usize, Vec<Row>) {
    let recs = parse_s19_internal("S1050010AABB11\nS11700200102030405060708090A0B0C0D0E0F10414243445F\n");
    (recs.len(), build_table(&recs))
}

#[test]
fn frame_with_ascii_column() {
    let (nrec, rows) = table();
    let frame = render(&rows, 1, "fw.s19", nrec, true, 80, 10);
    assert_eq!(frame, "\u{1b}[?25l\u{1b}[H\u{1b}[2J \u{1b}[1m\u{1b}[36mS19 Viewer\u{1b}[0m | \u{1b}[33mfw.s19\u{1b}[0m | \u{1b}[32mrecords:\u{1b}[0m 2  \u{1b}[32mrows:\u{1b}[0m 3\r\n\u{1b}[2m───────────────────────────────────────────────────────────────────────────────\u{1b}[0m\r\n\u{1b}[1m\u{1b}[36m   Address     Hex Data (16 bytes/row)                   \u{1b}[0m  \u{1b}[1m\u{1b}[36mASCII             \u{1b}[0m\r\n\u{1b}[2m───────────────────────────────────────────────────────────────────────────────\u{1b}[0m\r\n\u{1b}[33m  0x00000010 \u{1b}[0m\u{1b}[37mAA BB                                      \u{1b}[0m\u{1b}[32m  ..                \u{1b}[0m\r\n\u{1b}[7m  0x00000020 01 02 03 04 05 06 07 08 09 0A 0B 0C 0D 0E    ................  \u{1b}[0m\r\n\u{1b}[33m  0x00000030 \u{1b}[0m\u{1b}[37m41 42 43 44                                \u{1b}[0m\u{1b}[32m  ABCD              \u{1b}[0m\r\n\r\n\u{1b}[2m───────────────────────────────────────────────────────────────────────────────\u{1b}[0m\r\n \u{1b}[2m\u{1b}[37m↑↓ scroll  PgUp/PgDn page  g/G top/bot  a:hide ASCII  q:quit   \u{1b}[36m2/3\u{1b}[0m");
}

#[test]
fn frame_narrow_without_ascii() {
    let (nrec, rows) = table();
    let frame = render(&rows, 2, "fw.s19", nrec, false, 30, 7);
    assert_eq!(frame, "\u{1b}[?25l\u{1b}[H\u{1b}[2J \u{1b}[1m\u{1b}[36mS19 Viewer\u{1b}[0m | \u{1b}[33mfw.s19\u{1b}[0m | \u{1b}[32mrecords:\u{1b}[0m 2  \u{1b}[32mrows:\u{1b}[0m 3\r\n\u{1b}[2m─────────────────────────────\u{1b}[0m\r\n\u{1b}[1m\u{1b}[36m   Address     Hex Data (16 bytes/row)\u{1b}[0m\r\n\u{1b}[2m─────────────────────────────\u{1b}[0m\r\n\u{1b}[7m  0x00000030 41 42 43 44         \u{1b}[0m\r\n\u{1b}[2m─────────────────────────────\u{1b}[0m\r\n \u{1b}[2m\u{1b}[37m↑↓ scroll  PgUp/PgDn page  g/G top/bot  a:show ASCII  q:quit   \u{1b}[36m3/3\u{1b}[0m");
}

#[test]
fn frame_of_empty_table() {
    let rows: Vec<Row> = Vec::new();
    let frame = render(&rows, 0, "empty.s19", 0, true, 20, 3);
    assert_eq!(frame, "\u{1b}[?25l\u{1b}[H\u{1b}[2J \u{1b}[1m\u{1b}[36mS19 Viewer\u{1b}[0m | \u{1b}[33mempty.s19\u{1b}[0m | \u{1b}[32mrecords:\u{1b}[0m 0  \u{1b}[32mrows:\u{1b}[0m 0\r\n\u{1b}[2m───────────────────\u{1b}[0m\r\n\u{1b}[1m\u{1b}[36m   Address     Hex Data (16 bytes/row)\u{1b}[0m  \u{1b}[1m\u{1b}[36mASCII             \u{1b}[0m\r\n\u{1b}[2m───────────────────\u{1b}[0m\r\n\r\n\u{1b}[2m───────────────────\u{1b}[0m\r\n \u{1b}[2m\u{1b}[37m↑↓ scroll  PgUp/PgDn page  g/G top/bot  a:hide ASCII  q:quit   \u{1b}[36m─\u{1b}[0m");
}

#[test]
fn frame_scrolled_to_middle() {
    let (nrec, rows) = table();
    let frame = render(&rows, 2, "fw.s19", nrec, true, 60, 7);
    assert_eq!(frame, "\u{1b}[?25l\u{1b}[H\u{1b}[2J \u{1b}[1m\u{1b}[36mS19 Viewer\u{1b}[0m | \u{1b}[33mfw.s19\u{1b}[0m | \u{1b}[32mrecords:\u{1b}[0m 2  \u{1b}[32mrows:\u{1b}[0m 3\r\n\u{1b}[2m───────────────────────────────────────────────────────────\u{1b}[0m\r\n\u{1b}[1m\u{1b}[36m   Address     Hex Data (16 bytes/row)\u{1b}[0m  \u{1b}[1m\u{1b}[36mASCII             \u{1b}[0m\r\n\u{1b}[2m───────────────────────────────────────────────────────────\u{1b}[0m\r\n\u{1b}[7m  0x00000030 41 42 43 44              ABCD              \u{1b}[0m\r\n\u{1b}[2m───────────────────────────────────────────────────────────\u{1b}[0m\r\n \u{1b}[2m\u{1b}[37m↑↓ scroll  PgUp/PgDn page  g/G top/bot  a:hide ASCII  q:quit   \u{1b}[36m3/3\u{1b}[0m");
}

#[test]
fn frame_keeps_selection_in_the_middle() {
    let text = "S1A31000000102030405060708090A0B0C0D0E0F101112131415161718191A1B1C1D1E1F202122232425262728292A2B2C2D2E2F303132333435363738393A3B3C3D3E3F404142434445464748494A4B4C4D4E4F505152535455565758595A5B5C5D5E5F606162636465666768696A6B6C6D6E6F707172737475767778797A7B7C7D7E7F808182838485868788898A8B8C8D8E8F909192939495969798999A9B9C9D9E9F00\nS1A31100A0A1A2A3A4A5A6A7A8A9AAABACADAEAFB0B1B2B3B4B5B6B7B8B9BABBBCBDBEBFC0C1C2C3C4C5C6C7C8C9CACBCCCDCECFD0D1D2D3D4D5D6D7D8D9DADBDCDDDEDFE0E1E2E3E4E5E6E7E8E9EAEBECEDEEEFF0F1F2F3F4F5F6F7F8F9FAFBFCFDFEFF000102030405060708090A0B0C0D0E0F101112131415161718191A1B1C1D1E1F202122232425262728292A2B2C2D2E2F303132333435363738393A3B3C3D3E3F00\nS1A31200404142434445464748494A4B4C4D4E4F505152535455565758595A5B5C5D5E5F606162636465666768696A6B6C6D6E6F707172737475767778797A7B7C7D7E7F808182838485868788898A8B8C8D8E8F909192939495969798999A9B9C9D9E9FA0A1A2A3A4A5A6A7A8A9AAABACADAEAFB0B1B2B3B4B5B6B7B8B9BABBBCBDBEBFC0C1C2C3C4C5C6C7C8C9CACBCCCDCECFD0D1D2D3D4D5D6D7D8D9DADBDCDDDEDF00\nS1A31300E0E1E2E3E4E5E6E7E8E9EAEBECEDEEEFF0F1F2F3F4F5F6F7F8F9FAFBFCFDFEFF000102030405060708090A0B0C0D0E0F101112131415161718191A1B1C1D1E1F202122232425262728292A2B2C2D2E2F303132333435363738393A3B3C3D3E3F404142434445464748494A4B4C4D4E4F505152535455565758595A5B5C5D5E5F606162636465666768696A6B6C6D6E6F707172737475767778797A7B7C7D7E7F00";
    let recs = parse_s19_internal(text);
    let rows = build_table(&recs);
    assert_eq!(rows.len(), 40);
    let frame = render(&rows, 20, "big.s19", recs.len(), true, 100, 16);
    assert_eq!(frame, "\u{1b}[?25l\u{1b}[H\u{1b}[2J \u{1b}[1m\u{1b}[36mS19 Viewer\u{1b}[0m | \u{1b}[33mbig.s19\u{1b}[0m | \u{1b}[32mrecords:\u{1b}[0m 4  \u{1b}[32mrows:\u{1b}[0m 40\r\n\u{1b}[2m───────────────────────────────────────────────────────────────────────────────────────────────────\u{1b}[0m\r\n\u{1b}[1m\u{1b}[36m   Address     Hex Data (16 bytes/row)                                       \u{1b}[0m  \u{1b}[1m\u{1b}[36mASCII             \u{1b}[0m\r\n\u{1b}[2m───────────────────────────────────────────────────────────────────────────────────────────────────\u{1b}[0m\r\n\u{1b}[33m  0x00001150 \u{1b}[0m\u{1b}[37mF0 F1 F2 F3 F4 F5 F6 F7 F8 F9 FA FB FC FD FE FF                \u{1b}[0m\u{1b}[32m  ................  \u{1b}[0m\r\n\u{1b}[33m  0x00001160 \u{1b}[0m\u{1b}[37m00 01 02 03 04 05 06 07 08 09 0A 0B 0C 0D 0E 0F                \u{1b}[0m\u{1b}[32m  ................  \u{1b}[0m\r\n\u{1b}[33m  0x00001170 \u{1b}[0m\u{1b}[37m10 11 12 13 14 15 16 17 18 19 1A 1B 1C 1D 1E 1F                \u{1b}[0m\u{1b}[32m  ................  \u{1b}[0m\r\n\u{1b}[33m  0x00001180 \u{1b}[0m\u{1b}[37m20 21 22 23 24 25 26 27 28 29 2A 2B 2C 2D 2E 2F                \u{1b}[0m\u{1b}[32m   !\"#$%&'()*+,-./  \u{1b}[0m\r\n\u{1b}[33m  0x00001190 \u{1b}[0m\u{1b}[37m30 31 32 33 34 35 36 37 38 39 3A 3B 3C 3D 3E 3F                \u{1b}[0m\u{1b}[32m  0123456789:;<=>?  \u{1b}[0m\r\n\u{1b}[7m  0x00001200 40 41 42 43 44 45 46 47 48 49 4A 4B 4C 4D 4E 4F                  @ABCDEFGHIJKLMNO  \u{1b}[0m\r\n\u{1b}[33m  0x00001210 \u{1b}[0m\u{1b}[37m50 51 52 53 54 55 56 57 58 59 5A 5B 5C 5D 5E 5F                \u{1b}[0m\u{1b}[32m  PQRSTUVWXYZ[\\]^_  \u{1b}[0m\r\n\u{1b}[33m  0x00001220 \u{1b}[0m\u{1b}[37m60 61 62 63 64 65 66 67 68 69 6A 6B 6C 6D 6E 6F                \u{1b}[0m\u{1b}[32m  `abcdefghijklmno  \u{1b}[0m\r\n\u{1b}[33m  0x00001230 \u{1b}[0m\u{1b}[37m70 71 72 73 74 75 76 77 78 79 7A 7B 7C 7D 7E 7F                \u{1b}[0m\u{1b}[32m  pqrstuvwxyz{|}~.  \u{1b}[0m\r\n\u{1b}[33m  0x00001240 \u{1b}[0m\u{1b}[37m80 81 82 83 84 85 86 87 88 89 8A 8B 8C 8D 8E 8F                \u{1b}[0m\u{1b}[32m  ................  \u{1b}[0m\r\n\u{1b}[2m───────────────────────────────────────────────────────────────────────────────────────────────────\u{1b}[0m\r\n \u{1b}[2m\u{1b}[37m↑↓ scroll  PgUp/PgDn page  g/G top/bot  a:hide ASCII  q:quit   \u{1b}[36m21/40\u{1b}[0m");
    assert!(frame.contains("\u{1b}[7m  0x00001200 "));
}

#[test]
fn frames_that_fit() {
    assert!(frame_fits(3, 1, 10));
    assert!(frame_fits(0, 0, 40));
    assert!(!frame_fits(3, usize::MAX, 10));
    assert!(!frame_fits(0, usize::MAX - 1, usize::MAX));
}
