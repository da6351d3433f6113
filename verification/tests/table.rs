use s19parser::parse::parse_s19_internal;
use s19parser::record::S19Record;
use s19parser::table::{build_table, rows_fit};

fn record(address: u32, payload: &[u8]) -> S19Record {
    let mut data = [0u8; 255];
    data[..payload.len()].copy_from_slice(payload);
    S19Record { record_type: 3, address, data_len: payload.len() as u32, data }
}

#[test]
fn rows_of_sixteen_bytes() {
    let payload: Vec<u8> = (0x00..0x14u8).collect();
    let rows = build_table(&[record(0x1000, &payload)]);
    assert_eq!(rows.len(), 2);
    assert_eq!(rows[0].addr(), 0x1000);
    assert_eq!(rows[0].hex(), "00 01 02 03 04 05 06 07 08 09 0A 0B 0C 0D 0E 0F");
    assert_eq!(rows[0].ascii(), "................");
    assert_eq!(rows[1].addr(), 0x1010);
    assert_eq!(rows[1].hex(), "10 11 12 13");
    assert_eq!(rows[1].ascii(), "....");
}

#[test]
fn ascii_column_shows_printable_bytes() {
    let rows = build_table(&[record(0, &[0x1F, 0x20, 0x41, 0x7E, 0x7F, 0x80, 0xFF])]);
    assert_eq!(rows.len(), 1);
    assert_eq!(rows[0].hex(), "1F 20 41 7E 7F 80 FF");
    assert_eq!(rows[0].ascii(), ". A~...");
}

#[test]
fn empty_records_have_no_rows() {
    let rows = build_table(&[record(0x20, &[]), record(0x30, &[0xAB])]);
    assert_eq!(rows.len(), 1);
    assert_eq!(rows[0].addr(), 0x30);
    assert_eq!(rows[0].hex(), "AB");
    assert_eq!(rows[0].ascii(), ".");
}

#[test]
fn rows_follow_record_order() {
    let recs = parse_s19_internal("S1050010AABB11\nS11700200102030405060708090A0B0C0D0E0F10414243445F\n");
    let rows = build_table(&recs);
    let addrs: Vec<u32> = rows.iter().map(|r| r.addr()).collect();
    assert_eq!(addrs, vec![0x10, 0x20, 0x30]);
    assert_eq!(rows[0].hex(), "AA BB");
    assert_eq!(rows[2].hex(), "41 42 43 44");
    assert_eq!(rows[2].ascii(), "ABCD");
}

#[test]
fn exact_multiple_of_sixteen() {
    let payload = [0x55u8; 32];
    let rows = build_table(&[record(0xFFFF_FFE0, &payload)]);
    assert_eq!(rows.len(), 2);
    assert_eq!(rows[1].addr(), 0xFFFF_FFF0);
    assert_eq!(rows[1].ascii(), "UUUUUUUUUUUUUUUU");
}

#[test]
fn row_addresses_must_fit() {
    assert!(rows_fit(&record(0xFFFF_FFE0, &[0u8; 32])));
    assert!(!rows_fit(&record(0xFFFF_FFF1, &[0u8; 17])));
    assert!(rows_fit(&record(0xFFFF_FFFF, &[0u8; 16])));
    assert!(rows_fit(&record(0xFFFF_FFFF, &[])));
    let mut r = record(0, &[]);
    r.data_len = 256;
    assert!(!rows_fit(&r));
}

#[test]
fn rows_cover_the_data_in_order() {
    let payload: Vec<u8> = (0..100u32).map(|i| (i * 7) as u8).collect();
    let rows = build_table(&[record(0x2000, &payload)]);
    assert_eq!(rows.len(), 7);
    let mut back: Vec<u8> = Vec::new();
    for (i, row) in rows.iter().enumerate() {
        assert_eq!(row.addr(), 0x2000 + 16 * i as u32);
        let bytes: Vec<u8> = row.hex().split(' ').map(|h| u8::from_str_radix(h, 16).unwrap()).collect();
        assert!(!bytes.is_empty() && bytes.len() <= 16);
        back.extend(bytes);
    }
    assert_eq!(back, payload);
}
