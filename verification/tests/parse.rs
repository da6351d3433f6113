use s19parser::parse::parse_s19_internal;
use s19parser::record::S19Record;

fn payload(r: &S19Record) -> Vec<u8> {
    r.data[..r.data_len as usize].to_vec()
}

fn parse(text: &str) -> Vec<S19Record> {
    parse_s19_internal(text)
}

fn hex_line(rt: u8, addr_bytes: &[u8], data: &[u8], checksum: u8) -> String {
    let bc = addr_bytes.len() + data.len() + 1;
    let mut s = format!("S{}{:02X}", rt, bc);
    for b in addr_bytes.iter().chain(data.iter()) {
        s.push_str(&format!("{:02X}", b));
    }
    s.push_str(&format!("{:02X}", checksum));
    s
}

#[test]
fn hello_world_record() {
    let recs = parse("S10FCAFE48656C6C6F205765726C6421C8");
    assert_eq!(recs.len(), 1);
    assert_eq!(recs[0].record_type, 1);
    assert_eq!(recs[0].address, 0xCAFE);
    assert_eq!(recs[0].data_len, 12);
    assert_eq!(payload(&recs[0]), b"Hello Werld!".to_vec());
    assert!(recs[0].data[12..].iter().all(|&b| b == 0));
}

#[test]
fn byte_count_larger_than_line_is_skipped() {
    // The byte count 0x10 asks for 32 hex characters; only 30 follow.
    assert!(parse("S110CAFE48656C6C6F205765726C6421C8").is_empty());
}

#[test]
fn minimal_file_example_has_no_complete_data_record() {
    let text = "S009000000FCAA\nS1083000F0C0E0C1B4\nS5030000FB\nS9030000FC";
    assert!(parse(text).is_empty());
}

#[test]
fn multiple_records_example() {
    let text = "S00F000068656C6C6F202020202020108A\n\
                S1134800000123456789ABCDEF0123456789ABCDEF0123A8\n\
                S1138000FEDCBA9876543210FEDCBA9876543210FEDCBA8B\n\
                S5030002FA\n\
                S9030000FC\n";
    let recs = parse(text);
    assert_eq!(recs.len(), 2);
    assert_eq!(recs[0].record_type, 1);
    assert_eq!(recs[0].address, 0x4800);
    assert_eq!(
        payload(&recs[0]),
        vec![0x00, 0x01, 0x23, 0x45, 0x67, 0x89, 0xAB, 0xCD, 0xEF, 0x01, 0x23, 0x45, 0x67, 0x89, 0xAB, 0xCD]
    );
    assert_eq!(recs[1].address, 0x8000);
    assert_eq!(
        payload(&recs[1]),
        vec![0xFE, 0xDC, 0xBA, 0x98, 0x76, 0x54, 0x32, 0x10, 0xFE, 0xDC, 0xBA, 0x98, 0x76, 0x54, 0x32, 0x10]
    );
}

#[test]
fn s2_and_s3_records() {
    let recs = parse("S2080012345678ABCDEF\nS3091234567801020304FF\n");
    assert_eq!(recs.len(), 2);
    assert_eq!(recs[0].record_type, 2);
    assert_eq!(recs[0].address, 0x001234);
    assert_eq!(payload(&recs[0]), vec![0x56, 0x78, 0xAB, 0xCD]);
    assert_eq!(recs[1].record_type, 3);
    assert_eq!(recs[1].address, 0x12345678);
    assert_eq!(payload(&recs[1]), vec![1, 2, 3, 4]);
}

#[test]
fn empty_payload_record() {
    let recs = parse("S3051234567801\nS103001234");
    assert_eq!(recs.len(), 2);
    assert_eq!(recs[0].address, 0x12345678);
    assert_eq!(recs[0].data_len, 0);
    assert_eq!(recs[1].address, 0x0012);
    assert_eq!(recs[1].data_len, 0);
}

#[test]
fn byte_count_must_cover_address_and_checksum() {
    assert!(parse("S1020012").is_empty());
    assert!(parse("S30412345678").is_empty());
}

#[test]
fn other_record_types_and_short_lines_are_skipped() {
    assert!(parse("S0030000FC\nS5030000FB\nS7050000000000\nS804000000FB\nS9030000FC").is_empty());
    assert!(parse("s1050000AABB").is_empty());
    assert!(parse("S1\nS10\n\n   \n").is_empty());
    assert!(parse("").is_empty());
}

#[test]
fn invalid_hex_skips_the_line() {
    assert!(parse("S10500XX1122").is_empty());
    assert!(parse("S1-5001011").is_empty());
    assert!(parse("S1ZZ0010AABB11").is_empty());
    let recs = parse("S10500XX1122\nS1050010AABB11");
    assert_eq!(recs.len(), 1);
    assert_eq!(recs[0].address, 0x10);
}

#[test]
fn lower_case_hex() {
    let recs = parse("S1050010aabb11");
    assert_eq!(payload(&recs[0]), vec![0xAA, 0xBB]);
}

#[test]
fn sign_characters_are_not_hex() {
    assert!(parse("S1048000+1EE\nS1+4800011EE").is_empty());
    assert!(parse("S1+FCAFE48656C6C6F205765726C6421C8").is_empty());
    assert!(parse("S10F+AFE48656C6C6F205765726C6421C8").is_empty());
    assert!(parse("S1050010AABB+1").is_empty());
}

#[test]
fn extra_characters_after_the_record_are_ignored() {
    let recs = parse("S105001011223344556677");
    assert_eq!(recs[0].address, 0x10);
    assert_eq!(payload(&recs[0]), vec![0x11, 0x22]);
}

#[test]
fn whitespace_and_crlf_are_trimmed() {
    let recs = parse("  \tS1050010AABB11  \r\n\u{00A0}S1050020CCDD11\u{3000}\r\n");
    assert_eq!(recs.len(), 2);
    assert_eq!(recs[0].address, 0x10);
    assert_eq!(recs[1].address, 0x20);
    assert_eq!(payload(&recs[1]), vec![0xCC, 0xDD]);
}

#[test]
fn checksum_is_not_checked() {
    for c in [0x00u8, 0x5A, 0xFF] {
        let line = hex_line(1, &[0x12, 0x34], &[1, 2, 3], c);
        let recs = parse(&line);
        assert_eq!(recs.len(), 1);
        assert_eq!(recs[0].address, 0x1234);
        assert_eq!(payload(&recs[0]), vec![1, 2, 3]);
    }
}

#[test]
fn largest_record() {
    let data: Vec<u8> = (0..252u32).map(|i| i as u8).collect();
    let line = hex_line(1, &[0xFF, 0xFF], &data, 0);
    let recs = parse(&line);
    assert_eq!(recs.len(), 1);
    assert_eq!(recs[0].data_len, 252);
    assert_eq!(payload(&recs[0]), data);
}

#[test]
fn record_round_trip() {
    let cases: Vec<(u8, Vec<u8>, u32)> = vec![
        (1, vec![0xAB, 0xCD], 0xABCD),
        (2, vec![0x01, 0x02, 0x03], 0x010203),
        (3, vec![0xDE, 0xAD, 0xBE, 0xEF], 0xDEADBEEF),
    ];
    for (rt, addr, value) in cases {
        let data = vec![0x00, 0x7F, 0x80, 0xFF];
        let recs = parse(&hex_line(rt, &addr, &data, 0x42));
        assert_eq!(recs.len(), 1);
        assert_eq!(recs[0].record_type, rt);
        assert_eq!(recs[0].address, value);
        assert_eq!(payload(&recs[0]), data);
    }
}

#[test]
fn lines_are_parsed_independently() {
    let a = "S1050010AABB11\nS0030000FC";
    let b = "S2080012345678ABCDEF";
    let joined = format!("{}\n{}", a, b);
    let ra = parse(a);
    let rb = parse(b);
    let rj = parse(&joined);
    assert_eq!(rj.len(), ra.len() + rb.len());
    for (x, y) in rj.iter().zip(ra.iter().chain(rb.iter())) {
        assert_eq!(x.record_type, y.record_type);
        assert_eq!(x.address, y.address);
        assert_eq!(payload(x), payload(y));
    }
}

#[test]
fn records_are_well_shaped() {
    let recs = parse("S1050010AABB11\nS2080012345678ABCDEF\nS3091234567801020304FF");
    for r in &recs {
        assert!((1..=3).contains(&r.record_type));
        assert!(r.data_len as usize + r.record_type as usize + 2 <= 255);
    }
    assert!(recs[0].address < 0x10000);
    assert!(recs[1].address < 0x1000000);
}

#[test]
fn lines_with_non_ascii_text_are_skipped() {
    assert!(parse("S1\u{20AC}0010AABB11").is_empty());
    assert!(parse("a\u{20AC}bcdef").is_empty());
    assert!(parse("S103\u{00E9}1234").is_empty());
    assert!(parse("\u{00E9}\u{20AC}xx").is_empty());
    assert!(parse("S0\u{20AC}\u{20AC}").is_empty());
    assert!(parse("S1a\u{e9}").is_empty());
    assert!(parse("x\u{e9}yz").is_empty());
    assert!(parse("S1050010AA\u{e9}11").is_empty());
    let recs = parse("S1\u{20AC}0010AABB11\nS1050010AABB11\n\u{00E9}");
    assert_eq!(recs.len(), 1);
    assert_eq!(recs[0].address, 0x10);
}

#[test]
fn all_unicode_whitespace_is_trimmed() {
    let text = "\u{1680}\u{2005}\u{0085}\u{000B}\u{000C}S1050010AABB11\u{205F}\u{2028}\u{2029}\u{202F}\u{200A}\u{2000}";
    let recs = parse_s19_internal(text);
    assert_eq!(recs.len(), 1);
    assert_eq!(payload(&recs[0]), vec![0xAA, 0xBB]);
    // A zero-width space is not whitespace: the line does not start with `S1`.
    assert!(parse("\u{200B}S1050010AABB11").is_empty());
}

#[test]
fn checksum_and_trailing_text_do_not_matter() {
    let base = "S1050010AABB11";
    let variants = [
        "S1050010AABB11",
        "S1050010AABB00",
        "S1050010AABBff",
        "S1050010AABB11xyz",
        "S1050010AABB7F \t;comment+-",
        "S1050010AABB11\u{e9}\u{20AC}",
    ];
    let r0 = parse(base);
    assert_eq!(r0.len(), 1);
    for v in variants.iter() {
        let r = parse(v);
        assert_eq!(r.len(), 1);
        assert_eq!(r[0].record_type, r0[0].record_type);
        assert_eq!(r[0].address, r0[0].address);
        assert_eq!(payload(&r[0]), payload(&r0[0]));
    }
}
