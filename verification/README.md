# s19parser

A verified parser for Motorola S-record (S19) firmware images, and the
verified core of a terminal viewer for them.

- `src/text.rs` — line splitting and Unicode whitespace trimming over UTF-8 bytes.
- `src/hex.rs` — hexadecimal pairs and big-endian numbers.
- `src/record.rs` — `S19Record`, one S1/S2/S3 data record, and its model.
- `src/parse.rs` — the parser `parse_s19_internal`.
- `src/laws.rs` — laws of the parser: records are well shaped, a record written
  as a line reads back unchanged whatever its checksum, the checksum pair and
  trailing text never matter, lines are independent, and lines whose reading
  would cut a character are skipped.
- `src/strings.rs` — decimal and hexadecimal text, padding.
- `src/table.rs` — the viewer's table: records cut into rows of sixteen bytes.
- `src/screen.rs` — one frame of the viewer's screen.
- `src/control.rs` — key handling, window size and console modes.
- `app/` — the Windows console program and the C interface around the library.
