use moon_embed::artifact::embed_bytes;
use moon_embed::binary::{push_bytes_body, push_bytes_literal, ROW_WIDTH};

const BYTES_HEADER: &str =
    "// Generated by `moon tool embed --binary`, do not edit.\n\n///|\nlet resource : Bytes = ";

fn literal(bytes: &[u8]) -> String {
    let mut out = String::new();
    push_bytes_literal(&mut out, bytes);
    out
}

fn body(bytes: &[u8]) -> String {
    let mut out = String::new();
    push_bytes_body(&mut out, bytes);
    out
}

/// Reads a literal back as a reader would for whom blanks and line breaks
/// mean nothing.
fn read_back(literal: &str) -> Option<Vec<u8>> {
    let dense: String = literal.chars().filter(|c| *c != ' ' && *c != '\n').collect();
    let inner = dense.strip_prefix("Bytes::of([")?.strip_suffix("])")?;
    let mut bytes: Vec<u8> = Vec::new();
    if inner.is_empty() {
        return Some(bytes);
    }
    for entry in inner.strip_suffix(',')?.split(',') {
        let digits = entry.strip_prefix("0x")?;
        if digits.len() != 2 {
            return None;
        }
        bytes.push(u8::from_str_radix(digits, 16).ok()?);
    }
    Some(bytes)
}

#[test]
fn fourteen_bytes_give_a_row_of_twelve_and_a_row_of_two() {
    let bytes: Vec<u8> = (0x00u8..=0x0d).collect();
    assert_eq!(
        body(&bytes),
        "  0x00, 0x01, 0x02, 0x03, 0x04, 0x05, 0x06, 0x07, 0x08, 0x09, 0x0a, 0x0b, \n  0x0c, 0x0d, "
    );
    assert_eq!(
        embed_bytes("resource", None, &bytes),
        format!(
            "{}Bytes::of([\n  0x00, 0x01, 0x02, 0x03, 0x04, 0x05, 0x06, 0x07, 0x08, 0x09, 0x0a, 0x0b, \n  0x0c, 0x0d, \n])\n",
            BYTES_HEADER
        )
    );
}

#[test]
fn no_bytes_give_an_empty_body() {
    assert_eq!(body(&[]), "");
    assert_eq!(literal(&[]), "Bytes::of([\n\n])\n");
    assert_eq!(embed_bytes("resource", None, &[]), format!("{}Bytes::of([\n\n])\n", BYTES_HEADER));
}

#[test]
fn one_byte_gives_one_row_with_one_entry() {
    assert_eq!(literal(&[0x7f]), "Bytes::of([\n  0x7f, \n])\n");
}

#[test]
fn twelve_bytes_fill_one_row() {
    let bytes = [0xffu8; 12];
    assert_eq!(
        literal(&bytes),
        "Bytes::of([\n  0xff, 0xff, 0xff, 0xff, 0xff, 0xff, 0xff, 0xff, 0xff, 0xff, 0xff, 0xff, \n])\n"
    );
}

#[test]
fn the_thirteenth_byte_opens_a_second_row() {
    let bytes = [0u8; 13];
    assert_eq!(
        literal(&bytes),
        "Bytes::of([\n  0x00, 0x00, 0x00, 0x00, 0x00, 0x00, 0x00, 0x00, 0x00, 0x00, 0x00, 0x00, \n  0x00, \n])\n"
    );
}

#[test]
fn every_byte_is_written_in_two_lowercase_digits() {
    for value in 0u8..=255 {
        assert_eq!(body(&[value]), format!("  0x{:02x}, ", value));
    }
}

#[test]
fn equal_bytes_are_all_written() {
    assert_eq!(body(&[0xab, 0xab, 0xab]), "  0xab, 0xab, 0xab, ");
}

#[test]
fn the_sixteen_digits_are_lowercase() {
    assert_eq!(
        body(&[0x01, 0x23, 0x45, 0x67, 0x89, 0xab, 0xcd, 0xef]),
        "  0x01, 0x23, 0x45, 0x67, 0x89, 0xab, 0xcd, 0xef, "
    );
}

#[test]
fn row_width_is_twelve() {
    assert_eq!(ROW_WIDTH, 12);
}

#[test]
fn push_bytes_literal_keeps_what_was_there() {
    let mut out = String::from("let x = ");
    push_bytes_literal(&mut out, &[1, 2]);
    assert_eq!(out, "let x = Bytes::of([\n  0x01, 0x02, \n])\n");
}

#[test]
fn rows_hold_the_bytes_in_groups_of_twelve() {
    for len in 0usize..=40 {
        let bytes: Vec<u8> = (0..len).map(|i| (i * 7 + 3) as u8).collect();
        let out = body(&bytes);
        if len == 0 {
            assert_eq!(out, "");
            continue;
        }
        let rows: Vec<&str> = out.split('\n').collect();
        assert_eq!(rows.len(), (len + 11) / 12);
        for (k, row) in rows.iter().enumerate() {
            let from = 12 * k;
            let to = std::cmp::min(from + 12, len);
            let mut expected = String::from("  ");
            for b in &bytes[from..to] {
                expected.push_str(&format!("0x{:02x}, ", b));
            }
            assert_eq!(*row, expected);
        }
        let last = rows[rows.len() - 1];
        let in_last = (last.len() - 2) / 6;
        assert_eq!(in_last, if len % 12 == 0 { 12 } else { len % 12 });
    }
}

#[test]
fn bytes_literal_reads_back_as_the_bytes() {
    let all: Vec<u8> = (0u8..=255).collect();
    let samples: Vec<Vec<u8>> = vec![
        vec![],
        vec![0],
        vec![0xff],
        (0u8..12).collect(),
        (0u8..13).collect(),
        (0u8..24).collect(),
        vec![b'\n', b' ', b',', b'0', b'x'],
        all,
    ];
    for bytes in samples {
        assert_eq!(read_back(&literal(&bytes)), Some(bytes));
    }
}

#[test]
fn bytes_header_holds_the_name() {
    assert_eq!(
        embed_bytes("blob", None, &[0xca, 0xfe]),
        "// Generated by `moon tool embed --binary`, do not edit.\n\n///|\nlet blob : Bytes = Bytes::of([\n  0xca, 0xfe, \n])\n"
    );
}

#[test]
fn bytes_header_holds_the_time_stamp() {
    assert_eq!(
        embed_bytes("resource", Some("2024-05-17 09:30:00"), &[1]),
        "// Generated by `moon tool embed --binary` on 2024-05-17 09:30:00, do not edit.\n\n///|\nlet resource : Bytes = Bytes::of([\n  0x01, \n])\n"
    );
}
