use rustdump::dump::{
    chunk, create_dump, page, page_count, paginate, render, CompressedDumpText, HexRow, Hexrow,
    HexviewData,
};
use rustdump::hex::{ascii_string, dec_string_u64, hex_min_string_u64, hex_string};

#[test]
fn chunk_covers_buffer() {
    let data: Vec<u8> = (0u8..20).collect();
    let d = chunk(&data, 16, 0);
    assert_eq!(d.rows.len(), 2);
    assert_eq!(d.rows[0].offset, 0);
    assert_eq!(d.rows[1].offset, 16);
    assert_eq!(d.rows[0].bytes, (0u8..16).collect::<Vec<u8>>());
    assert_eq!(d.rows[1].bytes, (16u8..20).collect::<Vec<u8>>());
    let mut rebuilt: Vec<u8> = Vec::new();
    for row in &d.rows {
        rebuilt.extend_from_slice(&row.bytes);
    }
    assert_eq!(rebuilt, data);
}

#[test]
fn chunk_empty_buffer() {
    let data: Vec<u8> = Vec::new();
    let d = chunk(&data, 16, 0);
    assert_eq!(d.rows.len(), 0);
}

#[test]
fn chunk_row_count_rounds_up() {
    for (len, expected) in [(1usize, 1usize), (15, 1), (16, 1), (17, 2), (32, 2), (33, 3)] {
        let data = vec![0u8; len];
        let d = chunk(&data, 16, 0);
        assert_eq!(d.rows.len(), expected, "length {}", len);
    }
}

#[test]
fn chunk_only_last_row_short() {
    let data = vec![9u8; 40];
    let d = chunk(&data, 16, 0);
    assert_eq!(d.rows.len(), 3);
    assert_eq!(d.rows[0].bytes.len(), 16);
    assert_eq!(d.rows[1].bytes.len(), 16);
    assert_eq!(d.rows[2].bytes.len(), 8);
}

#[test]
fn chunk_width_one() {
    let data = vec![7u8, 8, 9];
    let d = chunk(&data, 1, 0);
    assert_eq!(d.rows.len(), 3);
    for (i, row) in d.rows.iter().enumerate() {
        assert_eq!(row.offset, i as u64);
        assert_eq!(row.bytes, vec![data[i]]);
    }
}

#[test]
fn chunk_base_offset_shifts_rows() {
    let data = vec![0u8; 20];
    let d = chunk(&data, 16, 0x100);
    assert_eq!(d.rows[0].offset, 0x100);
    assert_eq!(d.rows[1].offset, 0x110);
}

#[test]
fn render_two_identical_rows() {
    let data = vec![0x41u8; 32];
    let d = chunk(&data, 16, 0);
    assert_eq!(d.rows.len(), 2);
    assert_eq!(d.rows[0].bytes, d.rows[1].bytes);
    let t = render(&d);
    assert_eq!(t.lines.len(), 2);
    assert_eq!(
        t.lines[0],
        "0000000000000000  41 41 41 41 41 41 41 41 41 41 41 41 41 41 41 41  AAAAAAAAAAAAAAAA"
    );
    assert_eq!(t.lines[1], "*");
}

#[test]
fn render_run_emits_one_star() {
    let mut data = vec![0u8; 48];
    data.extend(vec![0xFFu8; 16]);
    let d = chunk(&data, 16, 0);
    let t = render(&d);
    let full: Vec<&String> = t.lines.iter().filter(|l| l.as_str() != "*").collect();
    let stars: Vec<&String> = t.lines.iter().filter(|l| l.as_str() == "*").collect();
    assert_eq!(full.len(), 2);
    assert_eq!(stars.len(), 1);
    assert_eq!(t.lines[1], "*");
}

#[test]
fn render_does_not_collapse_nonadjacent_duplicates() {
    let mut data = vec![1u8; 16];
    data.extend(vec![2u8; 16]);
    data.extend(vec![1u8; 16]);
    let d = chunk(&data, 16, 0);
    let t = render(&d);
    assert_eq!(t.lines.len(), 3);
    assert!(t.lines.iter().all(|l| l.as_str() != "*"));
}

#[test]
fn render_twice_is_identical() {
    let data: Vec<u8> = (0u8..=255).collect();
    let d = chunk(&data, 16, 0);
    let first = render(&d).text();
    let second = render(&d).text();
    assert_eq!(first, second);
}

#[test]
fn text_joins_lines_with_newlines() {
    let t = CompressedDumpText {
        lines: vec!["a".to_string(), "b".to_string()],
    };
    assert_eq!(t.text(), "a\nb\n");
}

#[test]
fn paginate_splits_lines() {
    let t = CompressedDumpText {
        lines: vec![
            "1".to_string(),
            "2".to_string(),
            "3".to_string(),
            "4".to_string(),
            "5".to_string(),
        ],
    };
    let pages = paginate(&t, 2);
    assert_eq!(pages.len(), 3);
    assert_eq!(pages[0], vec!["1".to_string(), "2".to_string()]);
    assert_eq!(pages[1], vec!["3".to_string(), "4".to_string()]);
    assert_eq!(pages[2], vec!["5".to_string()]);
}

#[test]
fn paginate_exact_multiple() {
    let t = CompressedDumpText {
        lines: vec!["1".to_string(), "2".to_string()],
    };
    let pages = paginate(&t, 2);
    assert_eq!(pages.len(), 1);
    assert_eq!(pages[0].len(), 2);
}

#[test]
fn pages_indexed_by_number() {
    let t = CompressedDumpText {
        lines: vec![
            "1".to_string(),
            "2".to_string(),
            "3".to_string(),
            "4".to_string(),
            "5".to_string(),
        ],
    };
    assert_eq!(page_count(&t, 2), 3);
    assert_eq!(page(&t, 2, 0).unwrap(), vec!["1".to_string(), "2".to_string()]);
    assert_eq!(page(&t, 2, 1).unwrap(), vec!["3".to_string(), "4".to_string()]);
    assert_eq!(page(&t, 2, 2).unwrap(), vec!["5".to_string()]);
    assert!(page(&t, 2, 3).is_none());
    let empty = CompressedDumpText { lines: Vec::new() };
    assert_eq!(page_count(&empty, 2), 0);
    assert!(page(&empty, 2, 0).is_none());
}

#[test]
fn hex_string_two_digits_per_byte() {
    assert_eq!(hex_string(&[0xAB, 0x01]), "AB01");
    assert_eq!(hex_string(&[]), "");
    assert_eq!(hex_string(&[0x00, 0xFF, 0x5A]), "00FF5A");
}

#[test]
fn ascii_string_dots_for_nongraphic() {
    let data = [0x41u8, 0x20, 0x7E, 0x21, 0x00, 0x7F];
    assert_eq!(ascii_string(&data), "A.~!..");
}

#[test]
fn hexrow_display_fields() {
    let row = HexRow {
        offset: 1,
        bytes: vec![0x41, 0x42],
    };
    let h = Hexrow::from_row(&row);
    assert_eq!(h.offset, "0100000000000000");
    assert_eq!(h.bytes, "41 42");
    assert_eq!(h.ascii, "AB");
}

#[test]
fn create_dump_rows() {
    let data = vec![0x41u8; 17];
    let rows = create_dump(&data);
    assert_eq!(rows.len(), 2);
    assert_eq!(rows[0].offset, "0000000000000000");
    assert_eq!(rows[1].offset, "1000000000000000");
    assert_eq!(rows[1].bytes, "41");
    assert_eq!(rows[1].ascii, "A");
}

#[test]
fn hexview_rows_cells_and_offsets() {
    let data: Vec<u8> = (0u8..20).collect();
    let rows = HexviewData::build_rows(&data, 64);
    assert_eq!(rows.len(), 2);
    assert_eq!(rows[0].offset, "4000");
    assert_eq!(rows[1].offset, "5000");
    assert_eq!(rows[0].hex_data.len(), 16);
    assert_eq!(rows[1].hex_data.len(), 4);
    assert_eq!(rows[0].hex_data[0], "00");
    assert_eq!(rows[0].hex_data[15], "0F");
    assert_eq!(rows[1].hex_data[0], "10");
}

#[test]
fn ascii_cells_one_per_byte() {
    let data = [0x41u8, 0x00, 0x7E];
    let cells = rustdump::hex::ascii_cells(&data);
    assert_eq!(cells, vec!["A".to_string(), ".".to_string(), "~".to_string()]);
}

#[test]
fn decimal_rendering() {
    assert_eq!(dec_string_u64(0), "0");
    assert_eq!(dec_string_u64(1234), "1234");
    assert_eq!(dec_string_u64(u64::MAX), "18446744073709551615");
}

#[test]
fn minimal_hex_rendering() {
    assert_eq!(hex_min_string_u64(0), "0");
    assert_eq!(hex_min_string_u64(255), "FF");
    assert_eq!(hex_min_string_u64(4096), "1000");
}
