use rustdump::header::{
    data_directory_base, dir_name, directory_meaning, directory_value, dos_field_names,
    dos_offset_table, file_header_base, file_offset_table, optional_header_base, resolve,
    resolve_data_directory, resolve_offsets, select_field_names, select_offset_table,
    DataDirectoryEntry, DecodedField, FieldValue, OptionalHeaderVariant, SectionData,
    StructureOffsetTable,
};

#[test]
fn offsets_from_widths_are_cumulative() {
    let table = StructureOffsetTable {
        widths: vec![2, 2, 4, 4],
    };
    let offsets = resolve_offsets(&table, 4, 0);
    assert_eq!(offsets, vec![0, 2, 4, 8]);
}

#[test]
fn offsets_shift_with_base() {
    let table = StructureOffsetTable {
        widths: vec![2, 2, 4, 4],
    };
    let offsets = resolve_offsets(&table, 4, 0x40);
    assert_eq!(offsets, vec![0x40, 0x42, 0x44, 0x48]);
}

#[test]
fn cumulative_width_sums_prefix() {
    let table = StructureOffsetTable {
        widths: vec![2, 2, 4, 4],
    };
    assert_eq!(table.cumulative_width(0), 0);
    assert_eq!(table.cumulative_width(2), 4);
    assert_eq!(table.cumulative_width(4), 12);
}

#[test]
fn resolve_zips_fields_with_offsets() {
    let fields = vec![
        DecodedField {
            name: "a".to_string(),
            value: FieldValue::Integer(7),
        },
        DecodedField {
            name: "b".to_string(),
            value: FieldValue::Text("x".to_string()),
        },
    ];
    let table = StructureOffsetTable {
        widths: vec![2, 2],
    };
    let rows = resolve(&fields, &table, 0x40);
    assert_eq!(rows.len(), 2);
    assert_eq!(rows[0].offset, "0000000000000040");
    assert_eq!(rows[1].offset, "0000000000000042");
    assert_eq!(rows[0].name, "a");
    assert_eq!(rows[1].name, "b");
    assert_eq!(rows[0].value, FieldValue::Integer(7));
    assert_eq!(rows[1].value, FieldValue::Text("x".to_string()));
    assert_eq!(rows[0].meaning, "Test");
    assert_eq!(rows[1].meaning, "Test");
}

#[test]
fn directory_names_fixed_table() {
    assert_eq!(dir_name(0), "Export Directory");
    assert_eq!(dir_name(1), "Import Directory");
    assert_eq!(dir_name(9), "TLS Directory");
    assert_eq!(dir_name(15), "Reserved Directory");
    assert_eq!(dir_name(16), "Unknown Directory");
}

#[test]
fn directory_presence() {
    assert_eq!(directory_meaning(0, 0), "Not present");
    assert_eq!(directory_meaning(1, 0), "Present");
    assert_eq!(directory_meaning(0, 1), "Present");
    assert_eq!(directory_meaning(3, 4), "Present");
}

#[test]
fn directory_value_format() {
    assert_eq!(directory_value(0x1000, 256), "VA: 0x00001000, Size: 256 (0x100)");
    assert_eq!(directory_value(0, 0), "VA: 0x00000000, Size: 0 (0x0)");
}

#[test]
fn directory_rows() {
    let dirs = vec![
        DataDirectoryEntry {
            index: 0,
            virtual_address: 0,
            size: 0,
        },
        DataDirectoryEntry {
            index: 1,
            virtual_address: 0x2000,
            size: 64,
        },
    ];
    let rows = resolve_data_directory(&dirs);
    assert_eq!(rows.len(), 2);
    assert_eq!(rows[0].offset, "0");
    assert_eq!(rows[1].offset, "1");
    assert_eq!(rows[0].name, "Export Directory");
    assert_eq!(rows[1].name, "Import Directory");
    assert_eq!(rows[0].meaning, "Not present");
    assert_eq!(rows[1].meaning, "Present");
    assert_eq!(
        rows[1].value,
        FieldValue::Text("VA: 0x00002000, Size: 64 (0x40)".to_string())
    );
}

#[test]
fn variant_tables_never_cross_apply() {
    let t32 = select_offset_table(OptionalHeaderVariant::Bits32);
    let t64 = select_offset_table(OptionalHeaderVariant::Bits64);
    assert_eq!(t32.widths.len(), 31);
    assert_eq!(t64.widths.len(), 30);
    let sum32: u64 = t32.widths.iter().map(|w| *w as u64).sum();
    let sum64: u64 = t64.widths.iter().map(|w| *w as u64).sum();
    assert_eq!(sum32, 224);
    assert_eq!(sum64, 240);
    let n32 = select_field_names(OptionalHeaderVariant::Bits32);
    let n64 = select_field_names(OptionalHeaderVariant::Bits64);
    assert_eq!(n32.len(), 31);
    assert_eq!(n64.len(), 30);
    assert_eq!(n32[8], "base_of_data");
    assert_eq!(n64[8], "image_base");
}

#[test]
fn structure_tables_match_field_counts() {
    let dos = dos_offset_table();
    let file = file_offset_table();
    assert_eq!(dos.widths.len(), 19);
    assert_eq!(file.widths.len(), 7);
    let dos_sum: u64 = dos.widths.iter().map(|w| *w as u64).sum();
    let file_sum: u64 = file.widths.iter().map(|w| *w as u64).sum();
    assert_eq!(dos_sum, 64);
    assert_eq!(file_sum, 20);
    assert_eq!(dos_field_names().len(), 19);
}

#[test]
fn base_offset_composition() {
    assert_eq!(file_header_base(0x80), 0x80);
    assert_eq!(optional_header_base(0x80), 0x98);
    assert_eq!(data_directory_base(0x80, OptionalHeaderVariant::Bits32), 0x80 + 24 + 96);
    assert_eq!(data_directory_base(0x80, OptionalHeaderVariant::Bits64), 0x80 + 24 + 112);
}

#[test]
fn section_row_fields() {
    let s = SectionData::from_fields(".text".to_string(), 0x1000, 0x400000, 512, 0x60000020);
    assert_eq!(s.name, ".text");
    assert_eq!(s.addr, "0010400000000000");
    assert_eq!(s.raw_size, "512");
    assert_eq!(s.characteristics, "20000060");
}
