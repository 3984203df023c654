use rustdump::decode::{decode_structure, read_le, DecodeError};
use rustdump::header::{FieldValue, OptionalHeaderVariant, StructureOffsetTable};
use rustdump::pe::{decode_pe, resolve_pe};

fn make_pe(variant: OptionalHeaderVariant) -> Vec<u8> {
    let (magic, total) = match variant {
        OptionalHeaderVariant::Bits32 => (0x10Bu16, 224usize),
        OptionalHeaderVariant::Bits64 => (0x20Bu16, 240usize),
    };
    let e_lfanew = 64usize;
    let mut b = vec![0u8; e_lfanew + 24 + total];
    // DOS magic "MZ"
    b[0] = 0x4D;
    b[1] = 0x5A;
    // e_lfanew at byte 60
    b[60] = e_lfanew as u8;
    // PE signature "PE\0\0"
    b[e_lfanew] = 0x50;
    b[e_lfanew + 1] = 0x45;
    // optional-header magic
    b[e_lfanew + 24] = (magic & 0xFF) as u8;
    b[e_lfanew + 25] = (magic >> 8) as u8;
    b
}

#[test]
fn read_le_values() {
    let bytes = [0x01u8, 0x02, 0x03, 0x04];
    assert_eq!(read_le(&bytes, 0, 2), 0x0201);
    assert_eq!(read_le(&bytes, 0, 4), 0x04030201);
    assert_eq!(read_le(&bytes, 2, 1), 3);
    assert_eq!(read_le(&bytes, 0, 0), 0);
    assert_eq!(read_le(&[0xFFu8; 8], 0, 8), u64::MAX);
}

#[test]
fn decode_structure_reads_fields() {
    let table = StructureOffsetTable {
        widths: vec![2, 4],
    };
    let names = vec!["a", "b"];
    let bytes = [0x01u8, 0x02, 0x03, 0x00, 0x00, 0x00];
    let fields = decode_structure(&bytes, 0, &table, &names).unwrap();
    assert_eq!(fields.len(), 2);
    assert_eq!(fields[0].name, "a");
    assert_eq!(fields[0].value, FieldValue::Integer(0x0201));
    assert_eq!(fields[1].name, "b");
    assert_eq!(fields[1].value, FieldValue::Integer(3));
}

#[test]
fn decode_structure_truncated() {
    let table = StructureOffsetTable {
        widths: vec![2, 4],
    };
    let names = vec!["a", "b"];
    let bytes = [0x01u8, 0x02, 0x03, 0x00, 0x00];
    let r = decode_structure(&bytes, 0, &table, &names);
    assert_eq!(r, Err(DecodeError::Truncated));
}

#[test]
fn decode_structure_wide_field_kept_as_bytes() {
    let table = StructureOffsetTable {
        widths: vec![2, 12],
    };
    let names = vec!["a", "blob"];
    let bytes = [9u8; 14];
    let fields = decode_structure(&bytes, 0, &table, &names).unwrap();
    assert_eq!(fields[1].value, FieldValue::Bytes(vec![9u8; 12]));
}

#[test]
fn decode_pe32_header() {
    let mut b = make_pe(OptionalHeaderVariant::Bits32);
    // directory slot 0: virtual address 16, size 8
    let dir_base = 64 + 24 + 96;
    b[dir_base] = 16;
    b[dir_base + 4] = 8;
    let h = decode_pe(&b).unwrap();
    assert_eq!(h.e_lfanew, 64);
    assert_eq!(h.variant, OptionalHeaderVariant::Bits32);
    assert_eq!(h.dos_fields.len(), 19);
    assert_eq!(h.dos_fields[0].name, "e_magic");
    assert_eq!(h.dos_fields[0].value, FieldValue::Integer(0x5A4D));
    assert_eq!(h.dos_fields[18].name, "e_lfanew");
    assert_eq!(h.dos_fields[18].value, FieldValue::Integer(64));
    assert_eq!(h.file_fields.len(), 7);
    assert_eq!(h.file_fields[0].name, "machine");
    assert_eq!(h.optional_fields.len(), 31);
    assert_eq!(h.optional_fields[0].name, "magic");
    assert_eq!(h.optional_fields[0].value, FieldValue::Integer(0x10B));
    assert_eq!(h.data_directory.len(), 16);
    assert_eq!(h.data_directory[0].index, 0);
    assert_eq!(h.data_directory[0].virtual_address, 16);
    assert_eq!(h.data_directory[0].size, 8);
    assert_eq!(h.data_directory[1].virtual_address, 0);
    assert_eq!(h.data_directory[1].size, 0);
}

#[test]
fn decode_pe_extracts_dos_stub() {
    // same layout, but the PE signature pushed out to byte 128
    let e_lfanew = 128usize;
    let total = 224usize;
    let mut b = vec![0u8; e_lfanew + 24 + total];
    b[0] = 0x4D;
    b[1] = 0x5A;
    b[60] = e_lfanew as u8;
    for i in 64..128 {
        b[i] = i as u8;
    }
    b[e_lfanew] = 0x50;
    b[e_lfanew + 1] = 0x45;
    b[e_lfanew + 24] = 0x0B;
    b[e_lfanew + 25] = 0x01;
    let h = decode_pe(&b).unwrap();
    assert_eq!(h.e_lfanew, 128);
    assert_eq!(h.dos_stub, (64u8..128).collect::<Vec<u8>>());
}

#[test]
fn decode_pe_empty_stub_when_headers_touch() {
    let b = make_pe(OptionalHeaderVariant::Bits32);
    let h = decode_pe(&b).unwrap();
    assert_eq!(h.dos_stub.len(), 0);
}

#[test]
fn decode_pe64_selects_other_table() {
    let b = make_pe(OptionalHeaderVariant::Bits64);
    let h = decode_pe(&b).unwrap();
    assert_eq!(h.variant, OptionalHeaderVariant::Bits64);
    assert_eq!(h.optional_fields.len(), 30);
    assert_eq!(h.optional_fields[0].value, FieldValue::Integer(0x20B));
    assert_eq!(h.optional_fields[8].name, "image_base");
}

#[test]
fn decode_pe_rejects_short_buffer() {
    assert_eq!(decode_pe(&[]), Err(DecodeError::Truncated));
    assert_eq!(decode_pe(&[0u8; 63]), Err(DecodeError::Truncated));
}

#[test]
fn decode_pe_rejects_bad_dos_magic() {
    let b = vec![0u8; 64];
    assert_eq!(decode_pe(&b), Err(DecodeError::UnknownMagic));
}

#[test]
fn decode_pe_rejects_lfanew_past_end() {
    let mut b = vec![0u8; 64];
    b[0] = 0x4D;
    b[1] = 0x5A;
    b[60] = 0xE8;
    b[61] = 0x03;
    assert_eq!(decode_pe(&b), Err(DecodeError::Truncated));
}

#[test]
fn decode_pe_rejects_bad_signature() {
    let mut b = make_pe(OptionalHeaderVariant::Bits32);
    b[64] = 0x4E;
    assert_eq!(decode_pe(&b), Err(DecodeError::UnknownMagic));
}

#[test]
fn decode_pe_rejects_unknown_optional_magic() {
    let mut b = make_pe(OptionalHeaderVariant::Bits32);
    b[64 + 24] = 0x99;
    b[64 + 25] = 0x09;
    assert_eq!(decode_pe(&b), Err(DecodeError::UnknownMagic));
}

#[test]
fn decode_pe_rejects_cut_optional_header() {
    let mut b = make_pe(OptionalHeaderVariant::Bits32);
    b.truncate(300);
    assert_eq!(decode_pe(&b), Err(DecodeError::Truncated));
}

#[test]
fn resolve_pe_builds_all_tables() {
    let mut b = make_pe(OptionalHeaderVariant::Bits32);
    let dir_base = 64 + 24 + 96;
    b[dir_base] = 16;
    b[dir_base + 4] = 8;
    let t = resolve_pe(&b).unwrap();
    assert_eq!(t.dos.len(), 19);
    assert_eq!(t.file.len(), 7);
    assert_eq!(t.optional.len(), 31);
    assert_eq!(t.directories.len(), 16);
    assert_eq!(t.dos[0].offset, "0000000000000000");
    assert_eq!(t.dos[0].name, "e_magic");
    assert_eq!(t.dos[0].value, FieldValue::Integer(0x5A4D));
    assert_eq!(t.dos[0].meaning, "Test");
    assert_eq!(t.dos[1].offset, "0000000000000002");
    // file header rows shown from e_lfanew
    assert_eq!(t.file[0].offset, "0000000000000040");
    assert_eq!(t.file[1].offset, "0000000000000042");
    // optional header rows shown from e_lfanew + 24
    assert_eq!(t.optional[0].offset, "0000000000000058");
    assert_eq!(t.optional[0].name, "magic");
    assert_eq!(t.directories[0].offset, "0");
    assert_eq!(t.directories[0].name, "Export Directory");
    assert_eq!(t.directories[0].meaning, "Present");
    assert_eq!(
        t.directories[0].value,
        FieldValue::Text("VA: 0x00000010, Size: 8 (0x8)".to_string())
    );
    assert_eq!(t.directories[1].meaning, "Not present");
}

#[test]
fn resolve_pe_passes_decode_errors_through() {
    assert_eq!(resolve_pe(&[0u8; 10]).unwrap_err(), DecodeError::Truncated);
    let b = vec![0u8; 64];
    assert_eq!(resolve_pe(&b).unwrap_err(), DecodeError::UnknownMagic);
}
