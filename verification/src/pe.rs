//! PE header orchestration: locates the DOS header, file header, optional
//! header variant and data directory inside a raw buffer, decodes their
//! fields, and resolves every structure into display rows.

use crate::decode::{
    decode_structure, field_decoded, fields_decoded, le_value, lemma_le_value_bound, pow256,
    read_le, DecodeError,
};
use vstd::slice::{slice_subrange, slice_to_vec};
use crate::header::{
    dir_name_spec, directory_meaning_spec, directory_value_spec, dos_field_names,
    dos_field_names_spec, dos_offset_table, dos_widths_spec, file_field_names,
    file_field_names_spec, file_offset_table, file_widths_spec, fv_is_text, fv_matches,
    lemma_prefix_width_monotone, lemma_variant_tables_differ, prefix_width, resolve,
    resolve_data_directory, select_field_names, select_offset_table, variant_field_names_spec,
    variant_fixed_size, variant_widths_spec, DataDirectoryEntry, DecodedField, FieldValue,
    HeaderData, OptionalHeaderVariant,
};
use crate::hex::{dec_of, hex_of, u64_be_bytes};
use vstd::prelude::*;

verus! {

/// The DOS header's magic tag, `MZ` read little-endian.
pub const DOS_MAGIC: u64 = 0x5A4D;

/// The PE signature at `e_lfanew`, `PE\0\0` read little-endian.
pub const PE_SIGNATURE: u64 = 0x4550;

/// The optional-header magic tag of the 32-bit shape.
pub const OPTIONAL_MAGIC_32: u64 = 0x10B;

/// The optional-header magic tag of the 64-bit shape.
pub const OPTIONAL_MAGIC_64: u64 = 0x20B;

/// The `e_lfanew` field of the DOS header: the file offset of the PE
/// signature, read from bytes 60 to 63.
pub open spec fn e_lfanew_spec(b: Seq<u8>) -> int {
    le_value(b.subrange(60, 64))
}

/// The optional-header variant the magic tag at `e_lfanew + 24` names.
pub open spec fn pe_variant_spec(b: Seq<u8>) -> OptionalHeaderVariant {
    if le_value(b.subrange(e_lfanew_spec(b) + 24, e_lfanew_spec(b) + 26)) == OPTIONAL_MAGIC_32 {
        OptionalHeaderVariant::Bits32
    } else {
        OptionalHeaderVariant::Bits64
    }
}

/// Whether decoding the buffer succeeds, and with which error it fails:
/// the checks run in order over the DOS magic, `e_lfanew`, the PE
/// signature, the optional-header magic, and the buffer's length against
/// the selected variant's full extent.
pub open spec fn decode_pe_status(b: Seq<u8>) -> Result<OptionalHeaderVariant, DecodeError> {
    if b.len() < 64 {
        Err(DecodeError::Truncated)
    } else if le_value(b.subrange(0, 2)) != DOS_MAGIC as int {
        Err(DecodeError::UnknownMagic)
    } else {
        let e = e_lfanew_spec(b);
        if e + 26 > b.len() {
            Err(DecodeError::Truncated)
        } else if le_value(b.subrange(e, e + 4)) != PE_SIGNATURE as int {
            Err(DecodeError::UnknownMagic)
        } else {
            let m = le_value(b.subrange(e + 24, e + 26));
            if m == OPTIONAL_MAGIC_32 as int {
                if e + 24 + 224 <= b.len() {
                    Ok(OptionalHeaderVariant::Bits32)
                } else {
                    Err(DecodeError::Truncated)
                }
            } else if m == OPTIONAL_MAGIC_64 as int {
                if e + 24 + 240 <= b.len() {
                    Ok(OptionalHeaderVariant::Bits64)
                } else {
                    Err(DecodeError::Truncated)
                }
            } else {
                Err(DecodeError::UnknownMagic)
            }
        }
    }
}

/// The decoded header region of one executable: the variant tag, the
/// fields of the three header structures, and the 16 directory slots.
#[derive(Debug, PartialEq, Eq)]
pub struct PeHeader {
    pub e_lfanew: u32,
    pub variant: OptionalHeaderVariant,
    pub dos_stub: Vec<u8>,
    pub dos_fields: Vec<DecodedField>,
    pub file_fields: Vec<DecodedField>,
    pub optional_fields: Vec<DecodedField>,
    pub data_directory: Vec<DataDirectoryEntry>,
}

/// The bytes between the end of the DOS header and the PE signature.
pub open spec fn dos_stub_spec(b: Seq<u8>) -> Seq<u8> {
    if e_lfanew_spec(b) >= 64 {
        b.subrange(64, e_lfanew_spec(b))
    } else {
        Seq::empty()
    }
}

/// Directory slot `i`, decoded from the eight bytes at its position in
/// the directory block.
pub open spec fn directory_entry_decoded(
    b: Seq<u8>,
    dir_base: int,
    i: int,
    d: DataDirectoryEntry,
) -> bool {
    &&& d.index == i
    &&& d.virtual_address == le_value(b.subrange(dir_base + 8 * i, dir_base + 8 * i + 4))
    &&& d.size == le_value(b.subrange(dir_base + 8 * i + 4, dir_base + 8 * i + 8))
}

/// The whole header region decoded from the buffer: the DOS header at
/// the file start, the file header after the PE signature, the optional
/// header after the file header, and the directory block at the end of
/// the optional header's fixed fields.
pub open spec fn pe_decoded(b: Seq<u8>, h: PeHeader) -> bool {
    let e = e_lfanew_spec(b);
    &&& h.e_lfanew == e
    &&& h.variant == pe_variant_spec(b)
    &&& h.dos_stub@ == dos_stub_spec(b)
    &&& fields_decoded(b, 0, dos_widths_spec(), dos_field_names_spec(), h.dos_fields@)
    &&& fields_decoded(b, e + 4, file_widths_spec(), file_field_names_spec(), h.file_fields@)
    &&& fields_decoded(
        b,
        e + 24,
        variant_widths_spec(h.variant),
        variant_field_names_spec(h.variant),
        h.optional_fields@,
    )
    &&& h.data_directory@.len() == 16
    &&& forall|i: int|
        0 <= i < 16 ==> directory_entry_decoded(
            b,
            e + 24 + variant_fixed_size(h.variant),
            i,
            h.data_directory@[i],
        )
}

/// Decodes the header region of an executable. Succeeds exactly when the
/// checks of `decode_pe_status` pass, and fails with the error that spec
/// names: an unrecognized magic tag or a buffer that ends too soon.
pub fn decode_pe(bytes: &[u8]) -> (r: Result<PeHeader, DecodeError>)
    ensures
        r is Ok <==> decode_pe_status(bytes@) is Ok,
        (r matches Err(err) ==> decode_pe_status(bytes@) == Result::<
            OptionalHeaderVariant,
            DecodeError,
        >::Err(err)),
        (r matches Ok(h) ==> pe_decoded(bytes@, h)),
{
    let len = bytes.len();
    if len < 64 {
        return Err(DecodeError::Truncated);
    }
    let dos_magic = read_le(bytes, 0, 2);
    if dos_magic != DOS_MAGIC {
        return Err(DecodeError::UnknownMagic);
    }
    let e64 = read_le(bytes, 60, 4);
    proof {
        lemma_le_value_bound(bytes@.subrange(60, 64));
        reveal_with_fuel(pow256, 5);
    }
    let e = e64 as u32;
    if e64 + 26 > len as u64 {
        return Err(DecodeError::Truncated);
    }
    let eu = e as usize;
    let sig = read_le(bytes, eu, 4);
    if sig != PE_SIGNATURE {
        return Err(DecodeError::UnknownMagic);
    }
    let magic = read_le(bytes, eu + 24, 2);
    let variant = if magic == OPTIONAL_MAGIC_32 {
        OptionalHeaderVariant::Bits32
    } else if magic == OPTIONAL_MAGIC_64 {
        OptionalHeaderVariant::Bits64
    } else {
        return Err(DecodeError::UnknownMagic);
    };
    let total: u64 = match variant {
        OptionalHeaderVariant::Bits32 => 224,
        OptionalHeaderVariant::Bits64 => 240,
    };
    if e64 + 24 + total > len as u64 {
        return Err(DecodeError::Truncated);
    }
    let dos_table = dos_offset_table();
    let dos_names = dos_field_names();
    proof {
        reveal_with_fuel(prefix_width, 20);
        assert(prefix_width(dos_widths_spec(), 19) == 64);
        assert(Seq::new(dos_names@.len(), |i: int| dos_names@[i]@) =~= dos_field_names_spec());
    }
    let dos_fields = match decode_structure(bytes, 0, &dos_table, &dos_names) {
        Ok(f) => f,
        Err(err) => {
            return Err(err);
        },
    };
    let file_table = file_offset_table();
    let file_names = file_field_names();
    proof {
        reveal_with_fuel(prefix_width, 8);
        assert(prefix_width(file_widths_spec(), 7) == 20);
        assert(Seq::new(file_names@.len(), |i: int| file_names@[i]@) =~= file_field_names_spec());
    }
    let file_fields = match decode_structure(bytes, eu + 4, &file_table, &file_names) {
        Ok(f) => f,
        Err(err) => {
            return Err(err);
        },
    };
    let opt_table = select_offset_table(variant);
    let opt_names = select_field_names(variant);
    proof {
        lemma_variant_tables_differ();
        assert(Seq::new(opt_names@.len(), |i: int| opt_names@[i]@) =~= variant_field_names_spec(
            variant,
        ));
    }
    let opt_fields = match decode_structure(bytes, eu + 24, &opt_table, &opt_names) {
        Ok(f) => f,
        Err(err) => {
            return Err(err);
        },
    };
    let dos_stub: Vec<u8> = if eu >= 64 {
        slice_to_vec(slice_subrange(bytes, 64, eu))
    } else {
        Vec::new()
    };
    let fixed: usize = match variant {
        OptionalHeaderVariant::Bits32 => 96,
        OptionalHeaderVariant::Bits64 => 112,
    };
    let dir_base = eu + 24 + fixed;
    let mut dirs: Vec<DataDirectoryEntry> = Vec::new();
    let mut i: usize = 0;
    while i < 16
        invariant
            len == bytes@.len(),
            dir_base + 128 <= len,
            i <= 16,
            dirs@.len() == i,
            forall|k: int|
                0 <= k < i ==> directory_entry_decoded(
                    bytes@,
                    dir_base as int,
                    k,
                    #[trigger] dirs@[k],
                ),
        decreases 16 - i,
    {
        let off = dir_base + 8 * i;
        let va64 = read_le(bytes, off, 4);
        let size64 = read_le(bytes, off + 4, 4);
        proof {
            lemma_le_value_bound(bytes@.subrange(off as int, off + 4));
            lemma_le_value_bound(bytes@.subrange(off + 4, off + 8));
            reveal_with_fuel(pow256, 5);
        }
        dirs.push(
            DataDirectoryEntry { index: i, virtual_address: va64 as u32, size: size64 as u32 },
        );
        i = i + 1;
    }
    Ok(
        PeHeader {
            e_lfanew: e,
            variant,
            dos_stub,
            dos_fields,
            file_fields,
            optional_fields: opt_fields,
            data_directory: dirs,
        },
    )
}

proof fn lemma_value_transfer(
    b: Seq<u8>,
    base: int,
    widths: Seq<u16>,
    i: int,
    a: FieldValue,
    c: FieldValue,
)
    requires
        fv_matches(a, c),
        field_decoded(b, base, widths, i, c),
    ensures
        field_decoded(b, base, widths, i, a),
{
}

/// The four resolved display tables of one executable's header region.
#[derive(Debug, PartialEq, Eq)]
pub struct HeaderTables {
    pub dos: Vec<HeaderData>,
    pub file: Vec<HeaderData>,
    pub optional: Vec<HeaderData>,
    pub directories: Vec<HeaderData>,
}

/// The resolved rows of one structure, read straight off the buffer:
/// row `i` carries the display offset `display_base` plus the widths of
/// the fields before field `i`, the field's name, its value decoded from
/// the buffer at `decode_base`, and the placeholder annotation.
pub open spec fn table_rows_from(
    b: Seq<u8>,
    decode_base: int,
    display_base: int,
    widths: Seq<u16>,
    names: Seq<Seq<char>>,
    rows: Seq<HeaderData>,
) -> bool {
    &&& rows.len() == widths.len()
    &&& forall|i: int|
        0 <= i < rows.len() ==> {
            &&& (#[trigger] rows[i]).offset@ == hex_of(
                u64_be_bytes((display_base + prefix_width(widths, i)) as u64),
            )
            &&& rows[i].name@ == names[i]
            &&& field_decoded(b, decode_base, widths, i, rows[i].value)
            &&& rows[i].meaning@ == "Test"@
        }
}

/// The resolved rows of the 16-slot data directory, read straight off
/// the buffer at `dir_base`.
pub open spec fn directory_rows_from(b: Seq<u8>, dir_base: int, rows: Seq<HeaderData>) -> bool {
    &&& rows.len() == 16
    &&& forall|i: int|
        0 <= i < 16 ==> {
            let va = le_value(b.subrange(dir_base + 8 * i, dir_base + 8 * i + 4)) as u32;
            let sz = le_value(b.subrange(dir_base + 8 * i + 4, dir_base + 8 * i + 8)) as u32;
            &&& (#[trigger] rows[i]).offset@ == dec_of(i)
            &&& rows[i].name@ == dir_name_spec(i)
            &&& fv_is_text(rows[i].value, directory_value_spec(va, sz))
            &&& rows[i].meaning@ == directory_meaning_spec(va, sz)
        }
}

/// All four display tables read straight off the buffer, under the base
/// offsets each structure owes to the structures before it: the DOS
/// header at zero, the file header at `e_lfanew`, the optional header at
/// `e_lfanew` plus the fixed 24 bytes of signature and file header, and
/// the directory block at the end of the optional header's fixed fields.
pub open spec fn tables_from(b: Seq<u8>, t: HeaderTables) -> bool {
    let e = e_lfanew_spec(b);
    let v = pe_variant_spec(b);
    &&& table_rows_from(b, 0, 0, dos_widths_spec(), dos_field_names_spec(), t.dos@)
    &&& table_rows_from(b, e + 4, e, file_widths_spec(), file_field_names_spec(), t.file@)
    &&& table_rows_from(
        b,
        e + 24,
        e + 24,
        variant_widths_spec(v),
        variant_field_names_spec(v),
        t.optional@,
    )
    &&& directory_rows_from(b, e + 24 + variant_fixed_size(v), t.directories@)
}

/// Decodes the header region and resolves every structure into display
/// rows. Succeeds exactly when decoding does, with the same error
/// otherwise.
pub fn resolve_pe(bytes: &[u8]) -> (r: Result<HeaderTables, DecodeError>)
    ensures
        r is Ok <==> decode_pe_status(bytes@) is Ok,
        (r matches Err(err) ==> decode_pe_status(bytes@) == Result::<
            OptionalHeaderVariant,
            DecodeError,
        >::Err(err)),
        (r matches Ok(t) ==> tables_from(bytes@, t)),
{
    let h = match decode_pe(bytes) {
        Ok(h) => h,
        Err(err) => {
            return Err(err);
        },
    };
    let e = h.e_lfanew;
    proof {
        reveal_with_fuel(prefix_width, 20);
        assert(prefix_width(dos_widths_spec(), 19) == 64);
        assert(prefix_width(file_widths_spec(), 7) == 20);
        lemma_variant_tables_differ();
    }
    let dos_table = dos_offset_table();
    proof {
        assert forall|i: int| 0 <= i < h.dos_fields@.len() implies 0 + prefix_width(
            dos_widths_spec(),
            i,
        ) <= u64::MAX by {
            lemma_prefix_width_monotone(dos_widths_spec(), 0, i);
            lemma_prefix_width_monotone(dos_widths_spec(), i, 19);
        }
    }
    let dos = resolve(&h.dos_fields, &dos_table, 0);
    let file_table = file_offset_table();
    proof {
        assert forall|i: int| 0 <= i < h.file_fields@.len() implies (e as int) + prefix_width(
            file_widths_spec(),
            i,
        ) <= u64::MAX by {
            lemma_prefix_width_monotone(file_widths_spec(), 0, i);
            lemma_prefix_width_monotone(file_widths_spec(), i, 7);
        }
    }
    let file = resolve(&h.file_fields, &file_table, e as u64);
    let opt_table = select_offset_table(h.variant);
    let ghost opt_widths = variant_widths_spec(h.variant);
    let ghost opt_len = opt_widths.len() as int;
    proof {
        assert forall|i: int| 0 <= i < h.optional_fields@.len() implies (e as int) + 24
            + prefix_width(opt_widths, i) <= u64::MAX by {
            lemma_prefix_width_monotone(opt_widths, 0, i);
            lemma_prefix_width_monotone(opt_widths, i, opt_len);
        }
    }
    let optional = resolve(&h.optional_fields, &opt_table, e as u64 + 24);
    let directories = resolve_data_directory(&h.data_directory);
    proof {
        let b = bytes@;
        let ghost ev = e_lfanew_spec(b);
        assert forall|i: int| 0 <= i < dos@.len() implies field_decoded(
            b,
            0,
            dos_widths_spec(),
            i,
            (#[trigger] dos@[i]).value,
        ) by {
            lemma_value_transfer(
                b,
                0,
                dos_widths_spec(),
                i,
                dos@[i].value,
                h.dos_fields@[i].value,
            );
        }
        assert forall|i: int| 0 <= i < file@.len() implies field_decoded(
            b,
            ev + 4,
            file_widths_spec(),
            i,
            (#[trigger] file@[i]).value,
        ) by {
            lemma_value_transfer(
                b,
                ev + 4,
                file_widths_spec(),
                i,
                file@[i].value,
                h.file_fields@[i].value,
            );
        }
        assert forall|i: int| 0 <= i < optional@.len() implies field_decoded(
            b,
            ev + 24,
            opt_widths,
            i,
            (#[trigger] optional@[i]).value,
        ) by {
            lemma_value_transfer(
                b,
                ev + 24,
                opt_widths,
                i,
                optional@[i].value,
                h.optional_fields@[i].value,
            );
        }
    }
    Ok(HeaderTables { dos, file, optional, directories })
}

} // verus!
