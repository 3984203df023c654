//! Header offset resolver: pairs a decoded structure's named field values
//! with file-relative byte offsets computed from a per-structure table of
//! field widths and a base offset, and renders the fixed 16-entry data
//! directory with its human-readable labels.

use crate::hex::{
    clone_string, dec_of, dec_string_u64, hex_min_of, hex_min_string_u64, hex_of, hex_u32_be,
    hex_u64_be, u32_be_bytes, u64_be_bytes,
};
use vstd::prelude::*;

verus! {

/// A decoded field value: one scalar kind per shape a header field takes.
#[derive(Debug, PartialEq, Eq)]
pub enum FieldValue {
    Integer(u64),
    Text(String),
    Bytes(Vec<u8>),
}

/// Same kind and same content, compared through the views.
pub open spec fn fv_matches(a: FieldValue, b: FieldValue) -> bool {
    match (a, b) {
        (FieldValue::Integer(x), FieldValue::Integer(y)) => x == y,
        (FieldValue::Text(s), FieldValue::Text(t)) => s@ == t@,
        (FieldValue::Bytes(u), FieldValue::Bytes(v)) => u@ == v@,
        _ => false,
    }
}

/// Holds exactly the given text.
pub open spec fn fv_is_text(a: FieldValue, s: Seq<char>) -> bool {
    match a {
        FieldValue::Text(t) => t@ == s,
        _ => false,
    }
}

/// Holds exactly the given integer.
pub open spec fn fv_is_integer(a: FieldValue, n: int) -> bool {
    match a {
        FieldValue::Integer(x) => x == n,
        _ => false,
    }
}

fn clone_bytes(v: &Vec<u8>) -> (r: Vec<u8>)
    ensures
        r@ == v@,
{
    let mut r: Vec<u8> = Vec::new();
    let mut i: usize = 0;
    while i < v.len()
        invariant
            i <= v@.len(),
            r@ == v@.take(i as int),
        decreases v@.len() - i,
    {
        r.push(v[i]);
        proof {
            assert(v@.take(i + 1) =~= v@.take(i as int).push(v@[i as int]));
        }
        i = i + 1;
    }
    proof {
        assert(v@.take(v@.len() as int) =~= v@);
    }
    r
}

fn clone_value(v: &FieldValue) -> (r: FieldValue)
    ensures
        fv_matches(r, *v),
{
    match v {
        FieldValue::Integer(n) => FieldValue::Integer(*n),
        FieldValue::Text(s) => FieldValue::Text(clone_string(s)),
        FieldValue::Bytes(b) => FieldValue::Bytes(clone_bytes(b)),
    }
}

/// One field of a decoded structure: its name and its value, in the
/// structure's declaration order.
#[derive(Debug, PartialEq, Eq)]
pub struct DecodedField {
    pub name: String,
    pub value: FieldValue,
}

/// One resolved display row: the field's file-relative offset rendered as
/// big-endian hex, its name, its value, and a short annotation.
#[derive(Debug, PartialEq, Eq)]
pub struct HeaderData {
    pub offset: String,
    pub name: String,
    pub value: FieldValue,
    pub meaning: String,
}

/// The byte widths of a structure's fields, in declaration order. The
/// offset of field `i` is the base offset plus the widths of all the
/// fields before it.
#[derive(Debug, PartialEq, Eq)]
pub struct StructureOffsetTable {
    pub widths: Vec<u16>,
}

/// The summed widths of the first `i` fields.
pub open spec fn prefix_width(widths: Seq<u16>, i: int) -> int
    decreases i,
{
    if i <= 0 {
        0
    } else {
        prefix_width(widths, i - 1) + widths[i - 1]
    }
}

/// Prefix widths are non-negative and never decrease as fields are added.
pub proof fn lemma_prefix_width_monotone(widths: Seq<u16>, i: int, j: int)
    requires
        i <= j,
    ensures
        prefix_width(widths, i) <= prefix_width(widths, j),
    decreases j - i,
{
    if i < j {
        lemma_prefix_width_monotone(widths, i, j - 1);
    }
}

impl StructureOffsetTable {
    /// The summed widths of the fields before field `i`.
    pub fn cumulative_width(&self, i: usize) -> (w: u64)
        requires
            i <= self.widths@.len(),
            self.widths@.len() < 0x1_0000_0000,
        ensures
            w == prefix_width(self.widths@, i as int),
    {
        let mut w: u64 = 0;
        let mut k: usize = 0;
        while k < i
            invariant
                k <= i <= self.widths@.len(),
                self.widths@.len() < 0x1_0000_0000,
                w == prefix_width(self.widths@, k as int),
                w <= k * 0x10000,
            decreases i - k,
        {
            w = w + self.widths[k] as u64;
            proof {
                assert((k + 1) * 0x10000 == k * 0x10000 + 0x10000) by (nonlinear_arith);
            }
            k = k + 1;
        }
        w
    }
}

/// Resolves a decoded structure: zips each field, in order, with its
/// file-relative offset (`base_offset` plus the widths of the fields
/// before it), rendered as the hex form of the offset's big-endian
/// 64-bit bytes. The annotation column carries a fixed placeholder.
pub fn resolve(
    fields: &Vec<DecodedField>,
    table: &StructureOffsetTable,
    base_offset: u64,
) -> (out: Vec<HeaderData>)
    requires
        fields@.len() <= table.widths@.len(),
        table.widths@.len() < 0x1_0000_0000,
        forall|i: int|
            0 <= i < fields@.len() ==> base_offset + prefix_width(table.widths@, i) <= u64::MAX,
    ensures
        out@.len() == fields@.len(),
        forall|i: int|
            0 <= i < out@.len() ==> {
                &&& (#[trigger] out@[i]).offset@ == hex_of(
                    u64_be_bytes((base_offset + prefix_width(table.widths@, i)) as u64),
                )
                &&& out@[i].name@ == fields@[i].name@
                &&& fv_matches(out@[i].value, fields@[i].value)
                &&& out@[i].meaning@ == "Test"@
            },
{
    let mut out: Vec<HeaderData> = Vec::new();
    let mut i: usize = 0;
    while i < fields.len()
        invariant
            i <= fields@.len(),
            fields@.len() <= table.widths@.len(),
            table.widths@.len() < 0x1_0000_0000,
            forall|k: int|
                0 <= k < fields@.len() ==> base_offset + prefix_width(table.widths@, k)
                    <= u64::MAX,
            out@.len() == i,
            forall|k: int|
                0 <= k < i ==> {
                    &&& (#[trigger] out@[k]).offset@ == hex_of(
                        u64_be_bytes((base_offset + prefix_width(table.widths@, k)) as u64),
                    )
                    &&& out@[k].name@ == fields@[k].name@
                    &&& fv_matches(out@[k].value, fields@[k].value)
                    &&& out@[k].meaning@ == "Test"@
                },
        decreases fields@.len() - i,
    {
        proof {
            lemma_prefix_width_monotone(table.widths@, 0, i as int);
        }
        let cum = table.cumulative_width(i);
        let off64 = base_offset + cum;
        let field = &fields[i];
        out.push(
            HeaderData {
                offset: hex_u64_be(off64),
                name: clone_string(&field.name),
                value: clone_value(&field.value),
                meaning: String::from_str("Test"),
            },
        );
        i = i + 1;
    }
    out
}

/// The file-relative offsets the resolver assigns to a structure's first
/// `n` fields, as numbers.
pub fn resolve_offsets(table: &StructureOffsetTable, n: usize, base_offset: u64) -> (out: Vec<u64>)
    requires
        n <= table.widths@.len(),
        table.widths@.len() < 0x1_0000_0000,
        forall|i: int| 0 <= i < n ==> base_offset + prefix_width(table.widths@, i) <= u64::MAX,
    ensures
        out@.len() == n,
        forall|i: int|
            0 <= i < n ==> #[trigger] out@[i] == base_offset + prefix_width(table.widths@, i),
{
    let mut out: Vec<u64> = Vec::new();
    let mut i: usize = 0;
    while i < n
        invariant
            i <= n <= table.widths@.len(),
            table.widths@.len() < 0x1_0000_0000,
            forall|k: int| 0 <= k < n ==> base_offset + prefix_width(table.widths@, k) <= u64::MAX,
            out@.len() == i,
            forall|k: int|
                0 <= k < i ==> #[trigger] out@[k] == base_offset + prefix_width(table.widths@, k),
        decreases n - i,
    {
        proof {
            lemma_prefix_width_monotone(table.widths@, 0, i as int);
        }
        let cum = table.cumulative_width(i);
        out.push(base_offset + cum);
        i = i + 1;
    }
    out
}

/// The label of data-directory slot `i`: a fixed 16-entry name table,
/// with a defensive fallback for an out-of-range index.
pub open spec fn dir_name_spec(i: int) -> Seq<char> {
    if i == 0 {
        "Export Directory"@
    } else if i == 1 {
        "Import Directory"@
    } else if i == 2 {
        "Resource Directory"@
    } else if i == 3 {
        "Exception Directory"@
    } else if i == 4 {
        "Security Directory"@
    } else if i == 5 {
        "Base Relocation Directory"@
    } else if i == 6 {
        "Debug Directory"@
    } else if i == 7 {
        "Architecture Directory"@
    } else if i == 8 {
        "Global Pointer Directory"@
    } else if i == 9 {
        "TLS Directory"@
    } else if i == 10 {
        "Load Configuration Directory"@
    } else if i == 11 {
        "Bound Import Directory"@
    } else if i == 12 {
        "Import Address Table Directory"@
    } else if i == 13 {
        "Delay Import Directory"@
    } else if i == 14 {
        "COM Descriptor Directory"@
    } else if i == 15 {
        "Reserved Directory"@
    } else {
        "Unknown Directory"@
    }
}

/// The label of data-directory slot `i`.
pub fn dir_name(i: usize) -> (r: &'static str)
    ensures
        r@ == dir_name_spec(i as int),
{
    match i {
        0 => "Export Directory",
        1 => "Import Directory",
        2 => "Resource Directory",
        3 => "Exception Directory",
        4 => "Security Directory",
        5 => "Base Relocation Directory",
        6 => "Debug Directory",
        7 => "Architecture Directory",
        8 => "Global Pointer Directory",
        9 => "TLS Directory",
        10 => "Load Configuration Directory",
        11 => "Bound Import Directory",
        12 => "Import Address Table Directory",
        13 => "Delay Import Directory",
        14 => "COM Descriptor Directory",
        15 => "Reserved Directory",
        _ => "Unknown Directory",
    }
}

/// One of the 16 fixed data-directory slots of the optional header.
#[derive(Debug, Clone, Copy, PartialEq, Eq)]
pub struct DataDirectoryEntry {
    pub index: usize,
    pub virtual_address: u32,
    pub size: u32,
}

/// A directory slot is absent exactly when both its virtual address and
/// its size are zero.
pub open spec fn directory_meaning_spec(virtual_address: u32, size: u32) -> Seq<char> {
    if virtual_address == 0 && size == 0 {
        "Not present"@
    } else {
        "Present"@
    }
}

/// The presence annotation of one directory slot: `Not present` exactly
/// when both the virtual address and the size are zero, else `Present`.
pub fn directory_meaning(virtual_address: u32, size: u32) -> (r: &'static str)
    ensures
        r@ == directory_meaning_spec(virtual_address, size),
        (virtual_address == 0 && size == 0) <==> r@ == "Not present"@,
{
    proof {
        reveal_strlit("Not present");
        reveal_strlit("Present");
        assert("Not present"@.len() != "Present"@.len());
    }
    if virtual_address == 0 && size == 0 {
        "Not present"
    } else {
        "Present"
    }
}

/// The value column of one directory slot: its virtual address as eight
/// uppercase hex digits and its size in decimal and shortest hex.
pub open spec fn directory_value_spec(virtual_address: u32, size: u32) -> Seq<char> {
    "VA: 0x"@ + hex_of(u32_be_bytes(virtual_address)) + ", Size: "@ + dec_of(size as int)
        + " (0x"@ + hex_min_of(size as int) + ")"@
}

/// Builds the value column of one directory slot.
pub fn directory_value(virtual_address: u32, size: u32) -> (r: String)
    ensures
        r@ == directory_value_spec(virtual_address, size),
{
    let mut r = String::from_str("VA: 0x");
    let va = hex_u32_be(virtual_address);
    r.append(va.as_str());
    r.append(", Size: ");
    let dec = dec_string_u64(size as u64);
    r.append(dec.as_str());
    r.append(" (0x");
    let hx = hex_min_string_u64(size as u64);
    r.append(hx.as_str());
    r.append(")");
    proof {
        assert(r@ =~= directory_value_spec(virtual_address, size));
    }
    r
}

/// Resolves the 16-entry data directory for display: slot `i` is shown
/// under its fixed label, with its index in decimal as the offset column,
/// its virtual address and size as the value column, and the presence
/// annotation as the meaning column.
pub fn resolve_data_directory(dirs: &Vec<DataDirectoryEntry>) -> (out: Vec<HeaderData>)
    ensures
        out@.len() == dirs@.len(),
        forall|i: int|
            0 <= i < out@.len() ==> {
                &&& (#[trigger] out@[i]).offset@ == dec_of(i)
                &&& out@[i].name@ == dir_name_spec(i)
                &&& fv_is_text(
                    out@[i].value,
                    directory_value_spec(dirs@[i].virtual_address, dirs@[i].size),
                )
                &&& out@[i].meaning@ == directory_meaning_spec(
                    dirs@[i].virtual_address,
                    dirs@[i].size,
                )
            },
{
    let mut out: Vec<HeaderData> = Vec::new();
    let mut i: usize = 0;
    while i < dirs.len()
        invariant
            i <= dirs@.len(),
            out@.len() == i,
            forall|k: int|
                0 <= k < i ==> {
                    &&& (#[trigger] out@[k]).offset@ == dec_of(k)
                    &&& out@[k].name@ == dir_name_spec(k)
                    &&& fv_is_text(
                        out@[k].value,
                        directory_value_spec(dirs@[k].virtual_address, dirs@[k].size),
                    )
                    &&& out@[k].meaning@ == directory_meaning_spec(
                        dirs@[k].virtual_address,
                        dirs@[k].size,
                    )
                },
        decreases dirs@.len() - i,
    {
        let dir = &dirs[i];
        out.push(
            HeaderData {
                offset: dec_string_u64(i as u64),
                name: String::from_str(dir_name(i)),
                value: FieldValue::Text(directory_value(dir.virtual_address, dir.size)),
                meaning: String::from_str(directory_meaning(dir.virtual_address, dir.size)),
            },
        );
        i = i + 1;
    }
    out
}

/// The two shapes of the optional header, told apart by its magic tag.
#[derive(Clone, Copy, PartialEq, Eq, Structural, Debug)]
pub enum OptionalHeaderVariant {
    Bits32,
    Bits64,
}

/// The field widths of the DOS header, in declaration order.
pub open spec fn dos_widths_spec() -> Seq<u16> {
    seq![2u16, 2, 2, 2, 2, 2, 2, 2, 2, 2, 2, 2, 2, 2, 8, 2, 2, 20, 4]
}

/// The field widths of the file header, in declaration order.
pub open spec fn file_widths_spec() -> Seq<u16> {
    seq![2u16, 2, 4, 4, 4, 2, 2]
}

/// The field widths of the 32-bit optional header, the trailing 16-entry
/// data directory block included as its final field.
pub open spec fn opt32_widths_spec() -> Seq<u16> {
    seq![2u16, 1, 1, 4, 4, 4, 4, 4, 4, 4, 4, 4, 2, 2, 2, 2, 2, 2, 4, 4, 4, 4, 2, 2, 4, 4, 4, 4, 4, 4, 128]
}

/// The field widths of the 64-bit optional header, the trailing 16-entry
/// data directory block included as its final field.
pub open spec fn opt64_widths_spec() -> Seq<u16> {
    seq![2u16, 1, 1, 4, 4, 4, 4, 4, 8, 4, 4, 2, 2, 2, 2, 2, 2, 4, 4, 4, 4, 2, 2, 8, 8, 8, 8, 4, 4, 128]
}

/// The offset table of the optional header variant the tag selects.
pub open spec fn variant_widths_spec(v: OptionalHeaderVariant) -> Seq<u16> {
    match v {
        OptionalHeaderVariant::Bits32 => opt32_widths_spec(),
        OptionalHeaderVariant::Bits64 => opt64_widths_spec(),
    }
}

fn push_widths(out: &mut Vec<u16>, ws: &[u16])
    ensures
        final(out)@ == old(out)@ + ws@,
{
    let mut i: usize = 0;
    while i < ws.len()
        invariant
            i <= ws@.len(),
            out@ == old(out)@ + ws@.take(i as int),
        decreases ws@.len() - i,
    {
        out.push(ws[i]);
        proof {
            assert(old(out)@ + ws@.take(i + 1) =~= (old(out)@ + ws@.take(i as int)).push(
                ws@[i as int],
            ));
        }
        i = i + 1;
    }
    proof {
        assert(ws@.take(ws@.len() as int) =~= ws@);
    }
}

/// The DOS header's offset table.
pub fn dos_offset_table() -> (t: StructureOffsetTable)
    ensures
        t.widths@ == dos_widths_spec(),
{
    let ws: [u16; 19] = [2, 2, 2, 2, 2, 2, 2, 2, 2, 2, 2, 2, 2, 2, 8, 2, 2, 20, 4];
    let mut widths: Vec<u16> = Vec::new();
    push_widths(&mut widths, ws.as_slice());
    proof {
        assert(widths@ =~= dos_widths_spec());
    }
    StructureOffsetTable { widths }
}

/// The file header's offset table.
pub fn file_offset_table() -> (t: StructureOffsetTable)
    ensures
        t.widths@ == file_widths_spec(),
{
    let ws: [u16; 7] = [2, 2, 4, 4, 4, 2, 2];
    let mut widths: Vec<u16> = Vec::new();
    push_widths(&mut widths, ws.as_slice());
    proof {
        assert(widths@ =~= file_widths_spec());
    }
    StructureOffsetTable { widths }
}

/// Selects the offset table of the optional header variant the tag
/// names; the 32-bit and 64-bit tables never cross-apply.
pub fn select_offset_table(v: OptionalHeaderVariant) -> (t: StructureOffsetTable)
    ensures
        t.widths@ == variant_widths_spec(v),
{
    let mut widths: Vec<u16> = Vec::new();
    match v {
        OptionalHeaderVariant::Bits32 => {
            let ws: [u16; 31] = [
                2,
                1,
                1,
                4,
                4,
                4,
                4,
                4,
                4,
                4,
                4,
                4,
                2,
                2,
                2,
                2,
                2,
                2,
                4,
                4,
                4,
                4,
                2,
                2,
                4,
                4,
                4,
                4,
                4,
                4,
                128,
            ];
            push_widths(&mut widths, ws.as_slice());
            proof {
                assert(widths@ =~= opt32_widths_spec());
            }
        },
        OptionalHeaderVariant::Bits64 => {
            let ws: [u16; 30] = [
                2,
                1,
                1,
                4,
                4,
                4,
                4,
                4,
                8,
                4,
                4,
                2,
                2,
                2,
                2,
                2,
                2,
                4,
                4,
                4,
                4,
                2,
                2,
                8,
                8,
                8,
                8,
                4,
                4,
                128,
            ];
            push_widths(&mut widths, ws.as_slice());
            proof {
                assert(widths@ =~= opt64_widths_spec());
            }
        },
    }
    StructureOffsetTable { widths }
}

/// The two optional-header tables differ in field count and in total
/// width, and each field block before the data directory sums to the
/// variant's fixed size, so the tables never stand in for one another.
pub proof fn lemma_variant_tables_differ()
    ensures
        variant_widths_spec(OptionalHeaderVariant::Bits32).len() == 31,
        variant_widths_spec(OptionalHeaderVariant::Bits64).len() == 30,
        prefix_width(variant_widths_spec(OptionalHeaderVariant::Bits32), 31) == 224,
        prefix_width(variant_widths_spec(OptionalHeaderVariant::Bits64), 30) == 240,
        prefix_width(variant_widths_spec(OptionalHeaderVariant::Bits32), 30) == 96,
        prefix_width(variant_widths_spec(OptionalHeaderVariant::Bits64), 29) == 112,
        variant_widths_spec(OptionalHeaderVariant::Bits32) != variant_widths_spec(
            OptionalHeaderVariant::Bits64,
        ),
{
    reveal_with_fuel(prefix_width, 33);
    assert(prefix_width(opt32_widths_spec(), 31) == 224);
    assert(prefix_width(opt64_widths_spec(), 30) == 240);
    assert(prefix_width(opt32_widths_spec(), 30) == 96);
    assert(prefix_width(opt64_widths_spec(), 29) == 112);
    assert(opt32_widths_spec().len() != opt64_widths_spec().len());
}

/// The byte size of the PE signature and file header together, which
/// stand between `e_lfanew` and the optional header.
pub const FILE_HEADER_FIXED_SIZE: u64 = 24;

/// The sizes behind the base-offset composition: the DOS header spans 64
/// bytes, the file header 20, and with the 4-byte PE signature the 24
/// bytes that separate `e_lfanew` from the optional header.
pub proof fn lemma_header_sizes()
    ensures
        prefix_width(dos_widths_spec(), dos_widths_spec().len() as int) == 64,
        prefix_width(file_widths_spec(), file_widths_spec().len() as int) == 20,
        FILE_HEADER_FIXED_SIZE == 4 + prefix_width(
            file_widths_spec(),
            file_widths_spec().len() as int,
        ),
{
    reveal_with_fuel(prefix_width, 20);
    assert(prefix_width(dos_widths_spec(), 19) == 64);
    assert(prefix_width(file_widths_spec(), 7) == 20);
}

/// The file header's base offset: `e_lfanew` from the DOS header.
pub fn file_header_base(e_lfanew: u32) -> (r: u64)
    ensures
        r == e_lfanew,
{
    e_lfanew as u64
}

/// The optional header's base offset: `e_lfanew` plus the fixed size of
/// what precedes the optional header.
pub fn optional_header_base(e_lfanew: u32) -> (r: u64)
    ensures
        r == e_lfanew + FILE_HEADER_FIXED_SIZE,
{
    e_lfanew as u64 + FILE_HEADER_FIXED_SIZE
}

/// The width of the optional header's fixed fields before its trailing
/// data directory block.
pub open spec fn variant_fixed_size(v: OptionalHeaderVariant) -> int {
    match v {
        OptionalHeaderVariant::Bits32 => 96,
        OptionalHeaderVariant::Bits64 => 112,
    }
}

/// The data directory's base offset: the optional header's base plus the
/// variant's fixed field block.
pub fn data_directory_base(e_lfanew: u32, v: OptionalHeaderVariant) -> (r: u64)
    ensures
        r == e_lfanew + FILE_HEADER_FIXED_SIZE + variant_fixed_size(v),
{
    let fixed: u64 = match v {
        OptionalHeaderVariant::Bits32 => 96,
        OptionalHeaderVariant::Bits64 => 112,
    };
    e_lfanew as u64 + FILE_HEADER_FIXED_SIZE + fixed
}

/// The field names of the DOS header, in declaration order.
pub open spec fn dos_field_names_spec() -> Seq<Seq<char>> {
    seq![
        "e_magic"@,
        "e_cblp"@,
        "e_cp"@,
        "e_crlc"@,
        "e_cparhdr"@,
        "e_minalloc"@,
        "e_maxalloc"@,
        "e_ss"@,
        "e_sp"@,
        "e_csum"@,
        "e_ip"@,
        "e_cs"@,
        "e_lfarlc"@,
        "e_ovno"@,
        "e_res"@,
        "e_oemid"@,
        "e_oeminfo"@,
        "e_res2"@,
        "e_lfanew"@,
    ]
}

/// The field names of the file header, in declaration order.
pub open spec fn file_field_names_spec() -> Seq<Seq<char>> {
    seq![
        "machine"@,
        "number_of_sections"@,
        "time_date_stamp"@,
        "pointer_to_symbol_table"@,
        "number_of_symbols"@,
        "size_of_optional_header"@,
        "characteristics"@,
    ]
}

/// The field names of the 32-bit optional header, in declaration order.
pub open spec fn opt32_field_names_spec() -> Seq<Seq<char>> {
    seq![
        "magic"@,
        "major_linker_version"@,
        "minor_linker_version"@,
        "size_of_code"@,
        "size_of_initialized_data"@,
        "size_of_uninitialized_data"@,
        "address_of_entry_point"@,
        "base_of_code"@,
        "base_of_data"@,
        "image_base"@,
        "section_alignment"@,
        "file_alignment"@,
        "major_operating_system_version"@,
        "minor_operating_system_version"@,
        "major_image_version"@,
        "minor_image_version"@,
        "major_subsystem_version"@,
        "minor_subsystem_version"@,
        "win32_version_value"@,
        "size_of_image"@,
        "size_of_headers"@,
        "check_sum"@,
        "subsystem"@,
        "dll_characteristics"@,
        "size_of_stack_reserve"@,
        "size_of_stack_commit"@,
        "size_of_heap_reserve"@,
        "size_of_heap_commit"@,
        "loader_flags"@,
        "number_of_rva_and_sizes"@,
        "data_directory"@,
    ]
}

/// The field names of the 64-bit optional header, in declaration order.
pub open spec fn opt64_field_names_spec() -> Seq<Seq<char>> {
    seq![
        "magic"@,
        "major_linker_version"@,
        "minor_linker_version"@,
        "size_of_code"@,
        "size_of_initialized_data"@,
        "size_of_uninitialized_data"@,
        "address_of_entry_point"@,
        "base_of_code"@,
        "image_base"@,
        "section_alignment"@,
        "file_alignment"@,
        "major_operating_system_version"@,
        "minor_operating_system_version"@,
        "major_image_version"@,
        "minor_image_version"@,
        "major_subsystem_version"@,
        "minor_subsystem_version"@,
        "win32_version_value"@,
        "size_of_image"@,
        "size_of_headers"@,
        "check_sum"@,
        "subsystem"@,
        "dll_characteristics"@,
        "size_of_stack_reserve"@,
        "size_of_stack_commit"@,
        "size_of_heap_reserve"@,
        "size_of_heap_commit"@,
        "loader_flags"@,
        "number_of_rva_and_sizes"@,
        "data_directory"@,
    ]
}

/// The field names of the optional header variant the tag selects.
pub open spec fn variant_field_names_spec(v: OptionalHeaderVariant) -> Seq<Seq<char>> {
    match v {
        OptionalHeaderVariant::Bits32 => opt32_field_names_spec(),
        OptionalHeaderVariant::Bits64 => opt64_field_names_spec(),
    }
}

fn push_names(out: &mut Vec<&'static str>, ns: &[&'static str])
    ensures
        final(out)@ == old(out)@ + ns@,
{
    let mut i: usize = 0;
    while i < ns.len()
        invariant
            i <= ns@.len(),
            out@ == old(out)@ + ns@.take(i as int),
        decreases ns@.len() - i,
    {
        out.push(ns[i]);
        proof {
            assert(old(out)@ + ns@.take(i + 1) =~= (old(out)@ + ns@.take(i as int)).push(
                ns@[i as int],
            ));
        }
        i = i + 1;
    }
    proof {
        assert(ns@.take(ns@.len() as int) =~= ns@);
    }
}

/// The DOS header's field names.
pub fn dos_field_names() -> (r: Vec<&'static str>)
    ensures
        r@.len() == dos_field_names_spec().len(),
        forall|i: int| 0 <= i < r@.len() ==> (#[trigger] r@[i])@ == dos_field_names_spec()[i],
{
    let ns: [&'static str; 19] = [
        "e_magic",
        "e_cblp",
        "e_cp",
        "e_crlc",
        "e_cparhdr",
        "e_minalloc",
        "e_maxalloc",
        "e_ss",
        "e_sp",
        "e_csum",
        "e_ip",
        "e_cs",
        "e_lfarlc",
        "e_ovno",
        "e_res",
        "e_oemid",
        "e_oeminfo",
        "e_res2",
        "e_lfanew",
    ];
    let mut r: Vec<&'static str> = Vec::new();
    push_names(&mut r, ns.as_slice());
    r
}

/// The file header's field names.
pub fn file_field_names() -> (r: Vec<&'static str>)
    ensures
        r@.len() == file_field_names_spec().len(),
        forall|i: int| 0 <= i < r@.len() ==> (#[trigger] r@[i])@ == file_field_names_spec()[i],
{
    let ns: [&'static str; 7] = [
        "machine",
        "number_of_sections",
        "time_date_stamp",
        "pointer_to_symbol_table",
        "number_of_symbols",
        "size_of_optional_header",
        "characteristics",
    ];
    let mut r: Vec<&'static str> = Vec::new();
    push_names(&mut r, ns.as_slice());
    r
}

/// Selects the field names of the optional header variant the tag names.
pub fn select_field_names(v: OptionalHeaderVariant) -> (r: Vec<&'static str>)
    ensures
        r@.len() == variant_field_names_spec(v).len(),
        forall|i: int|
            0 <= i < r@.len() ==> (#[trigger] r@[i])@ == variant_field_names_spec(v)[i],
{
    let mut r: Vec<&'static str> = Vec::new();
    match v {
        OptionalHeaderVariant::Bits32 => {
            let ns: [&'static str; 31] = [
                "magic",
                "major_linker_version",
                "minor_linker_version",
                "size_of_code",
                "size_of_initialized_data",
                "size_of_uninitialized_data",
                "address_of_entry_point",
                "base_of_code",
                "base_of_data",
                "image_base",
                "section_alignment",
                "file_alignment",
                "major_operating_system_version",
                "minor_operating_system_version",
                "major_image_version",
                "minor_image_version",
                "major_subsystem_version",
                "minor_subsystem_version",
                "win32_version_value",
                "size_of_image",
                "size_of_headers",
                "check_sum",
                "subsystem",
                "dll_characteristics",
                "size_of_stack_reserve",
                "size_of_stack_commit",
                "size_of_heap_reserve",
                "size_of_heap_commit",
                "loader_flags",
                "number_of_rva_and_sizes",
                "data_directory",
            ];
            push_names(&mut r, ns.as_slice());
        },
        OptionalHeaderVariant::Bits64 => {
            let ns: [&'static str; 30] = [
                "magic",
                "major_linker_version",
                "minor_linker_version",
                "size_of_code",
                "size_of_initialized_data",
                "size_of_uninitialized_data",
                "address_of_entry_point",
                "base_of_code",
                "image_base",
                "section_alignment",
                "file_alignment",
                "major_operating_system_version",
                "minor_operating_system_version",
                "major_image_version",
                "minor_image_version",
                "major_subsystem_version",
                "minor_subsystem_version",
                "win32_version_value",
                "size_of_image",
                "size_of_headers",
                "check_sum",
                "subsystem",
                "dll_characteristics",
                "size_of_stack_reserve",
                "size_of_stack_commit",
                "size_of_heap_reserve",
                "size_of_heap_commit",
                "loader_flags",
                "number_of_rva_and_sizes",
                "data_directory",
            ];
            push_names(&mut r, ns.as_slice());
        },
    }
    r
}

/// One section-header display row: the section's name, its mapped
/// address, its raw size in decimal, and its characteristics flags.
#[derive(Debug, PartialEq, Eq)]
pub struct SectionData {
    pub name: String,
    pub addr: String,
    pub raw_size: String,
    pub characteristics: String,
}

impl SectionData {
    /// Builds one section row: the mapped address is the section's
    /// virtual address shifted by the image base, shown as the hex form
    /// of its little-endian bytes, as is the characteristics field; the
    /// raw size is shown in decimal.
    pub fn from_fields(
        name: String,
        virtual_address: u32,
        image_base: u64,
        size_of_raw_data: u32,
        characteristics: u32,
    ) -> (s: SectionData)
        requires
            virtual_address + image_base <= u64::MAX,
        ensures
            s.name@ == name@,
            s.addr@ == crate::hex::hex_of(
                crate::hex::u64_le_bytes((virtual_address + image_base) as u64),
            ),
            s.raw_size@ == dec_of(size_of_raw_data as int),
            s.characteristics@ == crate::hex::hex_of(crate::hex::u32_le_bytes(characteristics)),
    {
        SectionData {
            name,
            addr: crate::hex::hex_u64_le(virtual_address as u64 + image_base),
            raw_size: dec_string_u64(size_of_raw_data as u64),
            characteristics: crate::hex::hex_u32_le(characteristics),
        }
    }
}

} // verus!
