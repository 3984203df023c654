//! Minimal field decoding: little-endian integer reads at the positions a
//! structure's offset table dictates, turning a raw byte buffer into the
//! ordered named fields the resolver consumes.

use crate::header::{prefix_width, DecodedField, FieldValue, StructureOffsetTable};
use vstd::prelude::*;
use vstd::slice::{slice_subrange, slice_to_vec};

verus! {

/// The unsigned value of a byte sequence read little-endian.
pub open spec fn le_value(s: Seq<u8>) -> int
    decreases s.len(),
{
    if s.len() == 0 {
        0
    } else {
        s[0] + 256 * le_value(s.drop_first())
    }
}

/// 256 raised to the given power: the count of values `n` bytes can hold.
pub open spec fn pow256(n: nat) -> int
    decreases n,
{
    if n == 0 {
        1
    } else {
        256 * pow256((n - 1) as nat)
    }
}

/// A little-endian read of `n` bytes is non-negative and below `256^n`.
pub proof fn lemma_le_value_bound(s: Seq<u8>)
    ensures
        0 <= le_value(s) < pow256(s.len()),
    decreases s.len(),
{
    if s.len() > 0 {
        lemma_le_value_bound(s.drop_first());
        let rest = le_value(s.drop_first());
        let p = pow256((s.len() - 1) as nat);
        assert(256 * rest <= 256 * (p - 1)) by (nonlinear_arith)
            requires
                rest <= p - 1,
        ;
    }
}

/// Reads `width` bytes at `off` as a little-endian unsigned integer.
pub fn read_le(bytes: &[u8], off: usize, width: usize) -> (r: u64)
    requires
        off + width <= bytes@.len(),
        width <= 8,
    ensures
        r == le_value(bytes@.subrange(off as int, off + width)),
{
    proof {
        reveal_with_fuel(pow256, 10);
    }
    let blen = bytes.len();
    let mut r: u64 = 0;
    let mut k: usize = width;
    while k > 0
        invariant
            blen == bytes@.len(),
            off + width <= blen,
            width <= 8,
            k <= width,
            r == le_value(bytes@.subrange(off + k, off + width)),
            r < pow256((width - k) as nat),
        decreases k,
    {
        proof {
            reveal_with_fuel(pow256, 10);
            assert(pow256((width - k) as nat) <= pow256(7)) by {
                lemma_pow256_monotone((width - k) as nat, 7);
            }
        }
        k = k - 1;
        let b = bytes[off + k];
        r = r * 256 + b as u64;
        proof {
            let s = bytes@.subrange(off + k, off + width);
            assert(s.len() > 0);
            assert(s[0] == bytes@[off + k]);
            assert(s.drop_first() =~= bytes@.subrange(off + k + 1, off + width));
            assert(r == le_value(s));
            assert(pow256(((width - k) as nat)) == 256 * pow256((width - k - 1) as nat));
        }
    }
    proof {
        assert(bytes@.subrange(off as int, off + width) == bytes@.subrange(
            off + 0,
            off + width,
        ));
    }
    r
}

proof fn lemma_pow256_monotone(a: nat, b: nat)
    requires
        a <= b,
    ensures
        pow256(a) <= pow256(b),
    decreases b,
{
    if a < b {
        lemma_pow256_monotone(a, (b - 1) as nat);
        let p = pow256((b - 1) as nat);
        lemma_pow256_positive((b - 1) as nat);
        assert(p <= 256 * p) by (nonlinear_arith)
            requires
                p >= 1,
        ;
    }
}

proof fn lemma_pow256_positive(n: nat)
    ensures
        pow256(n) >= 1,
    decreases n,
{
    if n > 0 {
        lemma_pow256_positive((n - 1) as nat);
    }
}

/// Why a buffer cannot be decoded: it ends before a structure does, or a
/// magic tag holds an unrecognized value.
#[derive(Clone, Copy, PartialEq, Eq, Structural, Debug)]
pub enum DecodeError {
    Truncated,
    UnknownMagic,
}

/// Field `i` of the structure at `base`, decoded from the buffer: fields
/// up to eight bytes wide are little-endian integers, wider fields are
/// kept as raw bytes.
pub open spec fn field_decoded(
    b: Seq<u8>,
    base: int,
    widths: Seq<u16>,
    i: int,
    v: FieldValue,
) -> bool {
    let lo = base + prefix_width(widths, i);
    let hi = lo + widths[i];
    if widths[i] <= 8 {
        crate::header::fv_is_integer(v, le_value(b.subrange(lo, hi)))
    } else {
        match v {
            FieldValue::Bytes(bs) => bs@ == b.subrange(lo, hi),
            _ => false,
        }
    }
}

/// Every field of the structure at `base` decoded from the buffer, named
/// in declaration order.
pub open spec fn fields_decoded(
    b: Seq<u8>,
    base: int,
    widths: Seq<u16>,
    names: Seq<Seq<char>>,
    fields: Seq<DecodedField>,
) -> bool {
    &&& fields.len() == widths.len()
    &&& forall|i: int| 0 <= i < fields.len() ==> (#[trigger] fields[i]).name@ == names[i]
    &&& forall|i: int| 0 <= i < fields.len() ==> field_decoded(b, base, widths, i, fields[i].value)
}

/// Decodes the structure at `base`: reads each field at the position its
/// offset table dictates. Succeeds exactly when the buffer reaches the
/// structure's end; a buffer that ends sooner is reported truncated.
pub fn decode_structure(
    bytes: &[u8],
    base: usize,
    table: &StructureOffsetTable,
    names: &Vec<&'static str>,
) -> (r: Result<Vec<DecodedField>, DecodeError>)
    requires
        names@.len() == table.widths@.len(),
        table.widths@.len() < 0x1_0000_0000,
        base + prefix_width(table.widths@, table.widths@.len() as int) <= usize::MAX,
    ensures
        r is Ok <==> base + prefix_width(table.widths@, table.widths@.len() as int)
            <= bytes@.len(),
        r is Err ==> r == Result::<Vec<DecodedField>, DecodeError>::Err(DecodeError::Truncated),
        (r matches Ok(fields) ==> fields_decoded(
            bytes@,
            base as int,
            table.widths@,
            Seq::new(names@.len(), |i: int| names@[i]@),
            fields@,
        )),
{
    let n = table.widths.len();
    let total = table.cumulative_width(n);
    proof {
        crate::header::lemma_prefix_width_monotone(table.widths@, 0, n as int);
    }
    if base as u64 > bytes.len() as u64 || total > bytes.len() as u64 - base as u64 {
        return Err(DecodeError::Truncated);
    }
    let ghost names_view = Seq::new(names@.len(), |i: int| names@[i]@);
    let mut fields: Vec<DecodedField> = Vec::new();
    let mut i: usize = 0;
    while i < n
        invariant
            n == table.widths@.len(),
            names@.len() == n,
            n < 0x1_0000_0000,
            base + prefix_width(table.widths@, n as int) <= usize::MAX,
            base + prefix_width(table.widths@, n as int) <= bytes@.len(),
            names_view == Seq::new(names@.len(), |k: int| names@[k]@),
            i <= n,
            fields@.len() == i,
            forall|k: int| 0 <= k < i ==> (#[trigger] fields@[k]).name@ == names_view[k],
            forall|k: int|
                0 <= k < i ==> field_decoded(
                    bytes@,
                    base as int,
                    table.widths@,
                    k,
                    fields@[k].value,
                ),
        decreases n - i,
    {
        proof {
            crate::header::lemma_prefix_width_monotone(table.widths@, 0, i as int);
            crate::header::lemma_prefix_width_monotone(table.widths@, i as int, n as int);
            crate::header::lemma_prefix_width_monotone(table.widths@, i + 1, n as int);
            assert(prefix_width(table.widths@, i + 1) == prefix_width(table.widths@, i as int)
                + table.widths@[i as int]);
        }
        let cum = table.cumulative_width(i);
        let lo = base + cum as usize;
        let w = table.widths[i];
        let value = if w <= 8 {
            FieldValue::Integer(read_le(bytes, lo, w as usize))
        } else {
            FieldValue::Bytes(slice_to_vec(slice_subrange(bytes, lo, lo + w as usize)))
        };
        fields.push(DecodedField { name: String::from_str(names[i]), value });
        i = i + 1;
    }
    Ok(fields)
}

} // verus!
