//! Shared text-formatting utility: uppercase hexadecimal and decimal
//! renderings of bytes and integers, and the printable-ASCII projection
//! used by the dump's character column.

use vstd::prelude::*;

verus! {

/// The uppercase hexadecimal digit for a nibble value.
pub open spec fn hex_digit(n: int) -> char {
    if n == 0 {
        '0'
    } else if n == 1 {
        '1'
    } else if n == 2 {
        '2'
    } else if n == 3 {
        '3'
    } else if n == 4 {
        '4'
    } else if n == 5 {
        '5'
    } else if n == 6 {
        '6'
    } else if n == 7 {
        '7'
    } else if n == 8 {
        '8'
    } else if n == 9 {
        '9'
    } else if n == 10 {
        'A'
    } else if n == 11 {
        'B'
    } else if n == 12 {
        'C'
    } else if n == 13 {
        'D'
    } else if n == 14 {
        'E'
    } else {
        'F'
    }
}

/// The two uppercase hex digits of one byte, high nibble first.
pub open spec fn hex_byte(b: u8) -> Seq<char> {
    seq![hex_digit(b as int / 16), hex_digit(b as int % 16)]
}

/// The hex rendering of a byte sequence: two digits per byte, no separator.
pub open spec fn hex_of(s: Seq<u8>) -> Seq<char>
    decreases s.len(),
{
    if s.len() == 0 {
        Seq::empty()
    } else {
        hex_of(s.drop_last()) + hex_byte(s.last())
    }
}

/// Relies on String::push: appends the given character at the end of the string.
#[verifier::external_body]
pub(crate) fn push_char(s: &mut String, c: char)
    ensures
        final(s)@ == old(s)@.push(c),
{
    s.push(c)
}

/// Clones one string, contents preserved.
pub(crate) fn clone_string(s: &String) -> (r: String)
    ensures
        r@ == s@,
{
    let mut r = String::new();
    r.append(s.as_str());
    r
}

fn hex_digit_char(n: u8) -> (c: char)
    requires
        n < 16,
    ensures
        c == hex_digit(n as int),
{
    match n {
        0 => '0',
        1 => '1',
        2 => '2',
        3 => '3',
        4 => '4',
        5 => '5',
        6 => '6',
        7 => '7',
        8 => '8',
        9 => '9',
        10 => 'A',
        11 => 'B',
        12 => 'C',
        13 => 'D',
        14 => 'E',
        _ => 'F',
    }
}

/// Appends the two-digit uppercase hex form of one byte.
pub fn push_hex(s: &mut String, b: u8)
    ensures
        final(s)@ == old(s)@ + hex_byte(b),
{
    push_char(s, hex_digit_char(b / 16));
    push_char(s, hex_digit_char(b % 16));
    proof {
        assert(old(s)@.push(hex_digit(b as int / 16)).push(hex_digit(b as int % 16)) =~= old(
            s,
        )@ + hex_byte(b));
    }
}

/// The hex rendering of a whole byte slice, two uppercase digits per byte.
pub fn hex_string(bytes: &[u8]) -> (r: String)
    ensures
        r@ == hex_of(bytes@),
{
    let mut r = String::new();
    let mut i: usize = 0;
    while i < bytes.len()
        invariant
            i <= bytes@.len(),
            r@ == hex_of(bytes@.take(i as int)),
        decreases bytes@.len() - i,
    {
        push_hex(&mut r, bytes[i]);
        proof {
            assert(bytes@.take(i + 1).drop_last() =~= bytes@.take(i as int));
            assert(bytes@.take(i + 1).last() == bytes@[i as int]);
        }
        i = i + 1;
    }
    proof {
        assert(bytes@.take(bytes@.len() as int) =~= bytes@);
    }
    r
}

/// A byte shown verbatim in the character column: the printable
/// (graphic) ASCII range, space excluded.
pub open spec fn is_graphic(b: u8) -> bool {
    0x21 <= b && b <= 0x7e
}

/// The character-column projection of one byte: itself when printable,
/// otherwise a dot.
pub open spec fn ascii_char(b: u8) -> char {
    if is_graphic(b) {
        b as char
    } else {
        '.'
    }
}

/// The character-column projection of a byte sequence.
pub open spec fn ascii_of(s: Seq<u8>) -> Seq<char> {
    s.map_values(|b: u8| ascii_char(b))
}

/// The character-column rendering of a whole byte slice.
pub fn ascii_string(bytes: &[u8]) -> (r: String)
    ensures
        r@ == ascii_of(bytes@),
{
    let mut r = String::new();
    let mut i: usize = 0;
    while i < bytes.len()
        invariant
            i <= bytes@.len(),
            r@ == ascii_of(bytes@.take(i as int)),
        decreases bytes@.len() - i,
    {
        let b = bytes[i];
        let c: char = if 0x21 <= b && b <= 0x7e {
            b as char
        } else {
            '.'
        };
        push_char(&mut r, c);
        proof {
            assert(ascii_of(bytes@.take(i + 1)) =~= ascii_of(bytes@.take(i as int)).push(
                ascii_char(b),
            ));
        }
        i = i + 1;
    }
    proof {
        assert(bytes@.take(bytes@.len() as int) =~= bytes@);
    }
    r
}

/// The character-column rendering of a buffer as one cell per byte, for
/// a grid display: the byte itself when printable, else a dot.
pub fn ascii_cells(bytes: &[u8]) -> (out: Vec<String>)
    ensures
        out@.len() == bytes@.len(),
        forall|i: int|
            0 <= i < out@.len() ==> (#[trigger] out@[i])@ == seq![ascii_char(bytes@[i])],
{
    let mut out: Vec<String> = Vec::new();
    let mut i: usize = 0;
    while i < bytes.len()
        invariant
            i <= bytes@.len(),
            out@.len() == i,
            forall|k: int|
                0 <= k < i ==> (#[trigger] out@[k])@ == seq![ascii_char(bytes@[k])],
        decreases bytes@.len() - i,
    {
        let b = bytes[i];
        let c: char = if 0x21 <= b && b <= 0x7e {
            b as char
        } else {
            '.'
        };
        let mut cell = String::new();
        push_char(&mut cell, c);
        proof {
            assert(cell@ =~= seq![ascii_char(b)]);
        }
        out.push(cell);
        i = i + 1;
    }
    out
}

/// The decimal rendering of a non-negative integer, no leading zeros.
pub open spec fn dec_of(n: int) -> Seq<char>
    decreases n,
{
    if n < 10 {
        seq![hex_digit(n)]
    } else {
        dec_of(n / 10) + seq![hex_digit(n % 10)]
    }
}

/// The decimal rendering of an unsigned integer.
pub fn dec_string_u64(n: u64) -> (r: String)
    ensures
        r@ == dec_of(n as int),
    decreases n,
{
    if n < 10 {
        let mut r = String::new();
        push_char(&mut r, hex_digit_char(n as u8));
        proof {
            assert(Seq::<char>::empty().push(hex_digit(n as int)) =~= dec_of(n as int));
        }
        r
    } else {
        let mut r = dec_string_u64(n / 10);
        push_char(&mut r, hex_digit_char((n % 10) as u8));
        proof {
            assert(dec_of(n as int / 10).push(hex_digit(n as int % 10)) =~= dec_of(n as int));
        }
        r
    }
}

/// The shortest uppercase hex rendering of a non-negative integer,
/// no leading zeros.
pub open spec fn hex_min_of(n: int) -> Seq<char>
    decreases n,
{
    if n < 16 {
        seq![hex_digit(n)]
    } else {
        hex_min_of(n / 16) + seq![hex_digit(n % 16)]
    }
}

/// The shortest uppercase hex rendering of an unsigned integer.
pub fn hex_min_string_u64(n: u64) -> (r: String)
    ensures
        r@ == hex_min_of(n as int),
    decreases n,
{
    if n < 16 {
        let mut r = String::new();
        push_char(&mut r, hex_digit_char(n as u8));
        proof {
            assert(Seq::<char>::empty().push(hex_digit(n as int)) =~= hex_min_of(n as int));
        }
        r
    } else {
        let mut r = hex_min_string_u64(n / 16);
        push_char(&mut r, hex_digit_char((n % 16) as u8));
        proof {
            assert(hex_min_of(n as int / 16).push(hex_digit(n as int % 16)) =~= hex_min_of(
                n as int,
            ));
        }
        r
    }
}

/// The bytes of a 16-bit value, least significant first.
pub open spec fn u16_le_bytes(x: u16) -> Seq<u8> {
    seq![(x & 0xff) as u8, ((x >> 8) & 0xff) as u8]
}

/// The bytes of a 32-bit value, least significant first.
pub open spec fn u32_le_bytes(x: u32) -> Seq<u8> {
    seq![(x & 0xff) as u8, ((x >> 8) & 0xff) as u8, ((x >> 16) & 0xff) as u8, ((x >> 24)
        & 0xff) as u8]
}

/// The bytes of a 64-bit value, least significant first.
pub open spec fn u64_le_bytes(x: u64) -> Seq<u8> {
    seq![(x & 0xff) as u8, ((x >> 8) & 0xff) as u8, ((x >> 16) & 0xff) as u8, ((x >> 24)
        & 0xff) as u8, ((x >> 32) & 0xff) as u8, ((x >> 40) & 0xff) as u8, ((x >> 48)
        & 0xff) as u8, ((x >> 56) & 0xff) as u8]
}

/// The bytes of a 32-bit value, most significant first.
pub open spec fn u32_be_bytes(x: u32) -> Seq<u8> {
    seq![((x >> 24) & 0xff) as u8, ((x >> 16) & 0xff) as u8, ((x >> 8) & 0xff) as u8, (x
        & 0xff) as u8]
}

/// The bytes of a 64-bit value, most significant first.
pub open spec fn u64_be_bytes(x: u64) -> Seq<u8> {
    seq![((x >> 56) & 0xff) as u8, ((x >> 48) & 0xff) as u8, ((x >> 40) & 0xff) as u8, ((x >> 32)
        & 0xff) as u8, ((x >> 24) & 0xff) as u8, ((x >> 16) & 0xff) as u8, ((x >> 8)
        & 0xff) as u8, (x & 0xff) as u8]
}

/// Hex rendering of a 16-bit value's bytes, least significant byte first.
pub fn hex_u16_le(x: u16) -> (r: String)
    ensures
        r@ == hex_of(u16_le_bytes(x)),
{
    let mut v: Vec<u8> = Vec::new();
    v.push((x & 0xff) as u8);
    v.push(((x >> 8) & 0xff) as u8);
    proof {
        assert(v@ =~= u16_le_bytes(x));
    }
    hex_string(v.as_slice())
}

/// Hex rendering of a 32-bit value's bytes, least significant byte first.
pub fn hex_u32_le(x: u32) -> (r: String)
    ensures
        r@ == hex_of(u32_le_bytes(x)),
{
    let mut v: Vec<u8> = Vec::new();
    v.push((x & 0xff) as u8);
    v.push(((x >> 8) & 0xff) as u8);
    v.push(((x >> 16) & 0xff) as u8);
    v.push(((x >> 24) & 0xff) as u8);
    proof {
        assert(v@ =~= u32_le_bytes(x));
    }
    hex_string(v.as_slice())
}

/// Hex rendering of a 64-bit value's bytes, least significant byte first.
pub fn hex_u64_le(x: u64) -> (r: String)
    ensures
        r@ == hex_of(u64_le_bytes(x)),
{
    let mut v: Vec<u8> = Vec::new();
    v.push((x & 0xff) as u8);
    v.push(((x >> 8) & 0xff) as u8);
    v.push(((x >> 16) & 0xff) as u8);
    v.push(((x >> 24) & 0xff) as u8);
    v.push(((x >> 32) & 0xff) as u8);
    v.push(((x >> 40) & 0xff) as u8);
    v.push(((x >> 48) & 0xff) as u8);
    v.push(((x >> 56) & 0xff) as u8);
    proof {
        assert(v@ =~= u64_le_bytes(x));
    }
    hex_string(v.as_slice())
}

/// Hex rendering of a 32-bit value's bytes, most significant byte first.
pub fn hex_u32_be(x: u32) -> (r: String)
    ensures
        r@ == hex_of(u32_be_bytes(x)),
{
    let mut v: Vec<u8> = Vec::new();
    v.push(((x >> 24) & 0xff) as u8);
    v.push(((x >> 16) & 0xff) as u8);
    v.push(((x >> 8) & 0xff) as u8);
    v.push((x & 0xff) as u8);
    proof {
        assert(v@ =~= u32_be_bytes(x));
    }
    hex_string(v.as_slice())
}

/// Hex rendering of a 64-bit value's bytes, most significant byte first.
pub fn hex_u64_be(x: u64) -> (r: String)
    ensures
        r@ == hex_of(u64_be_bytes(x)),
{
    let mut v: Vec<u8> = Vec::new();
    v.push(((x >> 56) & 0xff) as u8);
    v.push(((x >> 48) & 0xff) as u8);
    v.push(((x >> 40) & 0xff) as u8);
    v.push(((x >> 32) & 0xff) as u8);
    v.push(((x >> 24) & 0xff) as u8);
    v.push(((x >> 16) & 0xff) as u8);
    v.push(((x >> 8) & 0xff) as u8);
    v.push((x & 0xff) as u8);
    proof {
        assert(v@ =~= u64_be_bytes(x));
    }
    hex_string(v.as_slice())
}


} // verus!
