//! Hex-dump row engine: chunks a raw byte buffer into fixed-width rows,
//! renders them as compressed text (adjacent identical rows elided with a
//! `*` marker line), and paginates the result.

use crate::hex::{
    ascii_of, ascii_string, hex_byte, hex_of, hex_u16_le, hex_u64_be, hex_u64_le, push_char,
    push_hex, u16_le_bytes, u64_be_bytes, u64_le_bytes,
};
use vstd::arithmetic::div_mod::{
    lemma_basic_div, lemma_div_nonincreasing, lemma_div_plus_one, lemma_div_pos_is_pos,
    lemma_mod_multiples_vanish, lemma_mod_self_0, lemma_small_mod,
};
use vstd::prelude::*;
use vstd::slice::{slice_subrange, slice_to_vec};

verus! {

/// The groups of `w` consecutive elements of `s`, in order; the final
/// group holds whatever remains and may be shorter.
pub open spec fn chunk_seq<A>(s: Seq<A>, w: int) -> Seq<Seq<A>>
    decreases s.len(),
{
    if w < 1 || s.len() == 0 {
        Seq::empty()
    } else if s.len() <= w {
        seq![s]
    } else {
        seq![s.take(w)] + chunk_seq(s.skip(w), w)
    }
}

/// Chunking yields one group per `w` elements, rounded up.
pub proof fn lemma_chunk_seq_len<A>(s: Seq<A>, w: int)
    requires
        w >= 1,
    ensures
        chunk_seq(s, w).len() == (s.len() + w - 1) / w,
    decreases s.len(),
{
    if s.len() == 0 {
        lemma_basic_div(w - 1, w);
    } else if s.len() <= w {
        lemma_basic_div(s.len() - 1, w);
        lemma_div_plus_one(s.len() - 1, w);
    } else {
        lemma_chunk_seq_len(s.skip(w), w);
        lemma_div_plus_one(s.len() - 1, w);
    }
}

/// Every group except the last has exactly `w` elements; the last is
/// non-empty and no longer than `w`.
pub proof fn lemma_chunk_seq_shape<A>(s: Seq<A>, w: int)
    requires
        w >= 1,
    ensures
        forall|i: int|
            0 <= i < chunk_seq(s, w).len() - 1 ==> #[trigger] chunk_seq(s, w)[i].len() == w,
        chunk_seq(s, w).len() > 0 ==> 1 <= chunk_seq(s, w).last().len() <= w,
    decreases s.len(),
{
    if s.len() == 0 {
    } else if s.len() <= w {
    } else {
        lemma_chunk_seq_shape(s.skip(w), w);
        let c = chunk_seq(s, w);
        let rest = chunk_seq(s.skip(w), w);
        assert(c == seq![s.take(w)] + rest);
        assert(rest.len() > 0);
        assert(c.last() == rest.last());
        assert forall|i: int| 0 <= i < c.len() - 1 implies #[trigger] c[i].len() == w by {
            if i > 0 {
                assert(c[i] == rest[i - 1]);
            }
        }
    }
}

/// The last group holds exactly the division's remainder of elements,
/// or a full `w` when the length divides evenly.
pub proof fn lemma_chunk_seq_last_len<A>(s: Seq<A>, w: int)
    requires
        w >= 1,
        s.len() > 0,
    ensures
        chunk_seq(s, w).last().len() == if s.len() as int % w == 0 {
            w
        } else {
            s.len() as int % w
        },
    decreases s.len(),
{
    if s.len() <= w {
        if s.len() == w {
            lemma_mod_self_0(w);
        } else {
            lemma_small_mod(s.len(), w as nat);
        }
    } else {
        lemma_chunk_seq_last_len(s.skip(w), w);
        assert(chunk_seq(s, w).last() == chunk_seq(s.skip(w), w).last());
        assert(w * 1 + (s.len() - w) == s.len());
        lemma_mod_multiples_vanish(1, s.len() - w, w);
    }
}

/// Chunking is lossless and order-preserving: concatenating the groups
/// restores the sequence it was given.
pub proof fn lemma_chunk_seq_flatten<A>(s: Seq<A>, w: int)
    requires
        w >= 1,
    ensures
        chunk_seq(s, w).flatten() == s,
    decreases s.len(),
{
    if s.len() == 0 {
        assert(chunk_seq(s, w).flatten() =~= s);
    } else if s.len() <= w {
        seq![s].lemma_flatten_one_element();
        assert(chunk_seq(s, w).flatten() =~= s);
    } else {
        lemma_chunk_seq_flatten(s.skip(w), w);
        let c = chunk_seq(s, w);
        assert(c.first() == s.take(w));
        assert(c.drop_first() =~= chunk_seq(s.skip(w), w));
        assert(c.flatten() == c.first() + c.drop_first().flatten());
        assert(s.take(w) + s.skip(w) =~= s);
    }
}

/// One display row: the file-relative offset of its first byte, and the
/// up-to-row-width bytes it covers.
#[derive(Debug, PartialEq, Eq)]
pub struct HexRow {
    pub offset: u64,
    pub bytes: Vec<u8>,
}

/// The ordered rows of a chunked buffer.
#[derive(Debug, PartialEq, Eq)]
pub struct HexDump {
    pub rows: Vec<HexRow>,
}

impl HexDump {
    /// The byte content of the rows, offsets stripped.
    pub open spec fn bytes_view(self) -> Seq<Seq<u8>> {
        self.rows@.map_values(|r: HexRow| r.bytes@)
    }
}

/// Chunks a buffer into rows of `row_width` bytes; the final row may be
/// shorter. Row `i` starts at byte `i * row_width` of the buffer and its
/// offset field is that position shifted by `base_offset`.
pub fn chunk(buffer: &[u8], row_width: usize, base_offset: u64) -> (d: HexDump)
    requires
        row_width >= 1,
        base_offset + buffer@.len() <= u64::MAX,
    ensures
        d.bytes_view() == chunk_seq(buffer@, row_width as int),
        forall|i: int|
            0 <= i < d.rows@.len() ==> #[trigger] d.rows@[i].offset == base_offset + i * (
            row_width as int),
{
    let w = row_width;
    let len = buffer.len();
    let mut rows: Vec<HexRow> = Vec::new();
    let mut pos: usize = 0;
    proof {
        assert(rows@.len() * (w as int) == 0);
        assert(buffer@.skip(0) =~= buffer@);
        assert(rows@.map_values(|r: HexRow| r.bytes@) + chunk_seq(buffer@, w as int) =~= chunk_seq(
            buffer@,
            w as int,
        ));
    }
    while pos < len
        invariant
            w >= 1,
            len == buffer@.len(),
            base_offset + buffer@.len() <= u64::MAX,
            pos <= len,
            pos == rows@.len() * (w as int) || pos == len,
            chunk_seq(buffer@, w as int) == rows@.map_values(|r: HexRow| r.bytes@) + chunk_seq(
                buffer@.skip(pos as int),
                w as int,
            ),
            forall|i: int|
                0 <= i < rows@.len() ==> #[trigger] rows@[i].offset == base_offset + i * (w as int),
        decreases len - pos,
    {
        proof {
            assert(pos == rows@.len() * (w as int));
        }
        let end = if len - pos > w {
            pos + w
        } else {
            len
        };
        let row_bytes = slice_to_vec(slice_subrange(buffer, pos, end));
        let row = HexRow { offset: base_offset + pos as u64, bytes: row_bytes };
        let ghost old_rows = rows@;
        rows.push(row);
        proof {
            let bw = |r: HexRow| r.bytes@;
            assert(rows@.map_values(bw) =~= old_rows.map_values(bw).push(row.bytes@));
            let rem = buffer@.skip(pos as int);
            if len - pos > w {
                assert(rem.take(w as int) =~= buffer@.subrange(pos as int, end as int));
                assert(rem.skip(w as int) =~= buffer@.skip(end as int));
                assert(chunk_seq(rem, w as int) == seq![rem.take(w as int)] + chunk_seq(
                    rem.skip(w as int),
                    w as int,
                ));
            } else {
                assert(rem =~= buffer@.subrange(pos as int, end as int));
                assert(chunk_seq(rem, w as int) == seq![rem]);
                assert(chunk_seq(buffer@.skip(end as int), w as int) =~= Seq::<Seq<u8>>::empty());
            }
            assert(chunk_seq(buffer@, w as int) =~= rows@.map_values(bw) + chunk_seq(
                buffer@.skip(end as int),
                w as int,
            ));
            assert(rows@.len() * (w as int) == old_rows.len() * (w as int) + (w as int))
                by (nonlinear_arith)
                requires
                    rows@.len() == old_rows.len() + 1,
            ;
        }
        pos = end;
    }
    proof {
        assert(chunk_seq(buffer@.skip(len as int), w as int) =~= Seq::<Seq<u8>>::empty());
        let d_view = rows@.map_values(|r: HexRow| r.bytes@);
        assert(d_view + Seq::<Seq<u8>>::empty() =~= d_view);
    }
    HexDump { rows }
}

/// The hex column of one row: two uppercase digits per byte, bytes
/// separated by a single space.
pub open spec fn spaced_hex(s: Seq<u8>) -> Seq<char>
    decreases s.len(),
{
    if s.len() == 0 {
        Seq::empty()
    } else if s.len() == 1 {
        hex_byte(s[0])
    } else {
        spaced_hex(s.drop_last()) + seq![' '] + hex_byte(s.last())
    }
}

/// Builds the hex column of one row.
pub fn spaced_hex_string(bytes: &[u8]) -> (r: String)
    ensures
        r@ == spaced_hex(bytes@),
{
    let mut r = String::new();
    let mut i: usize = 0;
    while i < bytes.len()
        invariant
            i <= bytes@.len(),
            r@ == spaced_hex(bytes@.take(i as int)),
        decreases bytes@.len() - i,
    {
        let ghost prev = r@;
        if i > 0 {
            push_char(&mut r, ' ');
        }
        push_hex(&mut r, bytes[i]);
        proof {
            assert(bytes@.take(i + 1).drop_last() =~= bytes@.take(i as int));
            assert(bytes@.take(i + 1).last() == bytes@[i as int]);
            if i == 0 {
                assert(r@ =~= spaced_hex(bytes@.take(1)));
            } else {
                assert(r@ =~= spaced_hex(bytes@.take(i as int)) + seq![' '] + hex_byte(
                    bytes@[i as int],
                ));
            }
        }
        i = i + 1;
    }
    proof {
        assert(bytes@.take(bytes@.len() as int) =~= bytes@);
    }
    r
}

/// One fully rendered text line: the row offset in big-endian hex, the
/// hex column, then the character column, the parts set off by two spaces.
pub open spec fn row_line(r: HexRow) -> Seq<char> {
    hex_of(u64_be_bytes(r.offset)) + seq![' ', ' '] + spaced_hex(r.bytes@) + seq![' ', ' ']
        + ascii_of(r.bytes@)
}

/// The marker line that stands for a run of repeated rows.
pub open spec fn star_line() -> Seq<char> {
    seq!['*']
}

/// Builds the full text line of one row.
pub fn row_line_string(r: &HexRow) -> (s: String)
    ensures
        s@ == row_line(*r),
{
    let mut s = hex_u64_be(r.offset);
    push_char(&mut s, ' ');
    push_char(&mut s, ' ');
    let hx = spaced_hex_string(r.bytes.as_slice());
    s.append(hx.as_str());
    push_char(&mut s, ' ');
    push_char(&mut s, ' ');
    let asc = ascii_string(r.bytes.as_slice());
    s.append(asc.as_str());
    proof {
        assert(s@ =~= row_line(*r));
    }
    s
}

/// The rendered lines of `rows` from position `i` on. A row whose bytes
/// equal the previous row's is suppressed; the first suppressed row of a
/// run contributes the `*` marker line, tracked by `star_active`.
pub open spec fn render_lines_from(rows: Seq<HexRow>, i: int, star_active: bool) -> Seq<Seq<char>>
    decreases rows.len() - i,
{
    if i < 0 || i >= rows.len() {
        Seq::empty()
    } else if i > 0 && rows[i].bytes@ == rows[i - 1].bytes@ {
        if star_active {
            render_lines_from(rows, i + 1, true)
        } else {
            seq![star_line()] + render_lines_from(rows, i + 1, true)
        }
    } else {
        seq![row_line(rows[i])] + render_lines_from(rows, i + 1, false)
    }
}

/// The rendered lines of a whole dump.
pub open spec fn render_lines(rows: Seq<HexRow>) -> Seq<Seq<char>> {
    render_lines_from(rows, 0, false)
}

/// The rendered text: every line followed by a newline.
pub open spec fn join_lines(lines: Seq<Seq<char>>) -> Seq<char>
    decreases lines.len(),
{
    if lines.len() == 0 {
        Seq::empty()
    } else {
        join_lines(lines.drop_last()) + lines.last() + seq!['\n']
    }
}

/// The compressed textual rendering of a dump, kept line by line.
#[derive(Debug, PartialEq, Eq)]
pub struct CompressedDumpText {
    pub lines: Vec<String>,
}

impl CompressedDumpText {
    /// The lines as character sequences.
    pub open spec fn lines_view(self) -> Seq<Seq<char>> {
        self.lines@.map_values(|s: String| s@)
    }

    /// The whole text, each line terminated by a newline.
    pub fn text(&self) -> (r: String)
        ensures
            r@ == join_lines(self.lines_view()),
    {
        let mut r = String::new();
        let mut i: usize = 0;
        while i < self.lines.len()
            invariant
                i <= self.lines@.len(),
                r@ == join_lines(self.lines_view().take(i as int)),
            decreases self.lines@.len() - i,
        {
            r.append(self.lines[i].as_str());
            push_char(&mut r, '\n');
            proof {
                let v = self.lines_view();
                assert(v.take(i + 1).drop_last() =~= v.take(i as int));
                assert(v.take(i + 1).last() == v[i as int]);
                assert(r@ =~= join_lines(v.take(i as int)) + v[i as int] + seq!['\n']);
            }
            i = i + 1;
        }
        proof {
            assert(self.lines_view().take(self.lines_view().len() as int) =~= self.lines_view());
        }
        r
    }
}

/// True exactly when the two byte vectors hold the same bytes.
fn bytes_eq(a: &Vec<u8>, b: &Vec<u8>) -> (r: bool)
    ensures
        r == (a@ == b@),
{
    if a.len() != b.len() {
        proof {
            assert(a@ != b@);
        }
        return false;
    }
    let mut i: usize = 0;
    while i < a.len()
        invariant
            a@.len() == b@.len(),
            i <= a@.len(),
            forall|j: int| 0 <= j < i ==> a@[j] == b@[j],
        decreases a@.len() - i,
    {
        if a[i] != b[i] {
            proof {
                assert(a@[i as int] != b@[i as int]);
            }
            return false;
        }
        i = i + 1;
    }
    proof {
        assert(a@ =~= b@);
    }
    true
}

/// Renders a dump as compressed text: rows appear in order; a row
/// byte-identical to the one directly above it is elided, each maximal
/// run of elided rows standing as a single `*` line.
pub fn render(dump: &HexDump) -> (t: CompressedDumpText)
    ensures
        t.lines_view() == render_lines(dump.rows@),
{
    let rows = &dump.rows;
    let mut lines: Vec<String> = Vec::new();
    let mut star_active = false;
    let mut i: usize = 0;
    proof {
        assert(lines@.map_values(|s: String| s@) + render_lines_from(rows@, 0, false)
            =~= render_lines_from(rows@, 0, false));
    }
    while i < rows.len()
        invariant
            i <= rows@.len(),
            render_lines(rows@) == lines@.map_values(|s: String| s@) + render_lines_from(
                rows@,
                i as int,
                star_active,
            ),
        decreases rows@.len() - i,
    {
        let ghost old_lines = lines@;
        if i > 0 && bytes_eq(&rows[i].bytes, &rows[i - 1].bytes) {
            if !star_active {
                let mut star = String::new();
                push_char(&mut star, '*');
                proof {
                    assert(star@ =~= star_line());
                }
                lines.push(star);
                star_active = true;
                proof {
                    assert(lines@.map_values(|s: String| s@) =~= old_lines.map_values(
                        |s: String| s@,
                    ).push(star_line()));
                    assert(old_lines.map_values(|s: String| s@) + (seq![star_line()]
                        + render_lines_from(rows@, i + 1, true)) =~= lines@.map_values(
                        |s: String| s@,
                    ) + render_lines_from(rows@, i + 1, true));
                }
            }
        } else {
            let line = row_line_string(&rows[i]);
            lines.push(line);
            star_active = false;
            proof {
                assert(lines@.map_values(|s: String| s@) =~= old_lines.map_values(
                    |s: String| s@,
                ).push(row_line(rows@[i as int])));
                assert(old_lines.map_values(|s: String| s@) + (seq![row_line(rows@[i as int])]
                    + render_lines_from(rows@, i + 1, false)) =~= lines@.map_values(|s: String| s@)
                    + render_lines_from(rows@, i + 1, false));
            }
        }
        i = i + 1;
    }
    proof {
        assert(lines@.map_values(|s: String| s@) + Seq::<Seq<char>>::empty() =~= lines@.map_values(
            |s: String| s@,
        ));
    }
    CompressedDumpText { lines }
}

proof fn lemma_render_from_congruent(a: Seq<HexRow>, b: Seq<HexRow>, i: int, star_active: bool)
    requires
        a.len() == b.len(),
        forall|k: int|
            0 <= k < a.len() ==> (#[trigger] a[k]).offset == b[k].offset && a[k].bytes@
                == b[k].bytes@,
    ensures
        render_lines_from(a, i, star_active) == render_lines_from(b, i, star_active),
    decreases a.len() - i,
{
    if 0 <= i < a.len() {
        assert(row_line(a[i]) == row_line(b[i]));
        lemma_render_from_congruent(a, b, i + 1, true);
        lemma_render_from_congruent(a, b, i + 1, false);
    }
}

/// Rendering reads nothing but the row offsets and row bytes: dumps that
/// chunking built from the same buffer render to byte-identical text, so
/// rendering the same buffer twice does too.
pub proof fn lemma_render_deterministic(a: HexDump, b: HexDump)
    requires
        a.rows@.len() == b.rows@.len(),
        forall|k: int|
            0 <= k < a.rows@.len() ==> (#[trigger] a.rows@[k]).offset == b.rows@[k].offset
                && a.rows@[k].bytes@ == b.rows@[k].bytes@,
    ensures
        render_lines(a.rows@) == render_lines(b.rows@),
        join_lines(render_lines(a.rows@)) == join_lines(render_lines(b.rows@)),
{
    lemma_render_from_congruent(a.rows@, b.rows@, 0, false);
}

proof fn lemma_skip_run(rows: Seq<HexRow>, i: int, n: int)
    requires
        1 <= i <= n < rows.len(),
        forall|j: int| 0 <= j < n ==> #[trigger] rows[j].bytes@ == rows[0].bytes@,
    ensures
        render_lines_from(rows, i, true) == render_lines_from(rows, n, true),
    decreases n - i,
{
    if i < n {
        assert(rows[i].bytes@ == rows[0].bytes@);
        assert(rows[i - 1].bytes@ == rows[0].bytes@);
        lemma_skip_run(rows, i + 1, n);
    }
}

/// Run compression: a run of `n >= 2` byte-identical rows followed by one
/// different row renders as exactly the first row in full, one `*` marker
/// line, and the last row in full.
pub proof fn lemma_run_compression(rows: Seq<HexRow>, n: int)
    requires
        2 <= n,
        rows.len() == n + 1,
        forall|j: int| 0 <= j < n ==> #[trigger] rows[j].bytes@ == rows[0].bytes@,
        rows[n].bytes@ != rows[0].bytes@,
    ensures
        render_lines(rows) == seq![row_line(rows[0]), star_line(), row_line(rows[n])],
{
    assert(render_lines_from(rows, 0, false) == seq![row_line(rows[0])] + render_lines_from(
        rows,
        1,
        false,
    ));
    assert(rows[1].bytes@ == rows[0].bytes@);
    assert(render_lines_from(rows, 1, false) == seq![star_line()] + render_lines_from(
        rows,
        2,
        true,
    ));
    lemma_skip_run(rows, 2, n);
    assert(rows[n - 1].bytes@ == rows[0].bytes@);
    assert(rows[n].bytes@ != rows[n - 1].bytes@);
    assert(render_lines_from(rows, n, true) == seq![row_line(rows[n])] + render_lines_from(
        rows,
        n + 1,
        false,
    ));
    assert(render_lines_from(rows, n + 1, false) =~= Seq::<Seq<char>>::empty());
    assert(render_lines(rows) =~= seq![row_line(rows[0]), star_line(), row_line(rows[n])]);
}

/// No elision across non-adjacent duplicates: three rows whose neighbours
/// differ render as three full lines and no `*` line, even if the first
/// and third rows are byte-identical.
pub proof fn lemma_no_collapse_nonadjacent(rows: Seq<HexRow>)
    requires
        rows.len() == 3,
        rows[1].bytes@ != rows[0].bytes@,
        rows[2].bytes@ != rows[1].bytes@,
    ensures
        render_lines(rows) == seq![row_line(rows[0]), row_line(rows[1]), row_line(rows[2])],
{
    assert(render_lines_from(rows, 0, false) == seq![row_line(rows[0])] + render_lines_from(
        rows,
        1,
        false,
    ));
    assert(render_lines_from(rows, 1, false) == seq![row_line(rows[1])] + render_lines_from(
        rows,
        2,
        false,
    ));
    assert(render_lines_from(rows, 2, false) == seq![row_line(rows[2])] + render_lines_from(
        rows,
        3,
        false,
    ));
    assert(render_lines_from(rows, 3, false) =~= Seq::<Seq<char>>::empty());
    assert(render_lines(rows) =~= seq![row_line(rows[0]), row_line(rows[1]), row_line(rows[2])]);
}

/// Splits rendered text into pages of `lines_per_page` lines each; the
/// last page may be shorter. Pages cover the lines in order, exactly once.
pub fn paginate(text: &CompressedDumpText, lines_per_page: usize) -> (pages: Vec<Vec<String>>)
    requires
        lines_per_page >= 1,
    ensures
        pages@.map_values(|p: Vec<String>| p@.map_values(|s: String| s@)) == chunk_seq(
            text.lines_view(),
            lines_per_page as int,
        ),
{
    let w = lines_per_page;
    let len = text.lines.len();
    let ghost lv = text.lines_view();
    let ghost pv = |p: Vec<String>| p@.map_values(|s: String| s@);
    let mut pages: Vec<Vec<String>> = Vec::new();
    let mut pos: usize = 0;
    proof {
        assert(lv.skip(0) =~= lv);
        assert(pages@.map_values(pv) + chunk_seq(lv, w as int) =~= chunk_seq(lv, w as int));
    }
    while pos < len
        invariant
            w >= 1,
            len == text.lines@.len(),
            lv == text.lines_view(),
            pv == (|p: Vec<String>| p@.map_values(|s: String| s@)),
            pos <= len,
            chunk_seq(lv, w as int) == pages@.map_values(pv) + chunk_seq(
                lv.skip(pos as int),
                w as int,
            ),
        decreases len - pos,
    {
        let end = if len - pos > w {
            pos + w
        } else {
            len
        };
        let mut page: Vec<String> = Vec::new();
        let mut j: usize = pos;
        while j < end
            invariant
                pos <= j <= end <= len,
                len == text.lines@.len(),
                lv == text.lines_view(),
                page@.map_values(|s: String| s@) == lv.subrange(pos as int, j as int),
            decreases end - j,
        {
            let ghost old_page = page@;
            let line = crate::hex::clone_string(&text.lines[j]);
            proof {
                assert(line@ == lv[j as int]);
            }
            page.push(line);
            proof {
                assert(page@.map_values(|s: String| s@) =~= old_page.map_values(
                    |s: String| s@,
                ).push(lv[j as int]));
                assert(page@.map_values(|s: String| s@) =~= lv.subrange(pos as int, j + 1));
            }
            j = j + 1;
        }
        let ghost old_pages = pages@;
        pages.push(page);
        proof {
            assert(pages@.map_values(pv) =~= old_pages.map_values(pv).push(
                lv.subrange(pos as int, end as int),
            ));
            let rem = lv.skip(pos as int);
            if len - pos > w {
                assert(rem.take(w as int) =~= lv.subrange(pos as int, end as int));
                assert(rem.skip(w as int) =~= lv.skip(end as int));
                assert(chunk_seq(rem, w as int) == seq![rem.take(w as int)] + chunk_seq(
                    rem.skip(w as int),
                    w as int,
                ));
            } else {
                assert(rem =~= lv.subrange(pos as int, end as int));
                assert(chunk_seq(rem, w as int) == seq![rem]);
                assert(chunk_seq(lv.skip(end as int), w as int) =~= Seq::<Seq<Seq<char>>>::empty());
            }
            assert(chunk_seq(lv, w as int) =~= pages@.map_values(pv) + chunk_seq(
                lv.skip(end as int),
                w as int,
            ));
        }
        pos = end;
    }
    proof {
        assert(chunk_seq(lv.skip(len as int), w as int) =~= Seq::<Seq<Seq<char>>>::empty());
        assert(pages@.map_values(pv) + Seq::<Seq<Seq<char>>>::empty() =~= pages@.map_values(pv));
    }
    pages
}

/// The number of pages pagination yields: one per `lines_per_page`
/// lines, rounded up.
pub fn page_count(text: &CompressedDumpText, lines_per_page: usize) -> (n: usize)
    requires
        lines_per_page >= 1,
    ensures
        n == chunk_seq(text.lines_view(), lines_per_page as int).len(),
{
    let len = text.lines.len();
    proof {
        assert(text.lines_view().len() == len);
        lemma_chunk_seq_len(text.lines_view(), lines_per_page as int);
    }
    if len == 0 {
        0
    } else {
        proof {
            lemma_div_nonincreasing((len - 1) as int, lines_per_page as int);
            lemma_div_plus_one((len - 1) as int, lines_per_page as int);
            lemma_div_pos_is_pos((len - 1) as int, lines_per_page as int);
        }
        1 + (len - 1) / lines_per_page
    }
}

/// Page `i` of the pagination: the lines from `i * lines_per_page` up to
/// the next page boundary or the end; absent exactly when `i` lies past
/// the last page.
pub fn page(text: &CompressedDumpText, lines_per_page: usize, i: usize) -> (p: Option<
    Vec<String>,
>)
    requires
        lines_per_page >= 1,
    ensures
        p is Some <==> i < chunk_seq(text.lines_view(), lines_per_page as int).len(),
        (p matches Some(pg) ==> pg@.map_values(|s: String| s@) == chunk_seq(
            text.lines_view(),
            lines_per_page as int,
        )[i as int]),
{
    let w = lines_per_page;
    let len = text.lines.len();
    let ghost lv = text.lines_view();
    let n = page_count(text, w);
    if i >= n {
        return None;
    }
    proof {
        assert(lv.len() == len);
        lemma_chunk_seq_index(lv, w as int, i as int);
    }
    let start = i * w;
    let end = if len - start > w {
        start + w
    } else {
        len
    };
    let mut pg: Vec<String> = Vec::new();
    let mut j: usize = start;
    while j < end
        invariant
            start <= j <= end <= len,
            len == text.lines@.len(),
            lv == text.lines_view(),
            pg@.map_values(|s: String| s@) == lv.subrange(start as int, j as int),
        decreases end - j,
    {
        let ghost old_pg = pg@;
        let line = crate::hex::clone_string(&text.lines[j]);
        proof {
            assert(line@ == lv[j as int]);
        }
        pg.push(line);
        proof {
            assert(pg@.map_values(|s: String| s@) =~= old_pg.map_values(|s: String| s@).push(
                lv[j as int],
            ));
            assert(pg@.map_values(|s: String| s@) =~= lv.subrange(start as int, j + 1));
        }
        j = j + 1;
    }
    proof {
        assert((i as int + 1) * (w as int) == i as int * (w as int) + (w as int))
            by (nonlinear_arith);
        assert(pg@.map_values(|s: String| s@) == chunk_seq(lv, w as int)[i as int]);
    }
    Some(pg)
}

/// Group `i` of a chunking covers exactly the elements from `i * w` up to
/// the next group boundary or the end, so group starts never pass the end.
pub proof fn lemma_chunk_seq_index<A>(s: Seq<A>, w: int, i: int)
    requires
        w >= 1,
        0 <= i < chunk_seq(s, w).len(),
    ensures
        i * w < s.len(),
        chunk_seq(s, w)[i] == s.subrange(
            i * w,
            if (i + 1) * w <= s.len() {
                (i + 1) * w
            } else {
                s.len() as int
            },
        ),
    decreases s.len(),
{
    if i == 0 {
        if s.len() <= w {
            assert(chunk_seq(s, w)[0] =~= s.subrange(0, s.len() as int));
        } else {
            assert(chunk_seq(s, w)[0] =~= s.subrange(0, w));
        }
    } else {
        assert(s.len() > w);
        let rest = chunk_seq(s.skip(w), w);
        assert(chunk_seq(s, w)[i] == rest[i - 1]);
        lemma_chunk_seq_index(s.skip(w), w, i - 1);
        assert((i - 1) * w + w == i * w) by (nonlinear_arith);
        assert(i * w + w == (i + 1) * w) by (nonlinear_arith);
        let hi_rest = if i * w <= s.len() - w {
            i * w
        } else {
            s.len() - w
        };
        assert(s.skip(w).subrange((i - 1) * w, hi_rest) =~= s.subrange(
            (i - 1) * w + w,
            hi_rest + w,
        ));
    }
}

/// One row of the hex-dump table as the display shows it: offset, hex
/// column and character column, each already rendered as text. The
/// offset is shown as the hex form of its little-endian bytes.
#[derive(Debug, PartialEq, Eq)]
pub struct Hexrow {
    pub offset: String,
    pub bytes: String,
    pub ascii: String,
}

impl Hexrow {
    /// Renders one dump row for display.
    pub fn from_row(r: &HexRow) -> (h: Hexrow)
        ensures
            h.offset@ == hex_of(u64_le_bytes(r.offset)),
            h.bytes@ == spaced_hex(r.bytes@),
            h.ascii@ == ascii_of(r.bytes@),
    {
        Hexrow {
            offset: hex_u64_le(r.offset),
            bytes: spaced_hex_string(r.bytes.as_slice()),
            ascii: ascii_string(r.bytes.as_slice()),
        }
    }
}

/// Renders every row of a dump for the hex-dump table.
pub fn display_rows(d: &HexDump) -> (out: Vec<Hexrow>)
    ensures
        out@.len() == d.rows@.len(),
        forall|i: int|
            0 <= i < out@.len() ==> {
                &&& (#[trigger] out@[i]).offset@ == hex_of(u64_le_bytes(d.rows@[i].offset))
                &&& out@[i].bytes@ == spaced_hex(d.rows@[i].bytes@)
                &&& out@[i].ascii@ == ascii_of(d.rows@[i].bytes@)
            },
{
    let mut out: Vec<Hexrow> = Vec::new();
    let mut i: usize = 0;
    while i < d.rows.len()
        invariant
            i <= d.rows@.len(),
            out@.len() == i,
            forall|k: int|
                0 <= k < i ==> {
                    &&& (#[trigger] out@[k]).offset@ == hex_of(u64_le_bytes(d.rows@[k].offset))
                    &&& out@[k].bytes@ == spaced_hex(d.rows@[k].bytes@)
                    &&& out@[k].ascii@ == ascii_of(d.rows@[k].bytes@)
                },
        decreases d.rows@.len() - i,
    {
        out.push(Hexrow::from_row(&d.rows[i]));
        i = i + 1;
    }
    out
}

/// Chunks a whole buffer into 16-byte rows from offset zero and renders
/// every row for the hex-dump table.
pub fn create_dump(bytes: &[u8]) -> (out: Vec<Hexrow>)
    ensures
        out@.len() == chunk_seq(bytes@, 16).len(),
        forall|i: int|
            0 <= i < out@.len() ==> {
                &&& (#[trigger] out@[i]).offset@ == hex_of(u64_le_bytes((16 * i) as u64))
                &&& out@[i].bytes@ == spaced_hex(chunk_seq(bytes@, 16)[i])
                &&& out@[i].ascii@ == ascii_of(chunk_seq(bytes@, 16)[i])
            },
{
    let n = bytes.len();
    proof {
        assert(bytes@.len() == n);
    }
    let d = chunk(bytes, 16, 0);
    let out = display_rows(&d);
    proof {
        assert(d.bytes_view().len() == chunk_seq(bytes@, 16).len());
        assert forall|i: int| 0 <= i < out@.len() implies {
            &&& (#[trigger] out@[i]).offset@ == hex_of(u64_le_bytes((16 * i) as u64))
            &&& out@[i].bytes@ == spaced_hex(chunk_seq(bytes@, 16)[i])
            &&& out@[i].ascii@ == ascii_of(chunk_seq(bytes@, 16)[i])
        } by {
            assert(d.bytes_view()[i] == chunk_seq(bytes@, 16)[i]);
            assert(d.rows@[i].bytes@ == d.bytes_view()[i]);
            assert(d.rows@[i].offset == 0 + i * 16);
        }
    }
    out
}

/// The two-digit hex cell of one byte.
fn byte_hex_string(b: u8) -> (s: String)
    ensures
        s@ == hex_byte(b),
{
    let mut s = String::new();
    push_hex(&mut s, b);
    proof {
        assert(Seq::<char>::empty() + hex_byte(b) =~= hex_byte(b));
    }
    s
}

/// One row of the byte-grid view: a row offset rendered as the hex form
/// of its little-endian 16-bit bytes, and one two-digit hex cell per byte.
#[derive(Debug, PartialEq, Eq)]
pub struct HexviewData {
    pub offset: String,
    pub hex_data: Vec<String>,
}

impl HexviewData {
    /// Chunks a buffer into 16-byte grid rows. Row `i` covers group `i`
    /// of the chunking and is labelled with offset `idx_offset + 16 * i`.
    pub fn build_rows(data: &[u8], idx_offset: u16) -> (out: Vec<HexviewData>)
        requires
            idx_offset + data@.len() <= 65536,
        ensures
            out@.len() == chunk_seq(data@, 16).len(),
            forall|i: int|
                0 <= i < out@.len() ==> (#[trigger] out@[i]).offset@ == hex_of(
                    u16_le_bytes((idx_offset + 16 * i) as u16),
                ),
            forall|i: int|
                0 <= i < out@.len() ==> (#[trigger] out@[i]).hex_data@.len() == chunk_seq(
                    data@,
                    16,
                )[i].len(),
            forall|i: int, j: int|
                0 <= i < out@.len() && 0 <= j < out@[i].hex_data@.len() ==> (#[trigger] out@[i].hex_data@[j])@
                    == hex_byte(chunk_seq(data@, 16)[i][j]),
    {
        let d = chunk(data, 16, idx_offset as u64);
        let ghost chunks = chunk_seq(data@, 16);
        proof {
            assert(d.rows@.len() == chunks.len()) by {
                assert(d.bytes_view().len() == chunks.len());
            }
        }
        let mut out: Vec<HexviewData> = Vec::new();
        let mut i: usize = 0;
        while i < d.rows.len()
            invariant
                idx_offset + data@.len() <= 65536,
                chunks == chunk_seq(data@, 16),
                d.rows@.len() == chunks.len(),
                d.bytes_view() == chunks,
                forall|k: int|
                    0 <= k < d.rows@.len() ==> #[trigger] d.rows@[k].offset == idx_offset + k * 16,
                i <= d.rows@.len(),
                out@.len() == i,
                forall|k: int|
                    0 <= k < i ==> (#[trigger] out@[k]).offset@ == hex_of(
                        u16_le_bytes((idx_offset + 16 * k) as u16),
                    ),
                forall|k: int|
                    0 <= k < i ==> (#[trigger] out@[k]).hex_data@.len() == chunks[k].len(),
                forall|k: int, j: int|
                    0 <= k < i && 0 <= j < out@[k].hex_data@.len() ==> (#[trigger] out@[k].hex_data@[j])@
                        == hex_byte(chunks[k][j]),
            decreases d.rows@.len() - i,
        {
            proof {
                lemma_chunk_seq_index(data@, 16, i as int);
                assert(i * 16 < data@.len());
                assert(idx_offset + i * 16 <= 65535);
            }
            let row = &d.rows[i];
            let off16 = row.offset as u16;
            let offset = hex_u16_le(off16);
            let ghost row_bytes = chunks[i as int];
            proof {
                assert(row.bytes@ == row_bytes) by {
                    assert(d.bytes_view()[i as int] == row_bytes);
                }
            }
            let mut hex_data: Vec<String> = Vec::new();
            let mut j: usize = 0;
            while j < row.bytes.len()
                invariant
                    row.bytes@ == row_bytes,
                    j <= row_bytes.len(),
                    hex_data@.len() == j,
                    forall|q: int|
                        0 <= q < j ==> (#[trigger] hex_data@[q])@ == hex_byte(row_bytes[q]),
                decreases row_bytes.len() - j,
            {
                hex_data.push(byte_hex_string(row.bytes[j]));
                j = j + 1;
            }
            out.push(HexviewData { offset, hex_data });
            i = i + 1;
        }
        out
    }
}

} // verus!
