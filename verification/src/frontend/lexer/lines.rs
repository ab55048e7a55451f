use vstd::prelude::*;

use crate::frontend::lexer::pos::{lemma_line_of, FileView};
use crate::frontend::lexer::lex::{lemma_nl_compose, lemma_step_lines, start_offset};
use crate::frontend::lexer::rules::{char_at, nl_lines};
use crate::frontend::lexer::unicode::BOM;

verus! {

/// The number of newline bytes before offset `o`.
pub open spec fn newlines_before(src: Seq<u8>, o: int) -> int
    decreases o,
{
    if o <= 0 {
        0
    } else {
        newlines_before(src, o - 1) + if src[o - 1] == 10 {
            1int
        } else {
            0int
        }
    }
}

/// The offset at which the line that holds offset `o` starts: just after the last newline
/// byte before `o`, or 0.
pub open spec fn line_start(src: Seq<u8>, o: int) -> int
    decreases o,
{
    if o <= 0 {
        0
    } else if src[o - 1] == 10 {
        o
    } else {
        line_start(src, o - 1)
    }
}

/// The line table that reading a file with one line from its start up to `q` builds: 0,
/// then the offset after each newline byte before `q` that lies inside the file.
pub open spec fn line_table(src: Seq<u8>, q: int, size: usize) -> Seq<usize>
    decreases q,
{
    if q <= 0 {
        seq![0usize]
    } else {
        let t = line_table(src, q - 1, size);
        if src[q - 1] == 10 && q < size {
            t.push(q as usize)
        } else {
            t
        }
    }
}

/// The line start of an offset lies at or before it.
proof fn lemma_line_start(src: Seq<u8>, o: int)
    requires
        0 <= o,
    ensures
        0 <= line_start(src, o) <= o,
    decreases o,
{
    if o > 0 && src[o - 1] != 10 {
        lemma_line_start(src, o - 1);
    }
}

/// The line table up to `q` starts with 0 and increases strictly, and its later entries lie
/// after 0, at or before `q`, and inside the file.
proof fn lemma_table(src: Seq<u8>, q: int, size: usize)
    requires
        0 <= q,
    ensures
        ({
            let t = line_table(src, q, size);
            &&& t.len() >= 1
            &&& t[0] == 0
            &&& forall|i: int, j: int| 0 <= i < j < t.len() ==> #[trigger] t[i] < #[trigger] t[j]
            &&& forall|i: int| 0 <= i < t.len() ==> #[trigger] t[i] <= q
            &&& forall|i: int| 1 <= i < t.len() ==> #[trigger] t[i] < size
        }),
    decreases q,
{
    if q > 0 {
        lemma_table(src, q - 1, size);
        let t = line_table(src, q - 1, size);
        if src[q - 1] == 10 && q < size {
            let u = t.push(q as usize);
            assert forall|i: int, j: int| 0 <= i < j < u.len() implies #[trigger] u[i]
                < #[trigger] u[j] by {
                if j == u.len() - 1 {
                    assert(u[i] == t[i]);
                    assert(t[i] <= q - 1);
                } else {
                    assert(u[i] == t[i] && u[j] == t[j]);
                }
            }
            assert forall|i: int| 0 <= i < u.len() implies #[trigger] u[i] <= q by {
                if i < t.len() {
                    assert(u[i] == t[i]);
                }
            }
            assert forall|i: int| 1 <= i < u.len() implies #[trigger] u[i] < size by {
                if i < t.len() {
                    assert(u[i] == t[i]);
                }
            }
        }
    }
}

/// The line table up to `o` begins the line table up to any later `q`, whose further
/// entries lie after `o`.
proof fn lemma_table_prefix(src: Seq<u8>, o: int, q: int, size: usize)
    requires
        0 <= o <= q,
    ensures
        ({
            let a = line_table(src, o, size);
            let b = line_table(src, q, size);
            &&& a.len() <= b.len()
            &&& forall|i: int| 0 <= i < a.len() ==> #[trigger] b[i] == a[i]
            &&& forall|i: int| a.len() <= i < b.len() ==> #[trigger] b[i] > o
        }),
    decreases q - o,
{
    if o < q {
        lemma_table_prefix(src, o, q - 1, size);
        let a = line_table(src, o, size);
        let t = line_table(src, q - 1, size);
        let b = line_table(src, q, size);
        if src[q - 1] == 10 && q < size {
            assert forall|i: int| 0 <= i < a.len() implies #[trigger] b[i] == a[i] by {
                assert(b[i] == t[i]);
            }
            assert forall|i: int| a.len() <= i < b.len() implies #[trigger] b[i] > o by {
                if i < t.len() {
                    assert(b[i] == t[i]);
                }
            }
        }
    }
}

/// Inside the file, the line table up to `o` has one entry per newline before `o` after
/// the first, and its last entry is the start of the line that holds `o`.
proof fn lemma_table_at(src: Seq<u8>, o: int, size: usize)
    requires
        0 <= o < size,
    ensures
        line_table(src, o, size).len() == newlines_before(src, o) + 1,
        line_table(src, o, size).last() == line_start(src, o),
    decreases o,
{
    if o > 0 {
        lemma_table_at(src, o - 1, size);
    }
}

/// Reading a file that has one line, from its start up to `q`, leaves it with the line
/// table up to `q`.
proof fn lemma_fresh_lines(f: FileView, src: Seq<u8>, q: int)
    requires
        f.lines == seq![0usize],
        0 <= q <= src.len(),
        q <= usize::MAX,
    ensures
        nl_lines(f, src, 0, q) == (FileView { lines: line_table(src, q, f.size), ..f }),
    decreases q,
{
    if q > 0 {
        lemma_fresh_lines(f, src, q - 1);
        lemma_nl_compose(f, src, 0, q - 1, q);
        let g = nl_lines(f, src, 0, q - 1);
        let t = line_table(src, q - 1, f.size);
        lemma_table(src, q - 1, f.size);
        assert(g.lines == t);
        let h = if src[q - 1] == 10 {
            g.with_line(q as usize)
        } else {
            g
        };
        assert(nl_lines(h, src, q, q) == h);
        assert(nl_lines(g, src, q - 1, q) == h);
        assert(h.lines == line_table(src, q, f.size));
        assert(h.lines == line_table(src, q, f.size));
    }
}

/// Reading a file that has one line, from its start up to `q`, records its lines so that
/// every offset `o` read so far inside the file lies on line `1 +` the number of newlines
/// before `o`, at column `o + 1 -` the start of its line.
///
/// The end of a file whose last byte is a newline is not covered: no line starts at the
/// end of a file, so the end stays on the line of that newline.
pub proof fn lemma_line_and_column(f: FileView, src: Seq<u8>, q: int, o: int)
    requires
        f.wf(),
        f.lines == seq![0usize],
        f.base >= 1,
        0 <= o <= q <= src.len(),
        src.len() <= usize::MAX,
        o < f.size,
    ensures
        ({
            let g = nl_lines(f, src, 0, q);
            let sp = g.source_pos((f.base + o) as usize);
            &&& g.wf()
            &&& sp.offset == o
            &&& sp.line == newlines_before(src, o) + 1
            &&& sp.column == o - line_start(src, o) + 1
        }),
{
    lemma_fresh_lines(f, src, q);
    lemma_table(src, q, f.size);
    lemma_table_prefix(src, o, q, f.size);
    lemma_table_at(src, o, f.size);
    lemma_line_start(src, o);
    let g = nl_lines(f, src, 0, q);
    let k = newlines_before(src, o) + 1;
    let a = line_table(src, o, f.size);
    assert(g.lines[k - 1] == a[k - 1]);
    assert(g.is_line_of(o, k));
    lemma_line_of(g, o, k);
    lemma_newlines_bound(src, o);
}

/// A new lexer starts past a byte order mark, which records no line: its file model is
/// what reading from the start of the source up to its first offset leaves.
pub proof fn lemma_start_lines(f: FileView, src: Seq<u8>)
    ensures
        nl_lines(f, src, 0, start_offset(src)) == f,
{
    if char_at(src, 0) == Some(BOM) {
        lemma_step_lines(f, src, 0);
    }
}

/// There are no more newlines before `o` than bytes.
proof fn lemma_newlines_bound(src: Seq<u8>, o: int)
    requires
        0 <= o,
    ensures
        0 <= newlines_before(src, o) <= o,
    decreases o,
{
    if o > 0 {
        lemma_newlines_bound(src, o - 1);
    }
}

} // verus!
