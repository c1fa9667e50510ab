use vstd::prelude::*;
use vstd::set_lib::{lemma_int_range, set_int_range};

use crate::document::{run_texts, Document};

verus! {

/// Relies on `String::push`: appends one character to the string.
#[verifier::external_body]
fn push_char(s: &mut String, c: char)
    ensures
        final(s)@ == old(s)@.push(c),
{
    s.push(c)
}

/// `s` without its carriage returns.
pub open spec fn strip_cr(s: Seq<char>) -> Seq<char>
    decreases s.len(),
{
    if s.len() == 0 {
        s
    } else {
        let p = strip_cr(s.drop_last());
        if s.last() == '\r' {
            p
        } else {
            p.push(s.last())
        }
    }
}

/// `s` cut at each newline, the newlines dropped: one more piece than
/// there are newlines.
pub open spec fn split_lines(s: Seq<char>) -> Seq<Seq<char>>
    decreases s.len(),
{
    if s.len() == 0 {
        seq![Seq::<char>::empty()]
    } else {
        let p = split_lines(s.drop_last());
        if s.last() == '\n' {
            p.push(Seq::<char>::empty())
        } else {
            p.update(p.len() - 1, p.last().push(s.last()))
        }
    }
}

/// The number of times `c` occurs in `s`.
pub open spec fn count_char(s: Seq<char>, c: char) -> nat
    decreases s.len(),
{
    if s.len() == 0 {
        0
    } else {
        count_char(s.drop_last(), c) + if s.last() == c {
            1nat
        } else {
            0nat
        }
    }
}

/// The line fragments of one run's text.
pub open spec fn run_fragments(t: Seq<char>) -> Seq<Seq<char>> {
    split_lines(strip_cr(t))
}

/// A piece of a run's text that holds no line break, and whether a line
/// break comes right before it.
#[derive(Clone, Debug, PartialEq, Eq)]
pub struct Fragment {
    pub text: String,
    pub breaks_line: bool,
}

impl Fragment {
    pub open spec fn view(&self) -> (Seq<char>, bool) {
        (self.text@, self.breaks_line)
    }
}

/// The fragments of one run: each but the first comes after a line break.
pub open spec fn run_fragment_views(t: Seq<char>) -> Seq<(Seq<char>, bool)> {
    run_fragments(t).map(|i: int, f: Seq<char>| (f, i > 0))
}

/// The fragments of a whole document, run after run.
pub open spec fn doc_fragments(texts: Seq<Seq<char>>) -> Seq<(Seq<char>, bool)>
    decreases texts.len(),
{
    if texts.len() == 0 {
        Seq::empty()
    } else {
        doc_fragments(texts.drop_last()) + run_fragment_views(texts.last())
    }
}

pub open spec fn fragment_views(fs: Seq<Fragment>) -> Seq<(Seq<char>, bool)> {
    fs.map_values(|f: Fragment| f@)
}

proof fn lemma_split_lines_nonempty(s: Seq<char>)
    ensures
        split_lines(s).len() == count_char(s, '\n') + 1,
    decreases s.len(),
{
    if s.len() > 0 {
        lemma_split_lines_nonempty(s.drop_last());
    }
}

proof fn lemma_run_fragments_step(t: Seq<char>, k: int)
    requires
        0 <= k < t.len(),
    ensures
        ({
            let p = run_fragments(t.take(k));
            run_fragments(t.take(k + 1)) == if t[k] == '\r' {
                p
            } else if t[k] == '\n' {
                p.push(Seq::<char>::empty())
            } else {
                p.update(p.len() - 1, p.last().push(t[k]))
            }
        }),
{
    let a = t.take(k);
    let b = t.take(k + 1);
    assert(b.drop_last() =~= a);
    assert(b.last() == t[k]);
    if t[k] != '\r' {
        assert(strip_cr(b) == strip_cr(a).push(t[k]));
        assert(strip_cr(b).drop_last() =~= strip_cr(a));
    }
}

/// Appends to `out` the fragments of `text`, in order.
fn push_run_fragments(text: &String, out: &mut Vec<Fragment>)
    ensures
        fragment_views(final(out)@) == fragment_views(old(out)@) + run_fragment_views(text@),
{
    let ghost start = fragment_views(out@);
    let ghost t = text@;
    let mut cur = String::new();
    let mut first = true;
    for c in it: text.as_str().chars()
        invariant
            it.seq() == t,
            ({
                let pieces = run_fragments(t.take(it.index() as int));
                &&& pieces.len() >= 1
                &&& cur@ == pieces.last()
                &&& fragment_views(out@) == start + pieces.drop_last().map(
                    |i: int, f: Seq<char>| (f, i > 0),
                )
                &&& first == (pieces.len() == 1)
            }),
    {
        let ghost k = it.index() as int;
        proof {
            lemma_run_fragments_step(t, k);
            lemma_split_lines_nonempty(strip_cr(t.take(k)));
            lemma_split_lines_nonempty(strip_cr(t.take(k + 1)));
        }
        let ghost before = out@;
        if c == '\n' {
            let piece = Fragment { text: cur, breaks_line: !first };
            out.push(piece);
            proof {
                assert(fragment_views(out@) =~= fragment_views(before).push(
                    (piece.text@, piece.breaks_line),
                ));
            }
            cur = String::new();
            first = false;
        } else if c != '\r' {
            push_char(&mut cur, c);
        }
        proof {
            let pieces = run_fragments(t.take(k));
            let next = run_fragments(t.take(k + 1));
            assert(c == t[k]);
            if c == '\n' {
                assert(next.drop_last() =~= pieces);
                assert(pieces =~= pieces.drop_last().push(pieces.last()));
            } else {
                assert(next.drop_last() =~= pieces.drop_last());
            }
            assert(fragment_views(out@) =~= start + next.drop_last().map(
                |i: int, f: Seq<char>| (f, i > 0),
            ));
        }
    }
    proof {
        assert(t.take(t.len() as int) =~= t);
    }
    let ghost before = out@;
    let piece = Fragment { text: cur, breaks_line: !first };
    out.push(piece);
    proof {
        assert(fragment_views(out@) =~= fragment_views(before).push(
            (piece.text@, piece.breaks_line),
        ));
        let pieces = run_fragments(t);
        assert(pieces =~= pieces.drop_last().push(pieces.last()));
        assert(fragment_views(out@) =~= start + run_fragment_views(t));
    }
}

/// Splits a document into its line fragments, run after run: carriage
/// returns are dropped, and each newline starts a new fragment on the next line.
pub fn fragments(doc: &Document) -> (r: Vec<Fragment>)
    ensures
        fragment_views(r@) == doc_fragments(run_texts(doc.runs@)),
{
    let mut out: Vec<Fragment> = Vec::new();
    let n = doc.runs.len();
    for i in 0..n
        invariant
            n == doc.runs@.len(),
            fragment_views(out@) == doc_fragments(run_texts(doc.runs@.take(i as int))),
    {
        push_run_fragments(&doc.runs[i].text, &mut out);
        proof {
            let texts = run_texts(doc.runs@.take(i + 1));
            assert(texts.drop_last() =~= run_texts(doc.runs@.take(i as int)));
            assert(texts.last() == doc.runs@[i as int].text@);
        }
    }
    proof {
        assert(doc.runs@.take(n as int) =~= doc.runs@);
    }
    out
}

/// The sum of `ws`.
pub open spec fn total(ws: Seq<u32>) -> int
    decreases ws.len(),
{
    if ws.len() == 0 {
        0
    } else {
        total(ws.drop_last()) + ws.last()
    }
}

/// The line of fragment `i`: the line breaks up to and including it.
pub open spec fn line_at(breaks: Seq<bool>, i: int) -> int
    decreases i + 1,
{
    if i < 0 {
        0
    } else {
        line_at(breaks, i - 1) + if breaks[i] {
            1int
        } else {
            0int
        }
    }
}

/// The horizontal position of fragment `i`: the widths of the fragments
/// before it on its line.
pub open spec fn x_at(breaks: Seq<bool>, ws: Seq<u32>, i: int) -> int
    decreases i,
{
    if i <= 0 || breaks[i] {
        0
    } else {
        x_at(breaks, ws, i - 1) + ws[i - 1]
    }
}

/// Where a measured fragment goes: its line, its horizontal position on that
/// line and its width, in the units of the widths it was measured in.
#[derive(Clone, Copy, Debug, PartialEq, Eq, Structural)]
pub struct GlyphPlacement {
    pub line: usize,
    pub x: u64,
    pub width: u32,
    /// The index of the fragment that it places.
    pub fragment: usize,
}

pub open spec fn placement_of(breaks: Seq<bool>, ws: Seq<u32>, i: int) -> GlyphPlacement {
    GlyphPlacement {
        line: line_at(breaks, i) as usize,
        x: x_at(breaks, ws, i) as u64,
        width: ws[i],
        fragment: i as usize,
    }
}

/// The placement of each fragment, given whether a line break comes before
/// it and its measured width.
pub open spec fn placements(breaks: Seq<bool>, ws: Seq<u32>) -> Seq<GlyphPlacement> {
    Seq::new(ws.len(), |i: int| placement_of(breaks, ws, i))
}

pub open spec fn breaks_of(fs: Seq<Fragment>) -> Seq<bool> {
    fs.map_values(|f: Fragment| f.breaks_line)
}

proof fn lemma_line_at_bound(breaks: Seq<bool>, i: int)
    requires
        -1 <= i < breaks.len(),
    ensures
        0 <= line_at(breaks, i) <= i + 1,
    decreases i + 1,
{
    if i >= 0 {
        lemma_line_at_bound(breaks, i - 1);
    }
}

proof fn lemma_x_at_bound(breaks: Seq<bool>, ws: Seq<u32>, i: int)
    requires
        0 <= i < ws.len(),
        breaks.len() == ws.len(),
    ensures
        0 <= x_at(breaks, ws, i),
        x_at(breaks, ws, i) + ws[i] <= total(ws.take(i + 1)),
    decreases i,
{
    assert(ws.take(i + 1).drop_last() =~= ws.take(i));
    lemma_total_nonneg(ws.take(i));
    if i > 0 {
        lemma_x_at_bound(breaks, ws, i - 1);
    }
}

proof fn lemma_total_nonneg(ws: Seq<u32>)
    ensures
        total(ws) >= 0,
    decreases ws.len(),
{
    if ws.len() > 0 {
        lemma_total_nonneg(ws.drop_last());
    }
}

proof fn lemma_total_prefix(ws: Seq<u32>, k: int)
    requires
        0 <= k <= ws.len(),
    ensures
        total(ws.take(k)) <= total(ws),
    decreases ws.len() - k,
{
    if k < ws.len() {
        lemma_total_prefix(ws, k + 1);
        assert(ws.take(k + 1).drop_last() =~= ws.take(k));
    } else {
        assert(ws.take(k) =~= ws);
    }
}

/// Lays the measured fragments out: each goes after the previous one on its
/// line, and a line break starts the next line at zero. There is no wrapping.
pub fn place(frags: &Vec<Fragment>, widths: &Vec<u32>) -> (r: Vec<GlyphPlacement>)
    requires
        frags.len() == widths.len(),
        total(widths@) <= u64::MAX,
    ensures
        r@ == placements(breaks_of(frags@), widths@),
{
    let ghost breaks = breaks_of(frags@);
    let ghost ws = widths@;
    let mut out: Vec<GlyphPlacement> = Vec::new();
    let mut line: usize = 0;
    let mut next_x: u64 = 0;
    let n = frags.len();
    for i in 0..n
        invariant
            n == frags.len(),
            n == widths.len(),
            breaks == breaks_of(frags@),
            ws == widths@,
            total(ws) <= u64::MAX,
            line == line_at(breaks, i - 1),
            next_x == if i == 0 {
                0
            } else {
                x_at(breaks, ws, i - 1) + ws[i - 1]
            },
            out@ =~= placements(breaks, ws).take(i as int),
    {
        proof {
            lemma_line_at_bound(breaks, i as int);
            lemma_x_at_bound(breaks, ws, i as int);
            lemma_total_prefix(ws, i + 1);
        }
        let x: u64 = if frags[i].breaks_line {
            line = line + 1;
            0
        } else {
            next_x
        };
        let p = GlyphPlacement { line, x, width: widths[i], fragment: i };
        out.push(p);
        next_x = x + widths[i] as u64;
    }
    out
}

/// The layout is a function of the fragments and their widths: two runs of
/// it on documents with the same fragments, measured alike, place every
/// fragment on the same line at the same position.
pub proof fn lemma_layout_deterministic(
    f1: Seq<Fragment>,
    f2: Seq<Fragment>,
    ws: Seq<u32>,
    p1: Seq<GlyphPlacement>,
    p2: Seq<GlyphPlacement>,
)
    requires
        fragment_views(f1) == fragment_views(f2),
        p1 == placements(breaks_of(f1), ws),
        p2 == placements(breaks_of(f2), ws),
    ensures
        p1 == p2,
{
    assert(f1.len() == fragment_views(f1).len());
    assert forall|i: int| 0 <= i < f1.len() implies breaks_of(f1)[i] == breaks_of(f2)[i] by {
        assert(fragment_views(f1)[i] == fragment_views(f2)[i]);
    }
    assert(breaks_of(f1) =~= breaks_of(f2));
}

proof fn lemma_line_at_first_breaks(breaks: Seq<bool>, i: int)
    requires
        0 <= i < breaks.len(),
        forall|j: int| 0 <= j < breaks.len() ==> breaks[j] == (j > 0),
    ensures
        line_at(breaks, i) == i,
    decreases i,
{
    if i > 0 {
        lemma_line_at_first_breaks(breaks, i - 1);
    } else {
        assert(line_at(breaks, -1) == 0);
    }
}

/// A document of one run whose text holds `k` newlines once its carriage
/// returns are dropped is laid out on exactly `k + 1` lines, numbered `0..=k`,
/// one fragment on each.
pub proof fn lemma_single_run_line_count(t: Seq<char>, ws: Seq<u32>)
    requires
        ws.len() == doc_fragments(seq![t]).len(),
        ws.len() <= usize::MAX,
    ensures
        ({
            let k = count_char(strip_cr(t), '\n') as int;
            let breaks = doc_fragments(seq![t]).map_values(|v: (Seq<char>, bool)| v.1);
            let lines = placements(breaks, ws).map_values(|p: GlyphPlacement| p.line as int).to_set();
            &&& ws.len() == k + 1
            &&& forall|i: int| 0 <= i < ws.len() ==> #[trigger] placements(breaks, ws)[i].line == i
            &&& lines == set_int_range(0, k + 1)
            &&& lines.len() == k + 1
        }),
{
    let k = count_char(strip_cr(t), '\n') as int;
    let frags = doc_fragments(seq![t]);
    assert(seq![t].drop_last() =~= Seq::<Seq<char>>::empty());
    assert(seq![t].last() == t);
    assert(doc_fragments(Seq::<Seq<char>>::empty()) == Seq::<(Seq<char>, bool)>::empty());
    assert(frags =~= run_fragment_views(t));
    lemma_split_lines_nonempty(strip_cr(t));
    let breaks = frags.map_values(|v: (Seq<char>, bool)| v.1);
    let ps = placements(breaks, ws);
    let lines = ps.map_values(|p: GlyphPlacement| p.line as int).to_set();
    assert forall|j: int| 0 <= j < breaks.len() implies breaks[j] == (j > 0) by {
        assert(frags[j] == (run_fragments(t)[j], j > 0));
    }
    assert forall|i: int| 0 <= i < ws.len() implies ps[i].line == i by {
        lemma_line_at_first_breaks(breaks, i);
    }
    assert forall|l: int| lines.contains(l) <==> set_int_range(0, k + 1).contains(l) by {
        if set_int_range(0, k + 1).contains(l) {
            assert(ps.map_values(|p: GlyphPlacement| p.line as int)[l] == l);
        }
    }
    assert(lines =~= set_int_range(0, k + 1));
    lemma_int_range(0, k + 1);
}

} // verus!
