use rtf_displayer::document::{Document, StyledRun};
use rtf_displayer::layout::{fragments, place, Fragment, GlyphPlacement};
use rtf_parser::Painter;

fn doc(texts: &[&str]) -> Document {
    Document {
        runs: texts
            .iter()
            .map(|t| StyledRun { text: t.to_string(), style: Painter::default() })
            .collect(),
    }
}

fn frag(text: &str, breaks_line: bool) -> Fragment {
    Fragment { text: text.to_string(), breaks_line }
}

fn at(line: usize, x: u64, width: u32, fragment: usize) -> GlyphPlacement {
    GlyphPlacement { line, x, width, fragment }
}

#[test]
fn crlf_run_is_laid_out_on_two_lines() {
    let d = doc(&["AB\r\nCD"]);
    let fs = fragments(&d);
    assert_eq!(fs, vec![frag("AB", false), frag("CD", true)]);
    let ps = place(&fs, &vec![10, 12]);
    assert_eq!(ps, vec![at(0, 0, 10, 0), at(1, 0, 12, 1)]);
}

#[test]
fn empty_document_has_no_placements() {
    let d = Document::empty();
    let fs = fragments(&d);
    assert!(fs.is_empty());
    assert!(place(&fs, &vec![]).is_empty());
}

#[test]
fn newline_only_run_gives_empty_fragments() {
    let fs = fragments(&doc(&["\n\n"]));
    assert_eq!(fs, vec![frag("", false), frag("", true), frag("", true)]);
    let ps = place(&fs, &vec![0, 0, 0]);
    assert_eq!(ps, vec![at(0, 0, 0, 0), at(1, 0, 0, 1), at(2, 0, 0, 2)]);
}

#[test]
fn runs_continue_on_the_same_line() {
    let fs = fragments(&doc(&["Hello ", "big\nworld", "!"]));
    assert_eq!(
        fs,
        vec![frag("Hello ", false), frag("big", false), frag("world", true), frag("!", false)]
    );
    let ps = place(&fs, &vec![30, 15, 25, 4]);
    assert_eq!(ps, vec![at(0, 0, 30, 0), at(0, 30, 15, 1), at(1, 0, 25, 2), at(1, 25, 4, 3)]);
}

#[test]
fn carriage_returns_are_dropped_everywhere() {
    let fs = fragments(&doc(&["a\rb\r", "\rc"]));
    assert_eq!(fs, vec![frag("ab", false), frag("c", false)]);
}

#[test]
fn empty_run_gives_one_empty_fragment() {
    let fs = fragments(&doc(&["x", ""]));
    assert_eq!(fs, vec![frag("x", false), frag("", false)]);
    let ps = place(&fs, &vec![7, 0]);
    assert_eq!(ps, vec![at(0, 0, 7, 0), at(0, 7, 0, 1)]);
}

#[test]
fn single_run_with_k_newlines_spans_k_plus_one_lines() {
    let fs = fragments(&doc(&["one\r\ntwo\nthree\n\nfive"]));
    assert_eq!(fs.len(), 5);
    let ps = place(&fs, &vec![1, 2, 3, 4, 5]);
    let lines: Vec<usize> = ps.iter().map(|p| p.line).collect();
    assert_eq!(lines, vec![0, 1, 2, 3, 4]);
}

#[test]
fn layout_is_deterministic() {
    let d = doc(&["AB\r\nCD", "EF\nG"]);
    let w = vec![10, 12, 3, 8, 9];
    let first = place(&fragments(&d), &w);
    let second = place(&fragments(&d), &w);
    assert_eq!(first, second);
}
