use vstd::prelude::*;

use rtf_parser::Painter;

verus! {

#[verifier::external_type_specification]
#[verifier::external_body]
pub struct ExPainter(Painter);

/// A span of text that shares one style. The style is carried along and
/// not read by the layout.
#[derive(Debug, PartialEq)]
pub struct StyledRun {
    pub text: String,
    pub style: Painter,
}

/// The runs of a document, in reading order.
#[derive(Debug, PartialEq)]
pub struct Document {
    pub runs: Vec<StyledRun>,
}

pub open spec fn run_texts(runs: Seq<StyledRun>) -> Seq<Seq<char>> {
    runs.map_values(|r: StyledRun| r.text@)
}

impl Document {
    /// A document with no runs.
    pub fn empty() -> (r: Document)
        ensures
            r.runs@.len() == 0,
    {
        Document { runs: Vec::new() }
    }
}

/// Why a document could not be loaded.
#[derive(PartialEq, Eq, Structural, Clone, Copy, Debug)]
pub enum LoadError {
    /// The path does not name a file.
    PathResolution,
    /// The file could not be read as text.
    FileRead,
    /// The text is not a document that the RTF parser accepts, or the parser
    /// gave up on it.
    Parse,
    /// A fragment of the document could not be measured.
    Measurement,
}

} // verus!
