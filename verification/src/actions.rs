//! Editor-facing position types and the off-by-one adjustments between the
//! editor's zero-based lines and the completion engine's one-based lines.
use vstd::prelude::*;

verus! {

/// A position in a file as the editor reports it: zero-based line and
/// column.
#[derive(Debug, PartialEq, Eq)]
pub struct Position {
    pub filepath: String,
    pub line: usize,
    pub col: usize,
}

/// Which engine produced an answer.
#[derive(Debug, PartialEq, Eq, Structural)]
pub enum Provider {
    Compiler,
    Racer,
}

/// Hover information for a span: its type, documentation, and a
/// documentation link.
#[derive(Debug, PartialEq, Eq)]
pub struct Title {
    pub ty: String,
    pub docs: String,
    pub doc_url: String,
}

/// The completion engine counts lines from one; the editor counts from
/// zero. Moving a position to the engine adds one to the line.
pub fn adjust_vscode_pos_for_racer(source: Position) -> (r: Position)
    requires
        source.line < usize::MAX,
    ensures
        r.filepath@ == source.filepath@,
        r.line == source.line + 1,
        r.col == source.col,
{
    let mut s = source;
    s.line = s.line + 1;
    s
}

/// Moving a position back from the engine subtracts one from the line,
/// saturating at zero.
pub fn adjust_racer_pos_for_vscode(source: Position) -> (r: Position)
    ensures
        r.filepath@ == source.filepath@,
        r.line == if source.line > 0 {
            (source.line - 1) as int
        } else {
            0int
        },
        r.col == source.col,
{
    let mut s = source;
    if s.line > 0 {
        s.line = s.line - 1;
    }
    s
}

} // verus!
