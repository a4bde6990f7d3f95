//! Source positions.
//!
//! Every node of the template tree carries a position range pointing into the
//! template source; the engine never computes with positions, it only copies
//! them so that synthesized nodes always carry a well-defined anchor.

use vstd::prelude::*;

verus! {

/// A position in template source: a line and a UTF-16 column, both 0-based.
#[derive(Clone, Copy, Debug, PartialEq, Eq, Structural)]
pub struct Pos {
    pub line: u32,
    pub utf16_col: u32,
}

/// A half-open range of source positions.
#[derive(Clone, Copy, Debug, PartialEq, Eq, Structural)]
pub struct Loc {
    pub start: Pos,
    pub end: Pos,
}

/// The source locations of an element's tags: the opening tag's two
/// delimiters, the position where its children start, and the end tag's two
/// delimiters (absent for self-closing elements).
#[derive(Clone, Copy, Debug, PartialEq)]
pub struct TagLoc {
    pub start_open: Loc,
    pub start_close: Loc,
    pub close: Loc,
    pub end: Option<(Loc, Loc)>,
}

impl Loc {
    /// The zero range, used as the sentinel anchor for empty regions.
    pub fn zero() -> (r: Loc)
        ensures
            r == Loc::spec_zero(),
    {
        Loc { start: Pos { line: 0, utf16_col: 0 }, end: Pos { line: 0, utf16_col: 0 } }
    }

    /// The zero range as a spec value.
    pub open spec fn spec_zero() -> Loc {
        Loc { start: Pos { line: 0, utf16_col: 0 }, end: Pos { line: 0, utf16_col: 0 } }
    }
}

} // verus!
