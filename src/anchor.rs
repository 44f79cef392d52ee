//! The anchors: `^` at the start of a pattern and `$` at its end.

use vstd::prelude::*;
use vstd::string::*;
use crate::grammar::{CompileError, Sym, token_at};
use crate::align::{TextExtract, Boundary, extracted};
use crate::token::{RegexToken, agrees};

verus! {

/// `^`: the name starts here.
pub struct RegexPow {}

impl RegexPow {
    /// Reads the symbol at `index` of the pattern text `txt`; a `^` there is
    /// accepted only at the very start, and fails with MisplacedAnchor elsewhere.
    pub fn from_str(txt: &str, index: usize) -> (r: Result<(RegexToken, usize), CompileError>)
        requires
            index < txt@.len(),
        ensures
            agrees(r, index as int, token_at(txt@, index as int)),
    {
        RegexToken::from_str(txt, index)
    }

    /// What this symbol does at `pos`: nothing, where `pos` is the start.
    pub fn extract_text(&self, name: &str, pos: usize, mode: Boundary) -> (r: Option<TextExtract>)
        requires
            pos <= name@.len(),
        ensures
            extracted(r, Sym::Start, name@, pos as int, mode),
    {
        if pos != 0 {
            return None;
        }
        let previous = String::new();
        assert(previous@ =~= name@.subrange(pos as int, pos as int));
        Some(TextExtract::new(previous, 0, mode))
    }
}

/// `$`: the name ends here.
pub struct RegexDol {}

impl RegexDol {
    /// Reads a `$` from the text that follows it, which must be empty; the
    /// count includes the `$`.
    pub fn from_str(txt: &str) -> (r: Result<(RegexToken, usize), CompileError>)
        ensures
            agrees(r, 0, token_at(seq!['$'] + txt@, 0)),
    {
        if txt.unicode_len() == 0 {
            Ok((RegexToken::Dol(RegexDol {}), 1))
        } else {
            Err(CompileError::MisplacedAnchor)
        }
    }

    /// What this symbol does at `pos`: nothing, where the name ends at `pos`;
    /// it fails on any text left.
    pub fn extract_text(&self, name: &str, pos: usize, mode: Boundary) -> (r: Option<TextExtract>)
        requires
            pos <= name@.len(),
        ensures
            extracted(r, Sym::End, name@, pos as int, mode),
    {
        if pos != name.unicode_len() {
            return None;
        }
        let previous = String::new();
        assert(previous@ =~= name@.subrange(pos as int, pos as int));
        Some(TextExtract::new(previous, 0, Boundary::Bounded(0)))
    }
}

} // verus!
