//! The two capturing symbols without a character set: `*id` and `.id`.

use vstd::prelude::*;
use vstd::string::*;
use crate::grammar::{CompileError, Sym, token_at};
use crate::align::{TextExtract, Boundary, extracted};
use crate::token::{RegexToken, agrees};
use crate::text::{digit_text, digit_string};

verus! {

/// `*id`: a possibly empty run of any characters.
pub struct RegexAst {
    id: u32,
}

impl RegexAst {
    #[verifier::type_invariant]
    spec fn inv(&self) -> bool {
        self.id < 10
    }

    /// The capture id.
    pub closed spec fn view(&self) -> u32 {
        self.id
    }

    pub fn new(id: u32) -> (r: RegexAst)
        requires
            id < 10,
        ensures
            r@ == id,
    {
        RegexAst { id }
    }

    /// Reads the symbol from the text that follows a `*`; the count includes the `*`.
    pub fn from_str(txt: &str) -> (r: Result<(RegexToken, usize), CompileError>)
        ensures
            agrees(r, 0, token_at(seq!['*'] + txt@, 0)),
    {
        let mut full = "*".to_owned();
        proof {
            reveal_strlit("*");
        }
        full.append(txt);
        assert(full@ =~= seq!['*'] + txt@);
        RegexToken::from_str(full.as_str(), 0)
    }

    pub fn get_id(&self) -> (r: u32)
        ensures
            r == self@,
            r < 10,
    {
        proof {
            use_type_invariant(self);
        }
        self.id
    }

    /// The symbol as it is written in a pattern.
    pub fn to_string(&self) -> (r: String)
        ensures
            r@ == seq!['*'] + digit_text(self@),
    {
        proof {
            use_type_invariant(self);
        }
        let mut r = "*".to_owned();
        proof {
            reveal_strlit("*");
        }
        let d = digit_string(self.id);
        r.append(d.as_str());
        r
    }

    /// What this symbol does at `pos`: it consumes nothing and leaves the
    /// next symbol free to skip any text, which this symbol then owns.
    pub fn extract_text(&self, name: &str, pos: usize, mode: Boundary) -> (r: Option<TextExtract>)
        requires
            pos <= name@.len(),
        ensures
            extracted(r, Sym::Any(self@), name@, pos as int, mode),
    {
        let previous = String::new();
        assert(previous@ =~= name@.subrange(pos as int, pos as int));
        Some(TextExtract::new(previous, 0, Boundary::Unbounded))
    }
}

/// `.id`: exactly one character.
pub struct RegexDot {
    id: u32,
}

impl RegexDot {
    #[verifier::type_invariant]
    spec fn inv(&self) -> bool {
        self.id < 10
    }

    /// The capture id.
    pub closed spec fn view(&self) -> u32 {
        self.id
    }

    pub fn new(id: u32) -> (r: RegexDot)
        requires
            id < 10,
        ensures
            r@ == id,
    {
        RegexDot { id }
    }

    /// Reads the symbol from the text that follows a `.`: a digit id, or a
    /// character set; the count includes the `.`.
    pub fn from_str(txt: &str) -> (r: Result<(RegexToken, usize), CompileError>)
        ensures
            agrees(r, 0, token_at(seq!['.'] + txt@, 0)),
    {
        let mut full = ".".to_owned();
        proof {
            reveal_strlit(".");
        }
        full.append(txt);
        assert(full@ =~= seq!['.'] + txt@);
        RegexToken::from_str(full.as_str(), 0)
    }

    pub fn get_id(&self) -> (r: u32)
        ensures
            r == self@,
            r < 10,
    {
        proof {
            use_type_invariant(self);
        }
        self.id
    }

    /// The symbol as it is written in a pattern.
    pub fn to_string(&self) -> (r: String)
        ensures
            r@ == seq!['.'] + digit_text(self@),
    {
        proof {
            use_type_invariant(self);
        }
        let mut r = ".".to_owned();
        proof {
            reveal_strlit(".");
        }
        let d = digit_string(self.id);
        r.append(d.as_str());
        r
    }

    /// What this symbol does at `pos`: it takes the next character.
    pub fn extract_text(&self, name: &str, pos: usize, mode: Boundary) -> (r: Option<TextExtract>)
        requires
            pos <= name@.len(),
        ensures
            extracted(r, Sym::One(self@), name@, pos as int, mode),
    {
        if pos >= name.unicode_len() {
            return None;
        }
        let previous = String::new();
        assert(previous@ =~= name@.subrange(pos as int, pos as int));
        Some(TextExtract::new(previous, 1, Boundary::Bounded(0)))
    }
}

} // verus!
