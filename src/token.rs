//! One symbol of a pattern, of any kind, and the tokenizer that reads it.

use vstd::prelude::*;
use crate::grammar::{CaptureKind, CompileError, Sym, token_at, capture_key, render_sym, sym_ok};
use crate::align::{TextExtract, Boundary, extracted};
use crate::txt::RegexTxt;
use crate::capture::{RegexAst, RegexDot};
use crate::set::RegexSet;
use crate::anchor::{RegexPow, RegexDol};
use crate::text::{digit_of, chars_of};

verus! {

/// A symbol of a pattern. The set of kinds is closed.
pub enum RegexToken {
    Txt(RegexTxt),
    Ast(RegexAst),
    Dot(RegexDot),
    Class(RegexSet),
    Pow(RegexPow),
    Dol(RegexDol),
}

/// The executable result `r` of reading a symbol at `at` is the spec result `s`;
/// the count in `r` is the number of characters taken.
pub open spec fn agrees(
    r: Result<(RegexToken, usize), CompileError>,
    at: int,
    s: Result<(Sym, int), CompileError>,
) -> bool {
    match s {
        Ok((x, e)) => r matches Ok((tok, n)) && tok@ == x && n == e - at,
        Err(err) => r == Err::<(RegexToken, usize), CompileError>(err),
    }
}

/// The text that identifies a symbol's kind: its own text for literal text,
/// the bracketed text for a set, the control character otherwise.
pub open spec fn expr_of(x: Sym) -> Seq<char> {
    match x {
        Sym::Lit(t) => t,
        Sym::Any(_) => seq!['*'],
        Sym::One(_) => seq!['.'],
        Sym::OneOf(_, _, raw) => raw,
        Sym::Start => seq!['^'],
        Sym::End => seq!['$'],
    }
}

impl RegexToken {
    pub open spec fn view(&self) -> Sym {
        match self {
            RegexToken::Txt(t) => Sym::Lit(t@),
            RegexToken::Ast(a) => Sym::Any(a@),
            RegexToken::Dot(d) => Sym::One(d@),
            RegexToken::Class(s) => Sym::OneOf(s@.0, s@.1, s@.2),
            RegexToken::Pow(_) => Sym::Start,
            RegexToken::Dol(_) => Sym::End,
        }
    }

    /// Reads the symbol that starts at `i` of `txt` (`s` holds the characters
    /// of `txt`); the second value is the index just past it.
    pub fn parse_at(txt: &str, s: &Vec<char>, i: usize) -> (r: Result<(RegexToken, usize), CompileError>)
        requires
            s@ == txt@,
            i < s@.len(),
        ensures
            match token_at(s@, i as int) {
                Ok((x, e)) => r matches Ok((tok, e2)) && tok@ == x && e2 == e && sym_ok(x),
                Err(err) => r == Err::<(RegexToken, usize), CompileError>(err),
            },
    {
        let n = s.len();
        let c = s[i];
        if c == '*' || c == '.' {
            if i + 1 < n {
                if let Some(id) = digit_of(s[i + 1]) {
                    if c == '*' {
                        return Ok((RegexToken::Ast(RegexAst::new(id)), i + 2));
                    } else {
                        return Ok((RegexToken::Dot(RegexDot::new(id)), i + 2));
                    }
                }
                if c == '.' && s[i + 1] == '[' {
                    return match RegexSet::parse_at(txt, s, i + 1) {
                        Ok((set, e)) => Ok((RegexToken::Class(set), e)),
                        Err(err) => Err(err),
                    };
                }
            }
            Err(CompileError::MissingId)
        } else if c == '[' {
            match RegexSet::parse_at(txt, s, i) {
                Ok((set, e)) => Ok((RegexToken::Class(set), e)),
                Err(err) => Err(err),
            }
        } else if c == '^' {
            if i == 0 {
                Ok((RegexToken::Pow(RegexPow {}), i + 1))
            } else {
                Err(CompileError::MisplacedAnchor)
            }
        } else if c == '$' {
            if i == n - 1 {
                Ok((RegexToken::Dol(RegexDol {}), i + 1))
            } else {
                Err(CompileError::MisplacedAnchor)
            }
        } else {
            match RegexTxt::parse_at(txt, s, i) {
                Ok((t, e)) => Ok((RegexToken::Txt(t), e)),
                Err(err) => Err(err),
            }
        }
    }

    /// Reads the symbol that starts at `index` of the pattern text `txt`; the
    /// count is the number of characters it takes.
    pub fn from_str(txt: &str, index: usize) -> (r: Result<(RegexToken, usize), CompileError>)
        requires
            index < txt@.len(),
        ensures
            agrees(r, index as int, token_at(txt@, index as int)),
    {
        let s = chars_of(txt);
        proof {
            crate::grammar::lemma_token_advances(s@, index as int);
        }
        match RegexToken::parse_at(txt, &s, index) {
            Ok((tok, e)) => Ok((tok, e - index)),
            Err(err) => Err(err),
        }
    }

    /// The kind and id this symbol captures under, if it captures.
    pub fn key(&self) -> (r: Option<(CaptureKind, u32)>)
        ensures
            r == capture_key(self@),
            sym_ok(self@),
    {
        match self {
            RegexToken::Ast(a) => Some((CaptureKind::Any, a.get_id())),
            RegexToken::Dot(d) => Some((CaptureKind::Char, d.get_id())),
            RegexToken::Class(s) => Some((CaptureKind::Class, s.get_id())),
            _ => None,
        }
    }

    /// The capture id; 0 for a symbol that does not capture.
    pub fn get_id(&self) -> (r: u32)
        ensures
            r == (match capture_key(self@) {
                Some((_, id)) => id,
                None => 0,
            }),
    {
        match self.key() {
            Some((_, id)) => id,
            None => 0,
        }
    }

    /// The text that identifies this symbol's kind.
    pub fn get_expr(&self) -> (r: &str)
        ensures
            r@ == expr_of(self@),
    {
        proof {
            reveal_strlit("*");
            reveal_strlit(".");
            reveal_strlit("^");
            reveal_strlit("$");
        }
        match self {
            RegexToken::Txt(t) => t.get_expr(),
            RegexToken::Ast(_) => "*",
            RegexToken::Dot(_) => ".",
            RegexToken::Class(s) => s.get_expr(),
            RegexToken::Pow(_) => "^",
            RegexToken::Dol(_) => "$",
        }
    }

    /// The symbol as it is written in a pattern.
    pub fn to_string(&self) -> (r: String)
        ensures
            r@ == render_sym(self@),
    {
        proof {
            reveal_strlit("^");
            reveal_strlit("$");
        }
        match self {
            RegexToken::Txt(t) => t.to_string(),
            RegexToken::Ast(a) => a.to_string(),
            RegexToken::Dot(d) => d.to_string(),
            RegexToken::Class(s) => s.to_string(),
            RegexToken::Pow(_) => "^".to_owned(),
            RegexToken::Dol(_) => "$".to_owned(),
        }
    }

    /// Whether this is literal text with no characters.
    pub fn is_empty_text(&self) -> (r: bool)
        ensures
            r == (self@ matches Sym::Lit(t) && t.len() == 0),
    {
        match self {
            RegexToken::Txt(t) => t.chars().len() == 0,
            _ => false,
        }
    }

    /// What this symbol does at `pos` in `name` (`s` holds the characters of `name`).
    pub fn extract_text(&self, name: &str, s: &Vec<char>, pos: usize, mode: Boundary) -> (r: Option<
        TextExtract,
    >)
        requires
            s@ == name@,
            pos <= s@.len(),
        ensures
            extracted(r, self@, name@, pos as int, mode),
    {
        match self {
            RegexToken::Txt(t) => t.extract_text(name, s, pos, mode),
            RegexToken::Ast(a) => a.extract_text(name, pos, mode),
            RegexToken::Dot(d) => d.extract_text(name, pos, mode),
            RegexToken::Class(x) => x.extract_text(name, s, pos, mode),
            RegexToken::Pow(p) => p.extract_text(name, pos, mode),
            RegexToken::Dol(d) => d.extract_text(name, pos, mode),
        }
    }
}

} // verus!
