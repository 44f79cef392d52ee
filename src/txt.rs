//! Literal text.

use vstd::prelude::*;
use crate::grammar::{
    CompileError, Sym, lit_run, is_control_char, is_escapable_char, escape_text, escape_char,
};
use crate::text::{chars_of, slice_text};
use crate::align::{TextExtract, Boundary, extracted, find_text, is_within};

verus! {

/// A run of literal text, with escapes resolved.
pub struct RegexTxt {
    expr: String,
    chars: Vec<char>,
}

/// `r` with `acc` put in front of the text it holds.
pub open spec fn prefixed(acc: Seq<char>, r: Result<(Seq<char>, int), CompileError>) -> Result<
    (Seq<char>, int),
    CompileError,
> {
    match r {
        Ok((t, e)) => Ok((acc + t, e)),
        Err(x) => Err(x),
    }
}

impl RegexTxt {
    #[verifier::type_invariant]
    spec fn inv(&self) -> bool {
        self.chars@ == self.expr@
    }

    /// The literal text.
    pub closed spec fn view(&self) -> Seq<char> {
        self.expr@
    }

    /// Reads the literal run of `txt` that starts at `i` (`s` holds the
    /// characters of `txt`); the second value is the index just past it.
    pub fn parse_at(txt: &str, s: &Vec<char>, i: usize) -> (r: Result<(RegexTxt, usize), CompileError>)
        requires
            s@ == txt@,
            i <= s@.len(),
        ensures
            match lit_run(s@, i as int) {
                Ok((t, e)) => r matches Ok((tok, e2)) && tok@ == t && e2 == e,
                Err(x) => r == Err::<(RegexTxt, usize), CompileError>(x),
            },
    {
        let n = s.len();
        let mut expr = String::new();
        let mut chars: Vec<char> = Vec::new();
        let mut j: usize = i;
        while j < n && !is_control_char(s[j])
            invariant
                n == s@.len(),
                s@ == txt@,
                i <= j <= n,
                chars@ == expr@,
                lit_run(s@, i as int) == prefixed(chars@, lit_run(s@, j as int)),
            decreases n - j,
        {
            let ghost j0 = j;
            let ghost acc0 = chars@;
            let c: char;
            let w: usize;
            if s[j] == '\\' {
                if j + 1 < n && is_escapable_char(s[j + 1]) {
                    c = s[j + 1];
                    w = 2;
                } else {
                    return Err(CompileError::DanglingEscape);
                }
            } else {
                c = s[j];
                w = 1;
            }
            let piece = txt.substring_char(j + w - 1, j + w);
            assert(piece@ =~= seq![c]);
            expr.append(piece);
            chars.push(c);
            j = j + w;
            proof {
                let old_acc = acc0;
                assert(old_acc + seq![c] =~= chars@);
                assert(lit_run(s@, i as int) == prefixed(old_acc, lit_run(s@, j0 as int)));
                assert(lit_run(s@, j0 as int) == prefixed(seq![c], lit_run(s@, j as int)));
                match lit_run(s@, j as int) {
                    Ok((t, e)) => {
                        assert(old_acc + (seq![c] + t) =~= chars@ + t);
                    },
                    Err(_) => {},
                }
            }
        }
        assert(chars@ + Seq::<char>::empty() =~= chars@);
        Ok((RegexTxt { expr, chars }, j))
    }

    /// Reads the literal run at the start of `txt`; the second value is the
    /// number of characters it takes.
    pub fn from_str(txt: &str) -> (r: Result<(RegexTxt, usize), CompileError>)
        ensures
            match lit_run(txt@, 0) {
                Ok((t, e)) => r matches Ok((tok, e2)) && tok@ == t && e2 == e,
                Err(x) => r == Err::<(RegexTxt, usize), CompileError>(x),
            },
    {
        let s = chars_of(txt);
        RegexTxt::parse_at(txt, &s, 0)
    }

    /// The literal text.
    pub fn get_text(&self) -> (r: &str)
        ensures
            r@ == self@,
    {
        self.expr.as_str()
    }

    /// The literal text, which is also what identifies this symbol.
    pub fn get_expr(&self) -> (r: &str)
        ensures
            r@ == self@,
    {
        self.expr.as_str()
    }

    /// The characters of the text.
    pub fn chars(&self) -> (r: &Vec<char>)
        ensures
            r@ == self@,
    {
        proof {
            use_type_invariant(self);
        }
        &self.chars
    }

    /// The text as it is written in a pattern.
    pub fn to_string(&self) -> (r: String)
        ensures
            r@ == escape_text(self@),
    {
        proof {
            use_type_invariant(self);
        }
        let n = self.chars.len();
        let mut r = String::new();
        let mut k: usize = 0;
        while k < n
            invariant
                n == self.chars@.len(),
                self.chars@ == self.expr@,
                k <= n,
                r@ == escape_text(self.chars@.subrange(0, k as int)),
            decreases n - k,
        {
            let c = self.chars[k];
            if is_escapable_char(c) {
                let bs = "\\";
                proof {
                    reveal_strlit("\\");
                }
                r.append(bs);
            }
            let piece = slice_text(self.expr.as_str(), k, k + 1);
            r.append(piece.as_str());
            proof {
                let t = self.chars@.subrange(0, k + 1);
                assert(t.drop_last() =~= self.chars@.subrange(0, k as int));
                assert(piece@ =~= seq![c]);
                assert(r@ =~= escape_text(t.drop_last()) + escape_char(c));
            }
            k += 1;
        }
        assert(self.chars@.subrange(0, n as int) =~= self.chars@);
        r
    }

    /// What this symbol does at `pos` in `name` (`s` holds the characters of
    /// `name`): it takes the first occurrence of its text from there on, if
    /// the mode lets it skip that far.
    pub fn extract_text(&self, name: &str, s: &Vec<char>, pos: usize, mode: Boundary) -> (r: Option<
        TextExtract,
    >)
        requires
            s@ == name@,
            pos <= s@.len(),
        ensures
            extracted(r, Sym::Lit(self@), name@, pos as int, mode),
    {
        let t = self.chars();
        let n = s.len();
        proof {
            crate::align::lemma_find_lit(s@, t@, pos as int);
        }
        match find_text(s, t, pos) {
            None => None,
            Some(p) => {
                if !is_within(mode, p - pos) {
                    return None;
                }
                assert(p + t@.len() <= n);
                let previous = slice_text(name, pos, p);
                Some(TextExtract::new(previous, p + t.len() - pos, Boundary::Bounded(0)))
            },
        }
    }
}

} // verus!
