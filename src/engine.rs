//! The compiled pattern: built symbol by symbol, checked as it grows, and
//! rendered back to canonical pattern text.

use vstd::prelude::*;
use crate::grammar::{
    CaptureKind, CompileError, Sym, append_error, capture_key, has_key, pattern_ok, compile, compile_from, render, lemma_append_ok, lemma_token_advances, lemma_lit_run_bounds,
};
use crate::token::RegexToken;
use crate::text::chars_of;

verus! {

/// A compiled pattern: an ordered sequence of symbols that never changes
/// once compiled.
pub struct Expression {
    expression: Vec<RegexToken>,
}

impl Expression {
    /// The pattern invariant holds of the symbols.
    pub open spec fn wf(&self) -> bool {
        pattern_ok(self@)
    }

    /// The symbols of the pattern.
    pub closed spec fn view(&self) -> Seq<Sym> {
        self.expression@.map_values(|t: RegexToken| t@)
    }

    /// The pattern with no symbols, which matches only the empty name.
    pub fn new() -> (r: Expression)
        ensures
            r@ == Seq::<Sym>::empty(),
            r.wf(),
    {
        let r = Expression { expression: Vec::new() };
        assert(r@ =~= Seq::<Sym>::empty());
        r
    }

    /// The number of symbols.
    pub fn len(&self) -> (r: usize)
        ensures
            r == self@.len(),
    {
        self.expression.len()
    }

    /// The symbol at index `k`.
    pub fn symbol(&self, k: usize) -> (r: &RegexToken)
        requires
            k < self@.len(),
        ensures
            r@ == self@[k as int],
    {
        &self.expression[k]
    }

    /// Whether no symbol of the pattern captures under `key`.
    fn unique_id(&self, key: (CaptureKind, u32)) -> (r: bool)
        ensures
            r == !has_key(self@, key),
    {
        let mut j: usize = 0;
        while j < self.expression.len()
            invariant
                j <= self@.len(),
                self@.len() == self.expression@.len(),
                forall|i: int| 0 <= i < j ==> capture_key(#[trigger] self@[i]) != Some(key),
            decreases self@.len() - j,
        {
            let k = self.expression[j].key();
            assert(self@[j as int] == self.expression@[j as int]@);
            if let Some(k2) = k {
                if k2.0 == key.0 && k2.1 == key.1 {
                    assert(capture_key(self@[j as int]) == Some(key));
                    return false;
                }
            }
            j += 1;
        }
        true
    }

    /// Appends a symbol, or reports the rule it breaks: `^` after another
    /// symbol or anything after `$` (MisplacedAnchor), a kind and id already
    /// used (DuplicateId), a `*` right after a `*` (AmbiguousCapture).
    /// Literal text with no characters is accepted and left out.
    pub fn add_token(&mut self, token: RegexToken) -> (r: Result<(), CompileError>)
        requires
            old(self).wf(),
        ensures
            final(self).wf(),
            match append_error(old(self)@, token@) {
                Some(err) => r == Err::<(), CompileError>(err) && final(self)@ == old(self)@,
                None => r is Ok && final(self)@ == (if token@ matches Sym::Lit(t) && t.len() == 0 {
                    old(self)@
                } else {
                    old(self)@.push(token@)
                }),
            },
    {
        let n = self.expression.len();
        let key = token.key();
        let is_start = match token {
            RegexToken::Pow(_) => true,
            _ => false,
        };
        if is_start && n > 0 {
            return Err(CompileError::MisplacedAnchor);
        }
        if n > 0 {
            let last_is_end = match self.expression[n - 1] {
                RegexToken::Dol(_) => true,
                _ => false,
            };
            assert(self@.last() == self.expression@[n - 1]@);
            if last_is_end {
                return Err(CompileError::MisplacedAnchor);
            }
        }
        if let Some(k) = key {
            if !self.unique_id(k) {
                return Err(CompileError::DuplicateId);
            }
        }
        if n > 0 {
            let both_any = match (&token, &self.expression[n - 1]) {
                (RegexToken::Ast(_), RegexToken::Ast(_)) => true,
                _ => false,
            };
            if both_any {
                return Err(CompileError::AmbiguousCapture);
            }
        }
        if token.is_empty_text() {
            return Ok(());
        }
        proof {
            lemma_append_ok(self@, token@);
        }
        let ghost before = self@;
        self.expression.push(token);
        assert(self@ =~= before.push(token@));
        Ok(())
    }

    /// Compiles a pattern string, or reports the first error met from the left.
    pub fn from_str(txt: &str) -> (r: Result<Expression, CompileError>)
        ensures
            match compile(txt@) {
                Ok(p) => r matches Ok(e) && e@ == p && e.wf(),
                Err(err) => r matches Err(e2) && e2 == err,
            },
    {
        let s = chars_of(txt);
        let n = s.len();
        let mut ret = Expression::new();
        let mut i: usize = 0;
        while i < n
            invariant
                n == s@.len(),
                s@ == txt@,
                i <= n,
                ret.wf(),
                compile(s@) == compile_from(s@, i as int, ret@),
            decreases n - i,
        {
            proof {
                lemma_token_advances(s@, i as int);
                lemma_lit_run_bounds(s@, i as int);
            }
            match RegexToken::parse_at(txt, &s, i) {
                Err(err) => {
                    return Err(err);
                },
                Ok((tok, e)) => {
                    let ghost x = tok@;
                    match ret.add_token(tok) {
                        Err(err) => {
                            return Err(err);
                        },
                        Ok(()) => {},
                    }
                    i = e;
                },
            }
        }
        Ok(ret)
    }

    /// The pattern in canonical pattern text, which compiles back to the
    /// same symbols.
    pub fn to_string(&self) -> (r: String)
        ensures
            r@ == render(self@),
    {
        let mut r = String::new();
        let mut k: usize = 0;
        while k < self.expression.len()
            invariant
                k <= self@.len(),
                self@.len() == self.expression@.len(),
                r@ == render(self@.subrange(0, k as int)),
            decreases self@.len() - k,
        {
            let piece = self.expression[k].to_string();
            r.append(piece.as_str());
            proof {
                let q = self@.subrange(0, k + 1);
                assert(q.drop_last() =~= self@.subrange(0, k as int));
                assert(q.last() == self.expression@[k as int]@);
            }
            k += 1;
        }
        assert(self@.subrange(0, k as int) =~= self@);
        r
    }
}

} // verus!
