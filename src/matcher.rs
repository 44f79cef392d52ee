//! Matching a compiled pattern against a name: a single left-to-right sweep
//! that returns a fresh capture map.

use vstd::prelude::*;
use vstd::string::*;
use crate::grammar::CaptureKind;
use crate::align::{
    Boundary, Cap, MState, match_syms, run, settle, lookup, lemma_extract_bounds, lemma_run_none,
};
use crate::engine::Expression;
use crate::token::RegexToken;
use crate::text::{chars_of, slice_text};

verus! {

/// The text one symbol captured.
#[derive(Debug)]
pub struct Capture {
    pub kind: CaptureKind,
    pub id: u32,
    pub text: String,
}

/// The captures of one match, in the order they were made.
#[derive(Debug)]
pub struct Captures {
    pub entries: Vec<Capture>,
}

pub open spec fn cap_view(c: Capture) -> Cap {
    (c.kind, c.id, c.text@)
}

impl Captures {
    pub open spec fn view(&self) -> Seq<Cap> {
        self.entries@.map_values(|c: Capture| cap_view(c))
    }

    pub fn new() -> (r: Captures)
        ensures
            r@ == Seq::<Cap>::empty(),
    {
        let r = Captures { entries: Vec::new() };
        assert(r@ =~= Seq::<Cap>::empty());
        r
    }

    /// Records that the symbol of `kind` and `id` took `text`.
    pub fn push(&mut self, kind: CaptureKind, id: u32, text: String)
        ensures
            final(self)@ == old(self)@.push((kind, id, text@)),
    {
        let ghost before = self@;
        self.entries.push(Capture { kind, id, text });
        assert(self@ =~= before.push((kind, id, text@)));
    }

    /// The text captured by the symbol of `kind` and `id`.
    pub fn get(&self, kind: CaptureKind, id: u32) -> (r: Option<&str>)
        ensures
            match lookup(self@, kind, id) {
                Some(t) => r matches Some(x) && x@ == t,
                None => r is None,
            },
    {
        let n = self.entries.len();
        let mut i: usize = 0;
        assert(self@.subrange(0, n as int) =~= self@);
        while i < n
            invariant
                n == self@.len(),
                n == self.entries@.len(),
                i <= n,
                lookup(self@, kind, id) == lookup(self@.subrange(i as int, n as int), kind, id),
            decreases n - i,
        {
            let e = &self.entries[i];
            let ghost rest = self@.subrange(i as int, n as int);
            assert(rest[0] == cap_view(self.entries@[i as int]));
            if e.kind == kind && e.id == id {
                return Some(e.text.as_str());
            }
            assert(rest.drop_first() =~= self@.subrange(i + 1, n as int));
            i += 1;
        }
        None
    }
}

impl Expression {
    /// Matches the pattern against `name`: the captures, or `None` where the
    /// name does not match.
    pub fn match_name(&self, name: &str) -> (r: Option<Captures>)
        ensures
            match match_syms(self@, name@) {
                Some(cs) => r matches Some(c) && c@ == cs,
                None => r is None,
            },
    {
        let s = chars_of(name);
        let n = s.len();
        let len = self.len();
        let mut pos: usize = 0;
        let mut mode = Boundary::Bounded(0);
        let mut pending: Option<u32> = None;
        let mut caps = Captures::new();
        let mut k: usize = 0;
        while k < len
            invariant
                n == s@.len(),
                s@ == name@,
                len == self@.len(),
                k <= len,
                pos <= n,
                run(self@, name@, k as int) == Some(
                    MState { pos: pos as int, mode, pending, caps: caps@ },
                ),
            decreases len - k,
        {
            let tok = self.symbol(k);
            let ghost st = MState { pos: pos as int, mode, pending, caps: caps@ };
            proof {
                lemma_extract_bounds(tok@, name@, pos as int, mode);
            }
            match tok.extract_text(name, &s, pos, mode) {
                None => {
                    proof {
                        lemma_run_none(self@, name@, k + 1, len as int);
                    }
                    return None;
                },
                Some(ex) => {
                    let is_start = match tok {
                        RegexToken::Pow(_) => true,
                        _ => false,
                    };
                    if !is_start {
                        let inc = ex.get_inc_i();
                        let m = ex.get_offset();
                        let previous = ex.get_previous();
                        let skip = previous.as_str().unicode_len();
                        if let Some(id) = pending {
                            caps.push(CaptureKind::Any, id, previous);
                        }
                        assert(caps@ == settle(st, name@.subrange(pos as int, pos + skip)));
                        match tok {
                            RegexToken::Dot(d) => {
                                let id = d.get_id();
                                caps.push(CaptureKind::Char, id, slice_text(name, pos + skip, pos + inc));
                            },
                            RegexToken::Class(c) => {
                                let id = c.get_id();
                                caps.push(CaptureKind::Class, id, slice_text(name, pos + skip, pos + inc));
                            },
                            _ => {},
                        }
                        pending = match tok {
                            RegexToken::Ast(a) => Some(a.get_id()),
                            _ => None,
                        };
                        pos = pos + inc;
                        mode = m;
                    }
                },
            }
            k += 1;
        }
        match pending {
            Some(id) => {
                caps.push(CaptureKind::Any, id, slice_text(name, pos, n));
                Some(caps)
            },
            None => {
                if pos == n {
                    Some(caps)
                } else {
                    None
                }
            },
        }
    }

    /// The names of `names` that the pattern matches, in their order.
    pub fn match_names(&self, names: &Vec<String>) -> (r: Vec<String>)
        ensures
            r@.map_values(|s: String| s@) == names@.map_values(|s: String| s@).filter(
                |n: Seq<char>| match_syms(self@, n) is Some,
            ),
    {
        let mut ret: Vec<String> = Vec::new();
        let mut i: usize = 0;
        while i < names.len()
            invariant
                i <= names@.len(),
                ret@.map_values(|s: String| s@) == names@.subrange(0, i as int).map_values(
                    |s: String| s@,
                ).filter(|n: Seq<char>| match_syms(self@, n) is Some),
            decreases names@.len() - i,
        {
            let name = &names[i];
            let m = self.match_name(name.as_str());
            let ghost pre = names@.subrange(0, i as int).map_values(|s: String| s@);
            let ghost cur = names@.subrange(0, i + 1).map_values(|s: String| s@);
            proof {
                assert(cur =~= pre.push(name@));
                reveal(Seq::filter);
                assert(cur.drop_last() =~= pre);
            }
            if m.is_some() {
                let ghost before = ret@;
                ret.push(name.clone());
                assert(ret@.map_values(|s: String| s@) =~= before.map_values(|s: String| s@).push(name@));
            }
            i += 1;
        }
        assert(names@.subrange(0, i as int) =~= names@);
        ret
    }
}

} // verus!
