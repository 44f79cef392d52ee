//! Projection: building a new name from a target pattern and the captures
//! that matching a source pattern made.

use vstd::prelude::*;
use crate::grammar::{CaptureKind, Sym, capture_key};
use crate::align::{Cap, lookup, match_syms};
use crate::engine::Expression;
use crate::matcher::Captures;
use crate::token::RegexToken;

verus! {

/// Why a batch cannot be projected.
#[derive(Clone, Copy, Debug, PartialEq, Eq, Structural)]
pub enum ProjectionError {
    /// The target refers to a kind and id that the source never captured.
    UnknownCapture,
}

/// The text one target symbol contributes: literal text itself, nothing for
/// an anchor, the source capture of the same kind and id for a capturing
/// symbol; `None` where there is no such capture.
pub open spec fn piece(caps: Seq<Cap>, x: Sym) -> Option<Seq<char>> {
    match x {
        Sym::Lit(t) => Some(t),
        Sym::Start => Some(Seq::empty()),
        Sym::End => Some(Seq::empty()),
        _ => match capture_key(x) {
            Some((k, id)) => lookup(caps, k, id),
            None => None,
        },
    }
}

/// The name that the target symbols `t` build from the captures `caps`.
pub open spec fn project(caps: Seq<Cap>, t: Seq<Sym>) -> Option<Seq<char>>
    decreases t.len(),
{
    if t.len() == 0 {
        Some(Seq::empty())
    } else {
        match project(caps, t.drop_last()) {
            Some(pre) => match piece(caps, t.last()) {
                Some(x) => Some(pre + x),
                None => None,
            },
            None => None,
        }
    }
}

/// The (old, new) pairs of a batch: each name that the source matches, in
/// order, with the name the target builds from its captures; `None` where
/// one of them cannot be built.
pub open spec fn batch(src: Seq<Sym>, target: Seq<Sym>, names: Seq<Seq<char>>) -> Option<
    Seq<(Seq<char>, Seq<char>)>,
>
    decreases names.len(),
{
    if names.len() == 0 {
        Some(Seq::empty())
    } else {
        match batch(src, target, names.drop_last()) {
            None => None,
            Some(acc) => match match_syms(src, names.last()) {
                None => Some(acc),
                Some(caps) => match project(caps, target) {
                    None => None,
                    Some(new_name) => Some(acc.push((names.last(), new_name))),
                },
            },
        }
    }
}

pub open spec fn names_view(v: Seq<String>) -> Seq<Seq<char>> {
    v.map_values(|s: String| s@)
}

pub open spec fn pairs_view(v: Seq<(String, String)>) -> Seq<(Seq<char>, Seq<char>)> {
    v.map_values(|p: (String, String)| (p.0@, p.1@))
}

pub proof fn lemma_project_none(caps: Seq<Cap>, t: Seq<Sym>, k: int)
    requires
        0 <= k <= t.len(),
        project(caps, t.subrange(0, k)) is None,
    ensures
        project(caps, t) is None,
    decreases t.len() - k,
{
    if k < t.len() {
        let q = t.subrange(0, k + 1);
        assert(q.drop_last() =~= t.subrange(0, k));
        lemma_project_none(caps, t, k + 1);
    } else {
        assert(t.subrange(0, k) =~= t);
    }
}

pub proof fn lemma_batch_none(src: Seq<Sym>, target: Seq<Sym>, names: Seq<Seq<char>>, k: int)
    requires
        0 <= k <= names.len(),
        batch(src, target, names.subrange(0, k)) is None,
    ensures
        batch(src, target, names) is None,
    decreases names.len() - k,
{
    if k < names.len() {
        let q = names.subrange(0, k + 1);
        assert(q.drop_last() =~= names.subrange(0, k));
        lemma_batch_none(src, target, names, k + 1);
    } else {
        assert(names.subrange(0, k) =~= names);
    }
}

impl Expression {
    /// Builds a new name with this pattern as the target: literal text as it
    /// stands, each capturing symbol replaced by the source capture of the
    /// same kind and id. A capture the source never made is an error.
    pub fn gen_name(&self, captures: &Captures) -> (r: Result<String, ProjectionError>)
        ensures
            match project(captures@, self@) {
                Some(t) => r matches Ok(s) && s@ == t,
                None => r == Err::<String, ProjectionError>(ProjectionError::UnknownCapture),
            },
    {
        let len = self.len();
        let mut ret = String::new();
        let mut k: usize = 0;
        while k < len
            invariant
                len == self@.len(),
                k <= len,
                project(captures@, self@.subrange(0, k as int)) == Some(ret@),
            decreases len - k,
        {
            let tok = self.symbol(k);
            proof {
                let q = self@.subrange(0, k + 1);
                assert(q.drop_last() =~= self@.subrange(0, k as int));
                assert(q.last() == self@[k as int]);
            }
            match tok {
                RegexToken::Txt(t) => {
                    ret.append(t.get_text());
                },
                RegexToken::Pow(_) => {
                    assert(ret@ + Seq::<char>::empty() =~= ret@);
                },
                RegexToken::Dol(_) => {
                    assert(ret@ + Seq::<char>::empty() =~= ret@);
                },
                _ => {
                    let (kind, id) = match tok.key() {
                        Some(key) => key,
                        None => (CaptureKind::Any, 0),
                    };
                    match captures.get(kind, id) {
                        Some(text) => {
                            ret.append(text);
                        },
                        None => {
                            proof {
                                lemma_project_none(captures@, self@, k + 1);
                            }
                            return Err(ProjectionError::UnknownCapture);
                        },
                    }
                },
            }
            k += 1;
        }
        assert(self@.subrange(0, len as int) =~= self@);
        Ok(ret)
    }

    /// Matches every name against this source pattern and builds the new
    /// name of each match with `target`: the (old, new) pairs in the order
    /// of `names`. One capture the source never made aborts the whole batch.
    pub fn match_new_names(&self, names: &Vec<String>, target: &Expression) -> (r: Result<
        Vec<(String, String)>,
        ProjectionError,
    >)
        ensures
            match batch(self@, target@, names_view(names@)) {
                Some(pairs) => r matches Ok(v) && pairs_view(v@) == pairs,
                None => r == Err::<Vec<(String, String)>, ProjectionError>(
                    ProjectionError::UnknownCapture,
                ),
            },
    {
        let mut ret: Vec<(String, String)> = Vec::new();
        let mut i: usize = 0;
        assert(pairs_view(ret@) =~= Seq::<(Seq<char>, Seq<char>)>::empty());
        while i < names.len()
            invariant
                i <= names@.len(),
                batch(self@, target@, names_view(names@.subrange(0, i as int))) == Some(
                    pairs_view(ret@),
                ),
            decreases names@.len() - i,
        {
            let name = &names[i];
            let ghost pre = names_view(names@.subrange(0, i as int));
            let ghost cur = names_view(names@.subrange(0, i + 1));
            proof {
                assert(cur.drop_last() =~= pre);
                assert(cur.last() == name@);
            }
            match self.match_name(name.as_str()) {
                None => {},
                Some(caps) => {
                    match target.gen_name(&caps) {
                        Ok(new_name) => {
                            let ghost before = ret@;
                            ret.push((name.clone(), new_name));
                            assert(pairs_view(ret@) =~= pairs_view(before).push((name@, new_name@)));
                        },
                        Err(e) => {
                            proof {
                                lemma_batch_none(self@, target@, names_view(names@), i + 1);
                                assert(names_view(names@).subrange(0, i + 1) =~= cur);
                            }
                            return Err(e);
                        },
                    }
                },
            }
            i += 1;
        }
        assert(names@.subrange(0, i as int) =~= names@);
        Ok(ret)
    }
}

} // verus!
