//! The matcher as mathematics: how a symbol sequence is aligned against a
//! name in one left-to-right sweep, and what it captures.

use vstd::prelude::*;
use crate::grammar::{CaptureKind, Sym};

verus! {

/// Where the next consuming symbol may begin, relative to the cursor.
#[derive(Clone, Copy, Debug, PartialEq, Eq, Structural)]
pub enum Boundary {
    /// No later than this many characters past the cursor.
    Bounded(usize),
    /// Anywhere in the rest of the name.
    Unbounded,
}

/// One capture: the kind and id of the symbol, and the text it took.
pub type Cap = (CaptureKind, u32, Seq<char>);

/// The first index from `from` on where `t` occurs in `name`.
pub open spec fn find_lit(name: Seq<char>, t: Seq<char>, from: int) -> Option<int>
    decreases name.len() + 1 - from,
{
    if from < 0 || from + t.len() > name.len() {
        None
    } else if name.subrange(from, from + t.len()) == t {
        Some(from)
    } else {
        find_lit(name, t, from + 1)
    }
}

pub proof fn lemma_find_lit(name: Seq<char>, t: Seq<char>, from: int)
    ensures
        find_lit(name, t, from) matches Some(p) ==> 0 <= from <= p && p + t.len() <= name.len()
            && name.subrange(p, p + t.len()) == t,
    decreases name.len() + 1 - from,
{
    if !(from < 0 || from + t.len() > name.len()) && name.subrange(from, from + t.len()) != t {
        lemma_find_lit(name, t, from + 1);
    }
}

/// Whether a one-character symbol accepts `c`; `None` stands for any character.
pub open spec fn accepts(class: Option<Set<char>>, c: char) -> bool {
    match class {
        Some(set) => set.contains(c),
        None => true,
    }
}

/// The first index from `from` on whose character the class accepts.
pub open spec fn find_char(name: Seq<char>, class: Option<Set<char>>, from: int) -> Option<int>
    decreases name.len() - from,
{
    if from < 0 || from >= name.len() {
        None
    } else if accepts(class, name[from]) {
        Some(from)
    } else {
        find_char(name, class, from + 1)
    }
}

pub proof fn lemma_find_char(name: Seq<char>, class: Option<Set<char>>, from: int)
    ensures
        find_char(name, class, from) matches Some(p) ==> 0 <= from <= p < name.len(),
    decreases name.len() - from,
{
    if !(from < 0 || from >= name.len()) && !accepts(class, name[from]) {
        lemma_find_char(name, class, from + 1);
    }
}

/// Whether skipping `skip` characters is allowed in this mode.
pub open spec fn within(mode: Boundary, skip: int) -> bool {
    match mode {
        Boundary::Bounded(b) => skip <= b,
        Boundary::Unbounded => true,
    }
}

/// Where a consuming symbol finds its text from `pos` on: the start and the
/// end of the text it takes. Zero-width symbols locate nothing.
pub open spec fn locate(x: Sym, name: Seq<char>, pos: int, mode: Boundary) -> Option<(int, int)> {
    let found = match x {
        Sym::Lit(t) => match find_lit(name, t, pos) {
            Some(p) => Some((p, p + t.len())),
            None => None,
        },
        Sym::One(_) => match find_char(name, None, pos) {
            Some(p) => Some((p, p + 1)),
            None => None,
        },
        Sym::OneOf(_, set, _) => match find_char(name, Some(set), pos) {
            Some(p) => Some((p, p + 1)),
            None => None,
        },
        _ => None,
    };
    match found {
        Some((p, e)) => if within(mode, p - pos) {
            Some((p, e))
        } else {
            None
        },
        None => None,
    }
}

/// A symbol that succeeds skips and takes text inside the rest of the name.
pub proof fn lemma_extract_bounds(x: Sym, name: Seq<char>, pos: int, mode: Boundary)
    requires
        0 <= pos <= name.len(),
    ensures
        extract(x, name, pos, mode) matches Some((p, e, m)) ==> pos <= p <= e <= name.len(),
{
    match x {
        Sym::Lit(t) => lemma_find_lit(name, t, pos),
        Sym::One(_) => lemma_find_char(name, None, pos),
        Sym::OneOf(_, set, _) => lemma_find_char(name, Some(set), pos),
        _ => {},
    }
}

/// The matcher's state between two symbols.
pub struct MState {
    /// The cursor into the name.
    pub pos: int,
    pub mode: Boundary,
    /// The id of a `*` symbol that owns the text the next symbol skips.
    pub pending: Option<u32>,
    pub caps: Seq<Cap>,
}

pub open spec fn initial() -> MState {
    MState { pos: 0, mode: Boundary::Bounded(0), pending: None, caps: Seq::empty() }
}

/// The captures once the pending `*` symbol, if any, has taken `skipped`.
pub open spec fn settle(st: MState, skipped: Seq<char>) -> Seq<Cap> {
    match st.pending {
        Some(id) => st.caps.push((CaptureKind::Any, id, skipped)),
        None => st.caps,
    }
}

/// The captures with what `x` itself took, where `x` is a one-character symbol.
pub open spec fn own(x: Sym, caps: Seq<Cap>, taken: Seq<char>) -> Seq<Cap> {
    match x {
        Sym::One(id) => caps.push((CaptureKind::Char, id, taken)),
        Sym::OneOf(id, _, _) => caps.push((CaptureKind::Class, id, taken)),
        _ => caps,
    }
}

/// What symbol `x` does at the cursor `pos`: the end of the text it skips,
/// the cursor after it and the new mode; `None` where it fails.
pub open spec fn extract(x: Sym, name: Seq<char>, pos: int, mode: Boundary) -> Option<
    (int, int, Boundary),
> {
    match x {
        Sym::Start => if pos == 0 {
            Some((pos, pos, mode))
        } else {
            None
        },
        Sym::End => if pos == name.len() {
            Some((pos, pos, Boundary::Bounded(0)))
        } else {
            None
        },
        Sym::Any(_) => Some((pos, pos, Boundary::Unbounded)),
        _ => match locate(x, name, pos, mode) {
            Some((p, e)) => Some((p, e, Boundary::Bounded(0))),
            None => None,
        },
    }
}

/// The state after symbol `x`, or `None` where `x` fails. The text that `x`
/// skips goes to the pending `*` symbol; a `*` symbol becomes pending itself.
pub open spec fn step(st: MState, x: Sym, name: Seq<char>) -> Option<MState> {
    match extract(x, name, st.pos, st.mode) {
        None => None,
        Some((p, e, m)) => if x is Start {
            Some(st)
        } else {
            Some(
                MState {
                    pos: e,
                    mode: m,
                    pending: match x {
                        Sym::Any(id) => Some(id),
                        _ => None,
                    },
                    caps: own(x, settle(st, name.subrange(st.pos, p)), name.subrange(p, e)),
                },
            )
        },
    }
}

/// The state after the first `k` symbols of `p`.
pub open spec fn run(p: Seq<Sym>, name: Seq<char>, k: int) -> Option<MState>
    decreases k,
{
    if k <= 0 {
        Some(initial())
    } else {
        match run(p, name, k - 1) {
            Some(st) => step(st, p[k - 1], name),
            None => None,
        }
    }
}

/// Once a symbol fails, the match fails.
pub proof fn lemma_run_none(p: Seq<Sym>, name: Seq<char>, k: int, j: int)
    requires
        0 <= k <= j,
        run(p, name, k) is None,
    ensures
        run(p, name, j) is None,
    decreases j - k,
{
    if k < j {
        lemma_run_none(p, name, k, j - 1);
    }
}

/// The captures once every symbol has been read: a pending `*` symbol takes
/// the rest of the name; otherwise the whole name must have been consumed.
pub open spec fn finish(st: MState, name: Seq<char>) -> Option<Seq<Cap>> {
    match st.pending {
        Some(id) => Some(
            st.caps.push((CaptureKind::Any, id, name.subrange(st.pos, name.len() as int))),
        ),
        None => if st.pos == name.len() {
            Some(st.caps)
        } else {
            None
        },
    }
}

/// Matching the symbols `p` against `name`: the capture map, or `None`.
pub open spec fn match_syms(p: Seq<Sym>, name: Seq<char>) -> Option<Seq<Cap>> {
    match run(p, name, p.len() as int) {
        Some(st) => finish(st, name),
        None => None,
    }
}

/// The text captured under `kind` and `id`: the first such capture.
pub open spec fn lookup(caps: Seq<Cap>, kind: CaptureKind, id: u32) -> Option<Seq<char>>
    decreases caps.len(),
{
    if caps.len() == 0 {
        None
    } else if caps[0].0 == kind && caps[0].1 == id {
        Some(caps[0].2)
    } else {
        lookup(caps.drop_first(), kind, id)
    }
}

} // verus!

verus! {

/// What one symbol did at the cursor: the text it skipped, how far the
/// cursor moves, and the mode for the next symbol.
pub struct TextExtract {
    previous: String,
    inc_i: usize,
    offset: Boundary,
}

impl TextExtract {
    pub closed spec fn view(&self) -> (Seq<char>, usize, Boundary) {
        (self.previous@, self.inc_i, self.offset)
    }

    pub fn new(previous: String, inc_i: usize, offset: Boundary) -> (r: TextExtract)
        ensures
            r@ == (previous@, inc_i, offset),
    {
        TextExtract { previous, inc_i, offset }
    }

    /// The text skipped before the symbol's own text.
    pub fn get_previous(self) -> (r: String)
        ensures
            r@ == self@.0,
    {
        self.previous
    }

    /// How many characters the cursor moves, skipped text included.
    pub fn get_inc_i(&self) -> (r: usize)
        ensures
            r == self@.1,
    {
        self.inc_i
    }

    /// The mode for the next symbol.
    pub fn get_offset(&self) -> (r: Boundary)
        ensures
            r == self@.2,
    {
        self.offset
    }
}

/// `r` is what symbol `x` does at `pos` in `name`.
pub open spec fn extracted(
    r: Option<TextExtract>,
    x: Sym,
    name: Seq<char>,
    pos: int,
    mode: Boundary,
) -> bool {
    match extract(x, name, pos, mode) {
        None => r is None,
        Some((p, e, m)) => r matches Some(ex) && ex@ == (name.subrange(pos, p), (e - pos) as usize, m),
    }
}

pub fn is_within(mode: Boundary, skip: usize) -> (r: bool)
    ensures
        r == within(mode, skip as int),
{
    match mode {
        Boundary::Bounded(b) => skip <= b,
        Boundary::Unbounded => true,
    }
}

/// Whether `t` occurs in `name` at `p`.
pub fn occurs_at(name: &Vec<char>, t: &Vec<char>, p: usize) -> (r: bool)
    ensures
        r == (p + t@.len() <= name@.len() && name@.subrange(p as int, p + t@.len()) == t@),
{
    if p > name.len() || t.len() > name.len() - p {
        return false;
    }
    let mut k: usize = 0;
    while k < t.len()
        invariant
            p + t@.len() <= name@.len(),
            name@.len() <= usize::MAX,
            k <= t@.len(),
            name@.subrange(p as int, p + k) == t@.subrange(0, k as int),
        decreases t@.len() - k,
    {
        if name[p + k] != t[k] {
            assert(name@.subrange(p as int, p + t@.len())[k as int] != t@[k as int]);
            return false;
        }
        assert(name@.subrange(p as int, p + k + 1) =~= t@.subrange(0, k + 1));
        k += 1;
    }
    assert(t@.subrange(0, k as int) =~= t@);
    true
}

/// The first index from `from` on where `t` occurs in `name`.
pub fn find_text(name: &Vec<char>, t: &Vec<char>, from: usize) -> (r: Option<usize>)
    requires
        from <= name@.len(),
    ensures
        match find_lit(name@, t@, from as int) {
            Some(p) => r == Some(p as usize),
            None => r is None,
        },
        r matches Some(p) ==> from <= p && p + t@.len() <= name@.len(),
{
    proof {
        lemma_find_lit(name@, t@, from as int);
    }
    let mut p: usize = from;
    while p <= name.len()
        invariant
            from <= p,
            find_lit(name@, t@, from as int) == find_lit(name@, t@, p as int),
        decreases name@.len() + 1 - p,
    {
        if t.len() > name.len() - p {
            return None;
        }
        if occurs_at(name, t, p) {
            return Some(p);
        }
        assert(t@.len() > 0) by {
            if t@.len() == 0 {
                assert(name@.subrange(p as int, p as int) =~= t@);
            }
        }
        p += 1;
    }
    None
}

} // verus!
