//! Character sets: `[chars]id` takes one character of the set.

use vstd::prelude::*;
use crate::grammar::{CompileError, Sym, set_body, set_at, token_at};
use crate::align::{TextExtract, Boundary, extracted, find_char, is_within};
use crate::text::{digit_of, digit_text, digit_string, slice_text};
use crate::token::{RegexToken, agrees};

verus! {

pub open spec fn strictly_sorted(v: Seq<char>) -> bool {
    forall|i: int, j: int| 0 <= i < j < v.len() ==> v[i] < v[j]
}

/// `r` with `acc` put in front of the characters it holds.
pub open spec fn body_prefixed(acc: Seq<char>, r: Option<(Seq<char>, int)>) -> Option<(Seq<char>, int)> {
    match r {
        Some((cs, e)) => Some((acc + cs, e)),
        None => None,
    }
}

/// Inserts `c` into the strictly sorted `v`, unless it is there already.
fn insert_sorted(v: &mut Vec<char>, c: char)
    requires
        strictly_sorted(old(v)@),
    ensures
        strictly_sorted(final(v)@),
        final(v)@.to_set() == old(v)@.to_set().insert(c),
{
    let mut k: usize = 0;
    while k < v.len() && v[k] < c
        invariant
            k <= v@.len(),
            forall|i: int| 0 <= i < k ==> v@[i] < c,
        decreases v@.len() - k,
    {
        k += 1;
    }
    if k < v.len() && v[k] == c {
        assert(v@.to_set() =~= v@.to_set().insert(c)) by {
            assert(v@.contains(c)) by {
                assert(v@[k as int] == c);
            }
        }
        return;
    }
    let ghost before = v@;
    v.insert(k, c);
    assert(v@.to_set() =~= before.to_set().insert(c)) by {
        assert forall|a: char| #[trigger] v@.contains(a) <==> before.contains(a) || a == c by {
            if v@.contains(a) {
                let i = choose|i: int| 0 <= i < v@.len() && v@[i] == a;
                if i < k {
                    assert(before[i] == a);
                } else if i > k {
                    assert(before[i - 1] == a);
                }
            }
            if before.contains(a) {
                let i = choose|i: int| 0 <= i < before.len() && before[i] == a;
                if i < k {
                    assert(v@[i] == a);
                } else {
                    assert(v@[i + 1] == a);
                }
            }
            if a == c {
                assert(v@[k as int] == c);
            }
        }
    }
}

/// One character out of an explicit set.
pub struct RegexSet {
    id: u32,
    chars: Vec<char>,
    expr: String,
}

impl RegexSet {
    #[verifier::type_invariant]
    spec fn inv(&self) -> bool {
        self.id < 10 && strictly_sorted(self.chars@)
    }

    /// The id, the characters of the set, and the bracketed text it was written as.
    pub closed spec fn view(&self) -> (u32, Set<char>, Seq<char>) {
        (self.id, self.chars@.to_set(), self.expr@)
    }

    /// Reads the set whose `[` stands at `o` in `txt` (`s` holds the
    /// characters of `txt`); the second value is the index just past its id.
    pub fn parse_at(txt: &str, s: &Vec<char>, o: usize) -> (r: Result<(RegexSet, usize), CompileError>)
        requires
            s@ == txt@,
            o < s@.len(),
        ensures
            match set_at(s@, o as int) {
                Ok((x, e)) => r matches Ok((set, e2)) && x == Sym::OneOf(set@.0, set@.1, set@.2)
                    && e2 == e && set@.0 < 10,
                Err(err) => r == Err::<(RegexSet, usize), CompileError>(err),
            },
    {
        let n = s.len();
        let mut chars: Vec<char> = Vec::new();
        let ghost mut acc: Seq<char> = Seq::empty();
        let mut j: usize = o + 1;
        assert(acc + Seq::<char>::empty() =~= acc);
        while j < n && s[j] != ']'
            invariant
                n == s@.len(),
                s@ == txt@,
                o < j,
                strictly_sorted(chars@),
                chars@.to_set() == acc.to_set(),
                set_body(s@, o + 1) == body_prefixed(acc, set_body(s@, j as int)),
            decreases n - j,
        {
            let ghost j0 = j;
            let ghost acc0 = acc;
            let c: char;
            let w: usize;
            if s[j] == '\\' {
                if j + 1 < n {
                    c = s[j + 1];
                    w = 2;
                } else {
                    return Err(CompileError::UnterminatedCharSet);
                }
            } else {
                c = s[j];
                w = 1;
            }
            insert_sorted(&mut chars, c);
            j = j + w;
            proof {
                acc = acc0.push(c);
                assert(acc.to_set() =~= acc0.to_set().insert(c)) by {
                    assert forall|a: char| #[trigger] acc.contains(a) <==> acc0.contains(a) || a == c by {
                        if acc.contains(a) {
                            let i = choose|i: int| 0 <= i < acc.len() && acc[i] == a;
                            if i < acc0.len() {
                                assert(acc0[i] == a);
                            }
                        }
                        if acc0.contains(a) {
                            let i = choose|i: int| 0 <= i < acc0.len() && acc0[i] == a;
                            assert(acc[i] == a);
                        }
                        if a == c {
                            assert(acc[acc0.len() as int] == c);
                        }
                    }
                }
                assert(set_body(s@, j0 as int) == body_prefixed(seq![c], set_body(s@, j as int)));
                match set_body(s@, j as int) {
                    Some((cs, e)) => {
                        assert(acc0 + (seq![c] + cs) =~= acc + cs);
                    },
                    None => {},
                }
            }
        }
        if j >= n {
            return Err(CompileError::UnterminatedCharSet);
        }
        if j + 1 >= n {
            return Err(CompileError::MissingId);
        }
        match digit_of(s[j + 1]) {
            Some(id) => {
                let expr = slice_text(txt, o, j + 1);
                let set = RegexSet { id, chars, expr };
                assert(set@.2 == s@.subrange(o as int, j + 1));
                Ok((set, j + 2))
            },
            None => Err(CompileError::MissingId),
        }
    }

    /// Reads a set from the text that follows its `[`: the characters up to
    /// the first unescaped `]`, then a digit id; the count includes the `[`.
    pub fn from_str(txt: &str) -> (r: Result<(RegexToken, usize), CompileError>)
        ensures
            agrees(r, 0, token_at(seq!['['] + txt@, 0)),
    {
        let mut full = "[".to_owned();
        proof {
            reveal_strlit("[");
        }
        full.append(txt);
        assert(full@ =~= seq!['['] + txt@);
        RegexToken::from_str(full.as_str(), 0)
    }

    pub fn get_id(&self) -> (r: u32)
        ensures
            r == self@.0,
            r < 10,
    {
        proof {
            use_type_invariant(self);
        }
        self.id
    }

    /// The bracketed text the set was written as.
    pub fn get_expr(&self) -> (r: &str)
        ensures
            r@ == self@.2,
    {
        self.expr.as_str()
    }

    /// The set as it is written in a pattern.
    pub fn to_string(&self) -> (r: String)
        ensures
            r@ == self@.2 + digit_text(self@.0),
    {
        proof {
            use_type_invariant(self);
        }
        let mut r = self.expr.clone();
        let d = digit_string(self.id);
        r.append(d.as_str());
        r
    }

    /// Whether `c` belongs to the set (a binary search).
    pub fn contains(&self, c: char) -> (r: bool)
        ensures
            r == self@.1.contains(c),
    {
        proof {
            use_type_invariant(self);
        }
        let v = &self.chars;
        let mut lo: usize = 0;
        let mut hi: usize = v.len();
        while lo < hi
            invariant
                v@ == self.chars@,
                strictly_sorted(v@),
                lo <= hi <= v@.len(),
                forall|i: int| 0 <= i < lo ==> v@[i] < c,
                forall|i: int| hi <= i < v@.len() ==> c < v@[i],
            decreases hi - lo,
        {
            let mid = lo + (hi - lo) / 2;
            if v[mid] == c {
                assert(v@.contains(c));
                return true;
            } else if v[mid] < c {
                lo = mid + 1;
            } else {
                hi = mid;
            }
        }
        assert(!v@.contains(c));
        false
    }

    /// What this symbol does at `pos` in `name` (`s` holds the characters of
    /// `name`): it takes the first character of the set from there on, if the
    /// mode lets it skip that far.
    pub fn extract_text(&self, name: &str, s: &Vec<char>, pos: usize, mode: Boundary) -> (r: Option<
        TextExtract,
    >)
        requires
            s@ == name@,
            pos <= s@.len(),
        ensures
            extracted(r, Sym::OneOf(self@.0, self@.1, self@.2), name@, pos as int, mode),
    {
        let ghost x = Sym::OneOf(self@.0, self@.1, self@.2);
        let n = s.len();
        let mut p: usize = pos;
        while p < n && !self.contains(s[p])
            invariant
                n == s@.len(),
                pos <= p <= n,
                find_char(s@, Some(self@.1), pos as int) == find_char(s@, Some(self@.1), p as int),
            decreases n - p,
        {
            p += 1;
        }
        if p >= n {
            return None;
        }
        if !is_within(mode, p - pos) {
            return None;
        }
        let previous = slice_text(name, pos, p);
        Some(TextExtract::new(previous, p + 1 - pos, Boundary::Bounded(0)))
    }
}

} // verus!
