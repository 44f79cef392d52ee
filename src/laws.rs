//! Laws of the pattern language, stated over the mathematical model and
//! proved from the definitions that the executable code is verified against.

use vstd::prelude::*;
use crate::grammar::{
    Sym, CaptureKind, CompileError, has_key, compile, compile_from, token_at, append_error, pattern_ok, sym_ok, lit_run, set_at, set_body, lemma_append_ok, lemma_token_advances, lemma_lit_run_bounds, lemma_set_body_bounds, is_control,
};
use crate::align::{Boundary, MState, run, match_syms, find_lit, lemma_find_lit};
use crate::text::{is_digit, digit_value, digit_text};

verus! {

pub open spec fn all_literal(p: Seq<Sym>) -> bool {
    forall|i: int| 0 <= i < p.len() ==> #[trigger] p[i] is Lit
}

/// The text of a pattern made of literal text alone.
pub open spec fn literal_text(p: Seq<Sym>) -> Seq<char>
    decreases p.len(),
{
    if p.len() == 0 {
        Seq::empty()
    } else {
        literal_text(p.drop_last()) + match p.last() {
            Sym::Lit(t) => t,
            _ => Seq::empty(),
        }
    }
}

proof fn lemma_find_lit_here(name: Seq<char>, t: Seq<char>, from: int)
    requires
        0 <= from,
    ensures
        (find_lit(name, t, from) == Some(from)) <==> (from + t.len() <= name.len()
            && name.subrange(from, from + t.len()) == t),
{
    lemma_find_lit(name, t, from);
    if from + t.len() <= name.len() && name.subrange(from, from + t.len()) != t {
        lemma_find_lit(name, t, from + 1);
    }
}

/// Matching the first `k` symbols of a literal-only pattern: the name must
/// start with their text, and the cursor then stands just past it.
proof fn lemma_literal_run(p: Seq<Sym>, name: Seq<char>, k: int)
    requires
        all_literal(p),
        0 <= k <= p.len(),
    ensures
        ({
            let lt = literal_text(p.subrange(0, k));
            run(p, name, k) == if lt.len() <= name.len() && name.subrange(0, lt.len() as int)
                == lt {
                Some(
                    MState {
                        pos: lt.len() as int,
                        mode: Boundary::Bounded(0),
                        pending: None,
                        caps: Seq::empty(),
                    },
                )
            } else {
                None::<MState>
            }
        }),
    decreases k,
{
    if k == 0 {
        assert(literal_text(p.subrange(0, 0)) =~= Seq::<char>::empty());
        assert(name.subrange(0, 0) =~= Seq::<char>::empty());
    } else {
        lemma_literal_run(p, name, k - 1);
        let q = p.subrange(0, k);
        assert(q.drop_last() =~= p.subrange(0, k - 1));
        assert(q.last() == p[k - 1]);
        let prev = literal_text(p.subrange(0, k - 1));
        let t = p[k - 1]->Lit_0;
        assert(p[k - 1] is Lit);
        let lt = literal_text(q);
        assert(lt == prev + t);
        let l = prev.len() as int;
        if prev.len() <= name.len() && name.subrange(0, l) == prev {
            lemma_find_lit_here(name, t, l);
            lemma_find_lit(name, t, l);
            if lt.len() <= name.len() && name.subrange(0, lt.len() as int) == lt {
                assert(name.subrange(l, l + t.len()) =~= lt.subrange(l, l + t.len()));
                assert(lt.subrange(l, l + t.len()) =~= t);
            } else {
                if l + t.len() <= name.len() && name.subrange(l, l + t.len()) == t {
                    assert(name.subrange(0, lt.len() as int) =~= prev + t);
                }
            }
        } else {
            if lt.len() <= name.len() && name.subrange(0, lt.len() as int) == lt {
                assert(name.subrange(0, l) =~= lt.subrange(0, l));
                assert(lt.subrange(0, l) =~= prev);
            }
        }
    }
}

/// A pattern made of literal text alone matches a name exactly when the
/// name is that text.
pub proof fn lemma_literal_only_match(p: Seq<Sym>, name: Seq<char>)
    requires
        all_literal(p),
    ensures
        match_syms(p, name) is Some <==> name == literal_text(p),
{
    lemma_literal_run(p, name, p.len() as int);
    assert(p.subrange(0, p.len() as int) =~= p);
    let lt = literal_text(p);
    if name == lt {
        assert(name.subrange(0, lt.len() as int) =~= lt);
    }
    if lt.len() <= name.len() && name.subrange(0, lt.len() as int) == lt && lt.len() == name.len() {
        assert(name =~= name.subrange(0, lt.len() as int));
    }
}

pub(crate) proof fn lemma_token_ok(s: Seq<char>, i: int)
    requires
        0 <= i < s.len(),
    ensures
        token_at(s, i) matches Ok((x, e)) ==> sym_ok(x) && !(x matches Sym::Lit(t) && t.len() == 0),
{
    lemma_token_advances(s, i);
    lemma_lit_run_bounds(s, i);
    if i + 1 < s.len() && is_digit(s[i + 1]) {
        assert(digit_value(s[i + 1]) < 10);
    }
    match set_body(s, i + 1) {
        Some((cs, e)) => if e + 1 < s.len() && is_digit(s[e + 1]) {
            assert(digit_value(s[e + 1]) < 10);
        },
        None => {},
    }
    match set_body(s, i + 2) {
        Some((cs, e)) => if e + 1 < s.len() && is_digit(s[e + 1]) {
            assert(digit_value(s[e + 1]) < 10);
        },
        None => {},
    }
}

proof fn lemma_compile_from_ok(s: Seq<char>, i: int, acc: Seq<Sym>)
    requires
        0 <= i,
        pattern_ok(acc),
    ensures
        compile_from(s, i, acc) matches Ok(p) ==> pattern_ok(p),
    decreases s.len() - i,
{
    if i < s.len() {
        lemma_token_advances(s, i);
        lemma_token_ok(s, i);
        match token_at(s, i) {
            Ok((x, e)) => if append_error(acc, x) is None {
                lemma_append_ok(acc, x);
                lemma_compile_from_ok(s, e, acc.push(x));
            },
            Err(_) => {},
        }
    }
}

/// Every compiled pattern keeps the invariant: capture ids are unique per
/// kind (a second `*0` is never accepted), `^` stands only first and `$`
/// only last, and no two `*` symbols stand side by side.
pub proof fn lemma_compiled_pattern_ok(s: Seq<char>)
    ensures
        compile(s) matches Ok(p) ==> pattern_ok(p),
{
    lemma_compile_from_ok(s, 0, Seq::empty());
}

/// Text that follows `a` and starts with a control character does not
/// change how a literal run inside `a` ends.
proof fn lemma_lit_run_stable(a: Seq<char>, r: Seq<char>, i: int)
    requires
        0 <= i <= a.len(),
        r.len() > 0,
        is_control(r[0]),
        lit_run(a, i) is Ok,
    ensures
        lit_run(a + r, i) == lit_run(a, i),
    decreases a.len() - i,
{
    let s = a + r;
    if i == a.len() {
        assert(s[i] == r[0]);
    } else {
        assert(s[i] == a[i]);
        if !is_control(a[i]) {
            if a[i] == '\\' {
                assert(s[i + 1] == a[i + 1]);
                lemma_lit_run_stable(a, r, i + 2);
            } else {
                lemma_lit_run_stable(a, r, i + 1);
            }
        }
    }
}

/// A set body closed inside `a` reads the same with text after `a`.
proof fn lemma_set_body_stable(a: Seq<char>, r: Seq<char>, j: int)
    requires
        0 <= j,
        set_body(a, j) is Some,
    ensures
        set_body(a + r, j) == set_body(a, j),
    decreases a.len() - j,
{
    let s = a + r;
    assert(s[j] == a[j]);
    if a[j] != ']' {
        if a[j] == '\\' {
            assert(s[j + 1] == a[j + 1]);
            lemma_set_body_stable(a, r, j + 2);
        } else {
            lemma_set_body_stable(a, r, j + 1);
        }
    }
}

proof fn lemma_set_at_stable(a: Seq<char>, r: Seq<char>, o: int)
    requires
        0 <= o < a.len(),
        set_at(a, o) is Ok,
    ensures
        set_at(a + r, o) == set_at(a, o),
{
    lemma_set_body_stable(a, r, o + 1);
    lemma_set_body_bounds(a, o + 1);
    let (cs, e) = set_body(a, o + 1)->Some_0;
    assert((a + r)[e + 1] == a[e + 1]);
    assert((a + r).subrange(o, e + 1) =~= a.subrange(o, e + 1));
}

/// A symbol read inside `a` is read the same with text after `a`, except a
/// `$`, which then no longer stands last.
proof fn lemma_token_stable(a: Seq<char>, r: Seq<char>, i: int)
    requires
        0 <= i < a.len(),
        r.len() > 0,
        is_control(r[0]),
        token_at(a, i) is Ok,
    ensures
        if token_at(a, i)->Ok_0.0 is End {
            token_at(a + r, i) == Err::<(Sym, int), CompileError>(CompileError::MisplacedAnchor)
        } else {
            token_at(a + r, i) == token_at(a, i)
        },
{
    let s = a + r;
    assert(s[i] == a[i]);
    if i + 1 < a.len() {
        assert(s[i + 1] == a[i + 1]);
    }
    let c = a[i];
    if c == '*' || c == '.' {
        if c == '.' && !(i + 1 < a.len() && is_digit(a[i + 1])) {
            lemma_set_at_stable(a, r, i + 1);
        }
    } else if c == '[' {
        lemma_set_at_stable(a, r, i);
    } else if c == '^' || c == '$' {
    } else {
        lemma_lit_run_stable(a, r, i);
    }
}

/// Compiling `a + r` reads the symbols of `a` first, unless a `$` of `a`
/// is no longer last.
proof fn lemma_compile_stable(a: Seq<char>, r: Seq<char>, i: int, acc: Seq<Sym>)
    requires
        0 <= i <= a.len(),
        r.len() > 0,
        is_control(r[0]),
        compile_from(a, i, acc) is Ok,
    ensures
        compile_from(a + r, i, acc) == Err::<Seq<Sym>, CompileError>(CompileError::MisplacedAnchor)
            || compile_from(a + r, i, acc) == compile_from(
            a + r,
            a.len() as int,
            compile_from(a, i, acc)->Ok_0,
        ),
    decreases a.len() - i,
{
    if i < a.len() {
        lemma_token_advances(a, i);
        lemma_token_stable(a, r, i);
        let (x, e) = token_at(a, i)->Ok_0;
        if !(x is End) {
            lemma_compile_stable(a, r, e, acc.push(x));
        }
    }
}

/// An anchor out of place fails: `^` after a pattern string `a` that
/// compiles and is not empty, or `$` with more text `b` after it, makes
/// the whole string fail with MisplacedAnchor.
pub proof fn lemma_misplaced_anchor(a: Seq<char>, anchor: char, b: Seq<char>)
    requires
        compile(a) is Ok,
        (anchor == '^' && a.len() > 0) || (anchor == '$' && b.len() > 0),
    ensures
        compile(a + seq![anchor] + b) == Err::<Seq<Sym>, CompileError>(
            CompileError::MisplacedAnchor,
        ),
{
    let r = seq![anchor] + b;
    assert(a + seq![anchor] + b =~= a + r);
    lemma_compile_stable(a, r, 0, Seq::empty());
    let s = a + r;
    assert(s[a.len() as int] == anchor);
}

/// Compiling extends the symbols already read.
proof fn lemma_compile_extends(s: Seq<char>, i: int, acc: Seq<Sym>)
    requires
        0 <= i,
        compile_from(s, i, acc) is Ok,
    ensures
        compile_from(s, i, acc)->Ok_0.len() >= acc.len(),
        compile_from(s, i, acc)->Ok_0.subrange(0, acc.len() as int) == acc,
    decreases s.len() - i,
{
    if i < s.len() {
        lemma_token_advances(s, i);
        let (x, e) = token_at(s, i)->Ok_0;
        lemma_compile_extends(s, e, acc.push(x));
        let p = compile_from(s, i, acc)->Ok_0;
        assert(p.subrange(0, acc.len() as int) =~= p.subrange(0, acc.len() + 1 as int).subrange(
            0,
            acc.len() as int,
        ));
        assert(acc.push(x).subrange(0, acc.len() as int) =~= acc);
    } else {
        assert(acc.subrange(0, acc.len() as int) =~= acc);
    }
}

/// Where the symbols of `a` hold no `$`, compiling `a + r` reads them first.
proof fn lemma_compile_stable_no_end(a: Seq<char>, r: Seq<char>, i: int, acc: Seq<Sym>)
    requires
        0 <= i <= a.len(),
        r.len() > 0,
        is_control(r[0]),
        compile_from(a, i, acc) is Ok,
        forall|j: int| 0 <= j < compile_from(a, i, acc)->Ok_0.len() ==> !(
        #[trigger] compile_from(a, i, acc)->Ok_0[j] is End),
    ensures
        compile_from(a + r, i, acc) == compile_from(a + r, a.len() as int, compile_from(a, i, acc)->Ok_0),
    decreases a.len() - i,
{
    if i < a.len() {
        lemma_token_advances(a, i);
        lemma_token_stable(a, r, i);
        let (x, e) = token_at(a, i)->Ok_0;
        let p = compile_from(a, i, acc)->Ok_0;
        lemma_compile_extends(a, e, acc.push(x));
        assert(p.subrange(0, acc.len() + 1 as int)[acc.len() as int] == x);
        assert(!(p[acc.len() as int] is End));
        lemma_compile_stable_no_end(a, r, e, acc.push(x));
    }
}

/// A second capture of the same kind and id fails: where `a` compiles to
/// symbols that already hold a `*d` (for `q` = `*`) or a `.d` (for `q` =
/// `.`) and hold no `$`, then `a` followed by that symbol again, and by any
/// text `b`, fails with DuplicateId.
pub proof fn lemma_duplicate_id(a: Seq<char>, q: char, d: u32, b: Seq<char>)
    requires
        q == '*' || q == '.',
        d < 10,
        compile(a) is Ok,
        has_key(compile(a)->Ok_0, (if q == '*' { CaptureKind::Any } else { CaptureKind::Char }, d)),
        forall|j: int| 0 <= j < compile(a)->Ok_0.len() ==> !(#[trigger] compile(a)->Ok_0[j] is End),
    ensures
        compile(a + seq![q] + digit_text(d) + b) == Err::<Seq<Sym>, CompileError>(
            CompileError::DuplicateId,
        ),
{
    let r = seq![q] + digit_text(d) + b;
    assert(a + seq![q] + digit_text(d) + b =~= a + r);
    lemma_compile_stable_no_end(a, r, 0, Seq::empty());
    let s = a + r;
    let n = a.len() as int;
    crate::roundtrip::lemma_digit(d);
    assert(s[n] == q);
    assert(s[n + 1] == digit_text(d)[0]);
    let p = compile(a)->Ok_0;
    if p.len() > 0 {
        assert(!(p[p.len() - 1] is End));
    }
}

} // verus!
