//! The canonical text of a compiled pattern compiles back to the same symbols.

use vstd::prelude::*;
use crate::grammar::{
    Sym, CompileError, compile, compile_from, token_at, append_error, pattern_ok, sym_ok, capture_key, has_key, lit_run, set_body, is_control, is_escapable, escape_char, escape_text, render, render_sym, lemma_append_ok, lemma_token_advances, lemma_lit_run_bounds, lemma_set_body_bounds,
};
use crate::text::{is_digit, digit_value, digit_text};

verus! {

/// A set symbol whose bracketed text reads back as the same set.
pub open spec fn raw_ok(x: Sym) -> bool {
    match x {
        Sym::OneOf(id, set, raw) => raw.len() > 0 && raw[0] == '[' && match set_body(raw, 1) {
            Some((cs, e)) => e == raw.len() - 1 && cs.to_set() == set,
            None => false,
        },
        _ => true,
    }
}

/// The shape of every compiled pattern: the pattern invariant, sets that
/// read back as themselves, and no two runs of literal text side by side.
pub open spec fn canonical(p: Seq<Sym>) -> bool {
    &&& pattern_ok(p)
    &&& forall|i: int| 0 <= i < p.len() ==> raw_ok(#[trigger] p[i])
    &&& forall|i: int| 0 <= i < p.len() - 1 ==> !(#[trigger] p[i] is Lit && p[i + 1] is Lit)
}

/// A set body read inside `s` reads the same from the bracketed text alone.
proof fn lemma_set_body_local(s: Seq<char>, o: int, j: int)
    requires
        0 <= o < j,
        set_body(s, j) is Some,
    ensures
        set_body(s, j) matches Some((cs, e)) && set_body(s.subrange(o, e + 1), j - o) == Some(
            (cs, e - o),
        ),
    decreases s.len() - j,
{
    lemma_set_body_bounds(s, j);
    let (cs, e) = set_body(s, j)->Some_0;
    let w = s.subrange(o, e + 1);
    assert(w[j - o] == s[j]);
    if s[j] != ']' {
        if s[j] == '\\' {
            lemma_set_body_local(s, o, j + 2);
            lemma_set_body_bounds(s, j + 2);
            assert(w[j - o + 1] == s[j + 1]);
        } else {
            lemma_set_body_local(s, o, j + 1);
        }
    }
}

/// A set body read from the bracketed text reads the same where that text
/// stands inside `s`.
proof fn lemma_set_body_embed(s: Seq<char>, i: int, raw: Seq<char>, j: int)
    requires
        0 <= i,
        0 <= j,
        i + raw.len() <= s.len(),
        s.subrange(i, i + raw.len()) == raw,
        set_body(raw, j) is Some,
    ensures
        set_body(raw, j) matches Some((cs, e)) && set_body(s, i + j) == Some((cs, i + e)),
    decreases raw.len() - j,
{
    lemma_set_body_bounds(raw, j);
    assert(s[i + j] == raw[j]);
    if raw[j] != ']' {
        if raw[j] == '\\' {
            assert(s[i + j + 1] == raw[j + 1]);
            lemma_set_body_embed(s, i, raw, j + 2);
        } else {
            lemma_set_body_embed(s, i, raw, j + 1);
        }
    }
}

pub(crate) proof fn lemma_digit(id: u32)
    requires
        id < 10,
    ensures
        digit_text(id).len() == 1,
        is_digit(digit_text(id)[0]),
        digit_value(digit_text(id)[0]) == id,
{
}

proof fn lemma_token_canonical(s: Seq<char>, i: int)
    requires
        0 <= i < s.len(),
    ensures
        token_at(s, i) matches Ok((x, e)) ==> raw_ok(x) && (x is Lit ==> (e >= s.len() || is_control(s[e]))),
        is_control(s[i]) ==> !(token_at(s, i) matches Ok((x, _)) && x is Lit),
{
    lemma_lit_run_bounds(s, i);
    lemma_token_advances(s, i);
    let o = if s[i] == '[' { i } else { i + 1 };
    if 0 <= o < s.len() && set_body(s, o + 1) is Some {
        lemma_set_body_local(s, o, o + 1);
        lemma_set_body_bounds(s, o + 1);
        let (cs, e) = set_body(s, o + 1)->Some_0;
        let raw = s.subrange(o, e + 1);
        assert(raw[0] == s[o]);
    }
}

proof fn lemma_compile_from_canonical(s: Seq<char>, i: int, acc: Seq<Sym>)
    requires
        0 <= i,
        canonical(acc),
        acc.len() > 0 && acc.last() is Lit ==> (i >= s.len() || is_control(s[i])),
    ensures
        compile_from(s, i, acc) matches Ok(p) ==> canonical(p),
    decreases s.len() - i,
{
    if i < s.len() {
        lemma_token_advances(s, i);
        lemma_token_canonical(s, i);
        crate::laws::lemma_token_ok(s, i);
        match token_at(s, i) {
            Ok((x, e)) => if append_error(acc, x) is None {
                lemma_append_ok(acc, x);
                let q = acc.push(x);
                assert forall|k: int| 0 <= k < q.len() implies raw_ok(#[trigger] q[k]) by {
                    if k < acc.len() {
                        assert(q[k] == acc[k]);
                    }
                }
                assert forall|k: int| 0 <= k < q.len() - 1 implies !(#[trigger] q[k] is Lit
                    && q[k + 1] is Lit) by {
                    if k + 1 < acc.len() {
                        assert(q[k] == acc[k] && q[k + 1] == acc[k + 1]);
                    } else {
                        assert(q[k] == acc.last());
                    }
                }
                lemma_compile_from_canonical(s, e, q);
            },
            Err(_) => {},
        }
    }
}

/// Every compiled pattern is canonical.
pub proof fn lemma_compiled_canonical(s: Seq<char>)
    ensures
        compile(s) matches Ok(p) ==> canonical(p),
{
    lemma_compile_from_canonical(s, 0, Seq::empty());
}

proof fn lemma_escape_front(t: Seq<char>)
    requires
        t.len() > 0,
    ensures
        escape_text(t) == escape_char(t[0]) + escape_text(t.drop_first()),
    decreases t.len(),
{
    if t.len() > 1 {
        lemma_escape_front(t.drop_last());
        assert(t.drop_last().drop_first() =~= t.drop_first().drop_last());
        assert(t.drop_first().last() == t.last());
    } else {
        assert(t.drop_last() =~= Seq::<char>::empty());
        assert(t.drop_first() =~= Seq::<char>::empty());
    }
}

/// Escaped literal text reads back as the text, up to a control character
/// or the end.
proof fn lemma_lit_run_escaped(s: Seq<char>, i: int, t: Seq<char>)
    requires
        0 <= i,
        i + escape_text(t).len() <= s.len(),
        s.subrange(i, i + escape_text(t).len()) == escape_text(t),
        i + escape_text(t).len() == s.len() || is_control(s[i + escape_text(t).len()]),
    ensures
        lit_run(s, i) == Ok::<(Seq<char>, int), CompileError>((t, i + escape_text(t).len())),
    decreases t.len(),
{
    let m = escape_text(t).len();
    if t.len() == 0 {
        assert(t =~= Seq::<char>::empty());
    } else {
        lemma_escape_front(t);
        let c = t[0];
        let rest = t.drop_first();
        let w = escape_char(c).len();
        assert(s[i] == escape_text(t)[0]);
        assert(s.subrange(i + w, i + m) =~= escape_text(t).subrange(w as int, m as int));
        assert(escape_text(t).subrange(w as int, m as int) =~= escape_text(rest));
        if is_escapable(c) {
            assert(s[i + 1] == escape_text(t)[1]);
        }
        lemma_lit_run_escaped(s, i + w, rest);
        assert(seq![c] + rest =~= t);
    }
}

/// How long the canonical text of the first `k` symbols is.
pub open spec fn off(p: Seq<Sym>, k: int) -> int {
    render(p.subrange(0, k)).len() as int
}

proof fn lemma_render_step(p: Seq<Sym>, k: int)
    requires
        0 <= k < p.len(),
    ensures
        render(p.subrange(0, k + 1)) == render(p.subrange(0, k)) + render_sym(p[k]),
{
    let q = p.subrange(0, k + 1);
    assert(q.drop_last() =~= p.subrange(0, k));
}

/// The canonical text of the first `j` symbols begins that of the first `k`.
proof fn lemma_render_prefix(p: Seq<Sym>, j: int, k: int)
    requires
        0 <= j <= k <= p.len(),
    ensures
        off(p, j) <= off(p, k),
        render(p.subrange(0, k)).subrange(0, off(p, j)) == render(p.subrange(0, j)),
    decreases k - j,
{
    if j == k {
        assert(render(p.subrange(0, k)).subrange(0, off(p, j)) =~= render(p.subrange(0, j)));
    } else {
        lemma_render_prefix(p, j, k - 1);
        lemma_render_step(p, k - 1);
        assert(render(p.subrange(0, k)).subrange(0, off(p, j)) =~= render(p.subrange(0, k - 1)).subrange(
            0,
            off(p, j),
        ));
    }
}

proof fn lemma_render_sym_nonempty(x: Sym)
    requires
        sym_ok(x),
        raw_ok(x),
        !(x matches Sym::Lit(t) && t.len() == 0),
    ensures
        render_sym(x).len() > 0,
        !(x is Lit) ==> is_control(render_sym(x)[0]),
        x matches Sym::Lit(t) ==> !is_control(render_sym(x)[0]),
{
    match x {
        Sym::Lit(t) => {
            lemma_escape_front(t);
        },
        Sym::OneOf(id, _, raw) => {
            assert((raw + digit_text(id))[0] == raw[0]);
        },
        _ => {},
    }
}

/// The symbol at `k` is read back from its canonical text.
proof fn lemma_token_round_trip(p: Seq<Sym>, k: int)
    requires
        canonical(p),
        0 <= k < p.len(),
    ensures
        token_at(render(p), off(p, k)) == Ok::<(Sym, int), CompileError>((p[k], off(p, k + 1))),
{
    let s = render(p);
    let n = p.len() as int;
    let i = off(p, k);
    let x = p[k];
    let m = render_sym(x).len() as int;
    assert(p.subrange(0, n) =~= p);
    lemma_render_step(p, k);
    lemma_render_prefix(p, k + 1, n);
    lemma_render_prefix(p, k, k + 1);
    let pre = render(p.subrange(0, k + 1));
    assert(s.subrange(0, i + m) == pre);
    assert(s.subrange(i, i + m) =~= render_sym(x)) by {
        assert(s.subrange(i, i + m) =~= pre.subrange(i, i + m));
    }
    assert(sym_ok(x) && raw_ok(x));
    lemma_render_sym_nonempty(x);
    assert(s[i] == render_sym(x)[0]) by {
        assert(s.subrange(i, i + m)[0] == s[i]);
    }
    if k + 1 < n {
        lemma_render_step(p, k + 1);
        lemma_render_prefix(p, k + 2, n);
        let y = p[k + 1];
        lemma_render_sym_nonempty(y);
        let pre2 = render(p.subrange(0, k + 2));
        assert(s.subrange(0, off(p, k + 2)) == pre2);
        assert(s[i + m] == render_sym(y)[0]) by {
            assert(pre2[i + m] == render_sym(y)[0]);
            assert(s.subrange(0, off(p, k + 2))[i + m] == s[i + m]);
        }
    } else {
        assert(i + m == s.len());
    }
    match x {
        Sym::Any(id) => {
            lemma_digit(id);
            assert(s[i + 1] == render_sym(x)[1]) by {
                assert(s.subrange(i, i + m)[1] == s[i + 1]);
            }
        },
        Sym::One(id) => {
            lemma_digit(id);
            assert(s[i + 1] == render_sym(x)[1]) by {
                assert(s.subrange(i, i + m)[1] == s[i + 1]);
            }
        },
        Sym::OneOf(id, set, raw) => {
            lemma_digit(id);
            let r = raw.len() as int;
            assert(s.subrange(i, i + r) =~= raw) by {
                assert(s.subrange(i, i + r) =~= s.subrange(i, i + m).subrange(0, r));
            }
            lemma_set_body_embed(s, i, raw, 1);
            assert(s[i + r] == render_sym(x)[r]) by {
                assert(s.subrange(i, i + m)[r] == s[i + r]);
            }
        },
        Sym::Lit(t) => {
            lemma_lit_run_escaped(s, i, t);
        },
        Sym::Start => {
            assert(k == 0);
            assert(p.subrange(0, 0) =~= Seq::<Sym>::empty());
        },
        Sym::End => {
            assert(k == n - 1);
        },
    }
}

proof fn lemma_no_append_error(p: Seq<Sym>, k: int)
    requires
        pattern_ok(p),
        0 <= k < p.len(),
    ensures
        append_error(p.subrange(0, k), p[k]) is None,
{
    let acc = p.subrange(0, k);
    if k > 0 {
        assert(acc.last() == p[k - 1]);
    }
    if capture_key(p[k]) is Some {
        let key = capture_key(p[k])->Some_0;
        if has_key(acc, key) {
            let j = choose|j: int| 0 <= j < acc.len() && capture_key(#[trigger] acc[j]) == Some(key);
            assert(acc[j] == p[j]);
        }
    }
}

proof fn lemma_round_trip_from(p: Seq<Sym>, k: int)
    requires
        canonical(p),
        0 <= k <= p.len(),
    ensures
        compile_from(render(p), off(p, k), p.subrange(0, k)) == Ok::<Seq<Sym>, CompileError>(p),
    decreases p.len() - k,
{
    let n = p.len() as int;
    assert(p.subrange(0, n) =~= p);
    if k == n {
    } else {
        lemma_token_round_trip(p, k);
        lemma_no_append_error(p, k);
        lemma_render_step(p, k);
        lemma_render_prefix(p, k + 1, n);
        lemma_render_sym_nonempty(p[k]);
        assert(p.subrange(0, k).push(p[k]) =~= p.subrange(0, k + 1));
        lemma_round_trip_from(p, k + 1);
    }
}

/// Round trip: the canonical text of a compiled pattern compiles back to
/// the same symbols.
pub proof fn lemma_round_trip(s: Seq<char>)
    ensures
        compile(s) matches Ok(p) ==> compile(render(p)) == Ok::<Seq<Sym>, CompileError>(p),
{
    if compile(s) is Ok {
        let p = compile(s)->Ok_0;
        lemma_compiled_canonical(s);
        lemma_round_trip_from(p, 0);
        assert(p.subrange(0, 0) =~= Seq::<Sym>::empty());
    }
}

} // verus!
