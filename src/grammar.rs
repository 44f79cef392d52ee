//! The pattern language as mathematics: symbols, the tokenizer and the
//! compiler as spec functions over character sequences.

use vstd::prelude::*;
use crate::text::{is_digit, digit_value, digit_text};

verus! {

/// Why a pattern string does not compile.
#[derive(Clone, Copy, Debug, PartialEq, Eq, Structural)]
pub enum CompileError {
    MissingId,
    MisplacedAnchor,
    DanglingEscape,
    DuplicateId,
    UnterminatedCharSet,
    AmbiguousCapture,
}

/// The three capturing kinds of symbol.
#[derive(Clone, Copy, Debug, PartialEq, Eq, Structural)]
pub enum CaptureKind {
    Any,
    Char,
    Class,
}

/// A symbol of a compiled pattern, as a mathematical value.
pub enum Sym {
    /// Literal text.
    Lit(Seq<char>),
    /// `*id`: a possibly empty run of characters.
    Any(u32),
    /// `.id`: exactly one character.
    One(u32),
    /// `[chars]id`: one character of the set; the last field is the
    /// bracketed source text the set was written as.
    OneOf(u32, Set<char>, Seq<char>),
    /// `^`
    Start,
    /// `$`
    End,
}

/// Characters that end a run of literal text.
pub open spec fn is_control(c: char) -> bool {
    c == '*' || c == '.' || c == '[' || c == '^' || c == '$'
}

/// Characters that a backslash may escape into literal text.
pub open spec fn is_escapable(c: char) -> bool {
    is_control(c) || c == '\\' || c == ']' || c == '+' || c == '?' || c == '{' || c == '}'
}

/// The run of literal text starting at `i`: its characters once escapes are
/// resolved, and the index just past it.
pub open spec fn lit_run(s: Seq<char>, i: int) -> Result<(Seq<char>, int), CompileError>
    decreases s.len() - i,
{
    if i < 0 || i >= s.len() || is_control(s[i]) {
        Ok((Seq::empty(), i))
    } else if s[i] == '\\' {
        if i + 1 < s.len() && is_escapable(s[i + 1]) {
            match lit_run(s, i + 2) {
                Ok((t, e)) => Ok((seq![s[i + 1]] + t, e)),
                Err(x) => Err(x),
            }
        } else {
            Err(CompileError::DanglingEscape)
        }
    } else {
        match lit_run(s, i + 1) {
            Ok((t, e)) => Ok((seq![s[i]] + t, e)),
            Err(x) => Err(x),
        }
    }
}

/// The body of a character set from `j` on: the characters it holds and the
/// index of the closing `]`; `None` where no closing bracket comes.
pub open spec fn set_body(s: Seq<char>, j: int) -> Option<(Seq<char>, int)>
    decreases s.len() - j,
{
    if j < 0 || j >= s.len() {
        None
    } else if s[j] == ']' {
        Some((Seq::empty(), j))
    } else if s[j] == '\\' {
        if j + 1 < s.len() {
            match set_body(s, j + 2) {
                Some((cs, e)) => Some((seq![s[j + 1]] + cs, e)),
                None => None,
            }
        } else {
            None
        }
    } else {
        match set_body(s, j + 1) {
            Some((cs, e)) => Some((seq![s[j]] + cs, e)),
            None => None,
        }
    }
}

/// The set symbol whose `[` stands at `o`, and the index just past its id.
pub open spec fn set_at(s: Seq<char>, o: int) -> Result<(Sym, int), CompileError> {
    match set_body(s, o + 1) {
        None => Err(CompileError::UnterminatedCharSet),
        Some((cs, e)) => if e + 1 < s.len() && is_digit(s[e + 1]) {
            Ok((Sym::OneOf(digit_value(s[e + 1]), cs.to_set(), s.subrange(o, e + 1)), e + 2))
        } else {
            Err(CompileError::MissingId)
        },
    }
}

/// The symbol that starts at `i` (with `0 <= i < s.len()`), and the index just past it.
pub open spec fn token_at(s: Seq<char>, i: int) -> Result<(Sym, int), CompileError> {
    let c = s[i];
    if c == '*' {
        if i + 1 < s.len() && is_digit(s[i + 1]) {
            Ok((Sym::Any(digit_value(s[i + 1])), i + 2))
        } else {
            Err(CompileError::MissingId)
        }
    } else if c == '.' {
        if i + 1 < s.len() && is_digit(s[i + 1]) {
            Ok((Sym::One(digit_value(s[i + 1])), i + 2))
        } else if i + 1 < s.len() && s[i + 1] == '[' {
            set_at(s, i + 1)
        } else {
            Err(CompileError::MissingId)
        }
    } else if c == '[' {
        set_at(s, i)
    } else if c == '^' {
        if i == 0 {
            Ok((Sym::Start, i + 1))
        } else {
            Err(CompileError::MisplacedAnchor)
        }
    } else if c == '$' {
        if i == s.len() - 1 {
            Ok((Sym::End, i + 1))
        } else {
            Err(CompileError::MisplacedAnchor)
        }
    } else {
        match lit_run(s, i) {
            Ok((t, e)) => Ok((Sym::Lit(t), e)),
            Err(x) => Err(x),
        }
    }
}

/// The kind and id under which a symbol captures, if it captures.
pub open spec fn capture_key(x: Sym) -> Option<(CaptureKind, u32)> {
    match x {
        Sym::Any(id) => Some((CaptureKind::Any, id)),
        Sym::One(id) => Some((CaptureKind::Char, id)),
        Sym::OneOf(id, _, _) => Some((CaptureKind::Class, id)),
        _ => None,
    }
}

/// Some symbol of `p` captures under `key`.
pub open spec fn has_key(p: Seq<Sym>, key: (CaptureKind, u32)) -> bool {
    exists|j: int| 0 <= j < p.len() && capture_key(#[trigger] p[j]) == Some(key)
}

/// The error that appending `x` to the symbols `p` raises, if any.
pub open spec fn append_error(p: Seq<Sym>, x: Sym) -> Option<CompileError> {
    if x is Start && p.len() > 0 {
        Some(CompileError::MisplacedAnchor)
    } else if p.len() > 0 && p.last() is End {
        Some(CompileError::MisplacedAnchor)
    } else if capture_key(x) matches Some(key) && has_key(p, key) {
        Some(CompileError::DuplicateId)
    } else if x is Any && p.len() > 0 && p.last() is Any {
        Some(CompileError::AmbiguousCapture)
    } else {
        None
    }
}

/// Compiling `s` from index `i` on, with the symbols `acc` already read.
pub open spec fn compile_from(s: Seq<char>, i: int, acc: Seq<Sym>) -> Result<Seq<Sym>, CompileError>
    decreases s.len() - i,
    via compile_from_decreases
{
    if i < 0 || i >= s.len() {
        Ok(acc)
    } else {
        match token_at(s, i) {
            Err(x) => Err(x),
            Ok((x, e)) => match append_error(acc, x) {
                Some(err) => Err(err),
                None => compile_from(s, e, acc.push(x)),
            },
        }
    }
}

#[via_fn]
proof fn compile_from_decreases(s: Seq<char>, i: int, acc: Seq<Sym>) {
    if 0 <= i < s.len() {
        lemma_token_advances(s, i);
    }
}

/// The symbols that the pattern string `s` compiles to, or the first error.
pub open spec fn compile(s: Seq<char>) -> Result<Seq<Sym>, CompileError> {
    compile_from(s, 0, Seq::empty())
}

pub proof fn lemma_lit_run_bounds(s: Seq<char>, i: int)
    requires
        0 <= i <= s.len(),
    ensures
        lit_run(s, i) matches Ok((t, e)) ==> i <= e <= s.len() && (e == i <==> t.len() == 0),
        lit_run(s, i) matches Ok((t, e)) ==> (e < s.len() ==> is_control(s[e])),
    decreases s.len() - i,
{
    if i < s.len() && !is_control(s[i]) {
        if s[i] == '\\' {
            if i + 1 < s.len() && is_escapable(s[i + 1]) {
                lemma_lit_run_bounds(s, i + 2);
            }
        } else {
            lemma_lit_run_bounds(s, i + 1);
        }
    }
}

pub proof fn lemma_set_body_bounds(s: Seq<char>, j: int)
    requires
        0 <= j,
    ensures
        set_body(s, j) matches Some((cs, e)) ==> j <= e < s.len() && s[e] == ']',
    decreases s.len() - j,
{
    if 0 <= j < s.len() && s[j] != ']' {
        if s[j] == '\\' {
            if j + 1 < s.len() {
                lemma_set_body_bounds(s, j + 2);
            }
        } else {
            lemma_set_body_bounds(s, j + 1);
        }
    }
}

/// Every symbol takes at least one character of the pattern string.
pub proof fn lemma_token_advances(s: Seq<char>, i: int)
    requires
        0 <= i < s.len(),
    ensures
        token_at(s, i) matches Ok((x, e)) ==> i < e <= s.len(),
{
    lemma_lit_run_bounds(s, i);
    lemma_set_body_bounds(s, i + 1);
    lemma_set_body_bounds(s, i + 2);
}

} // verus!

verus! {

pub fn is_control_char(c: char) -> (r: bool)
    ensures
        r == is_control(c),
{
    c == '*' || c == '.' || c == '[' || c == '^' || c == '$'
}

pub fn is_escapable_char(c: char) -> (r: bool)
    ensures
        r == is_escapable(c),
{
    is_control_char(c) || c == '\\' || c == ']' || c == '+' || c == '?' || c == '{' || c == '}'
}

/// How one character of literal text is written in a pattern.
pub open spec fn escape_char(c: char) -> Seq<char> {
    if is_escapable(c) {
        seq!['\\', c]
    } else {
        seq![c]
    }
}

/// How literal text is written in a pattern: every character that has a
/// meaning in the language is escaped.
pub open spec fn escape_text(t: Seq<char>) -> Seq<char>
    decreases t.len(),
{
    if t.len() == 0 {
        Seq::empty()
    } else {
        escape_text(t.drop_last()) + escape_char(t.last())
    }
}

/// The canonical pattern text of one symbol.
pub open spec fn render_sym(x: Sym) -> Seq<char> {
    match x {
        Sym::Lit(t) => escape_text(t),
        Sym::Any(id) => seq!['*'] + digit_text(id),
        Sym::One(id) => seq!['.'] + digit_text(id),
        Sym::OneOf(id, _, raw) => raw + digit_text(id),
        Sym::Start => seq!['^'],
        Sym::End => seq!['$'],
    }
}

/// The canonical pattern text of a symbol sequence.
pub open spec fn render(p: Seq<Sym>) -> Seq<char>
    decreases p.len(),
{
    if p.len() == 0 {
        Seq::empty()
    } else {
        render(p.drop_last()) + render_sym(p.last())
    }
}

/// What a single symbol must satisfy: capture ids are decimal digits.
pub open spec fn sym_ok(x: Sym) -> bool {
    match capture_key(x) {
        Some((_, id)) => id < 10,
        None => true,
    }
}

} // verus!

verus! {

/// The invariant of a compiled pattern: ids are digits and unique per kind,
/// `^` comes only first and `$` only last, no two `*` symbols stand side by
/// side, and no literal text is empty.
pub open spec fn pattern_ok(p: Seq<Sym>) -> bool {
    &&& forall|i: int| 0 <= i < p.len() ==> sym_ok(#[trigger] p[i])
    &&& forall|i: int| 0 <= i < p.len() ==> !(#[trigger] p[i] matches Sym::Lit(t) && t.len() == 0)
    &&& forall|i: int| 0 < i < p.len() ==> !(#[trigger] p[i] is Start)
    &&& forall|i: int| 0 <= i < p.len() - 1 ==> !(#[trigger] p[i] is End)
    &&& forall|i: int, j: int|
        0 <= i < j < p.len() && capture_key(#[trigger] p[i]) is Some ==> capture_key(p[i])
            != capture_key(#[trigger] p[j])
    &&& forall|i: int| 0 <= i < p.len() - 1 ==> !(#[trigger] p[i] is Any && p[i + 1] is Any)
}

/// Appending a symbol that raises no error keeps the invariant.
pub proof fn lemma_append_ok(p: Seq<Sym>, x: Sym)
    requires
        pattern_ok(p),
        append_error(p, x) is None,
        sym_ok(x),
        !(x matches Sym::Lit(t) && t.len() == 0),
    ensures
        pattern_ok(p.push(x)),
{
    let q = p.push(x);
    assert forall|i: int, j: int|
        0 <= i < j < q.len() && capture_key(#[trigger] q[i]) is Some implies capture_key(q[i])
        != capture_key(#[trigger] q[j]) by {
        if j == p.len() {
            if capture_key(q[i]) == capture_key(q[j]) {
                assert(capture_key(p[i]) == capture_key(x));
                assert(has_key(p, capture_key(x)->0));
            }
        } else {
            assert(q[i] == p[i] && q[j] == p[j]);
        }
    }
    assert forall|i: int| 0 <= i < q.len() - 1 implies !(#[trigger] q[i] is Any && q[i + 1] is Any) by {
        if i + 1 == p.len() {
            assert(q[i] == p.last());
        } else {
            assert(q[i] == p[i] && q[i + 1] == p[i + 1]);
        }
    }
    assert forall|i: int| 0 <= i < q.len() - 1 implies !(#[trigger] q[i] is End) by {
        if i + 1 == p.len() {
            assert(q[i] == p.last());
        } else {
            assert(q[i] == p[i]);
        }
    }
    assert forall|i: int| 0 < i < q.len() implies !(#[trigger] q[i] is Start) by {
        if i < p.len() {
            assert(q[i] == p[i]);
        }
    }
    assert forall|i: int| 0 <= i < q.len() implies sym_ok(#[trigger] q[i]) && !(q[i] matches Sym::Lit(
        t,
    ) && t.len() == 0) by {
        if i < p.len() {
            assert(q[i] == p[i]);
        }
    }
}

} // verus!
