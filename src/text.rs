//! Character-level helpers shared by the tokenizer, the matcher and the renderer.

use vstd::prelude::*;
use vstd::string::*;

verus! {

pub open spec fn is_digit(c: char) -> bool {
    '0' <= c && c <= '9'
}

pub open spec fn digit_value(c: char) -> u32 {
    (c as u32 - '0' as u32) as u32
}

/// The one-character text of a single decimal digit.
pub open spec fn digit_text(d: u32) -> Seq<char> {
    seq![(d + '0' as u32) as char]
}

/// Reads `c` as a decimal digit.
pub fn digit_of(c: char) -> (r: Option<u32>)
    ensures
        r == (if is_digit(c) { Some(digit_value(c)) } else { None::<u32> }),
        r matches Some(d) ==> d < 10,
{
    if '0' <= c && c <= '9' {
        Some(c as u32 - '0' as u32)
    } else {
        None
    }
}

/// The characters of `s`, in order.
pub fn chars_of(s: &str) -> (r: Vec<char>)
    ensures
        r@ == s@,
{
    let n = s.unicode_len();
    let mut r: Vec<char> = Vec::new();
    let mut i: usize = 0;
    while i < n
        invariant
            n == s@.len(),
            i <= n,
            r@ == s@.subrange(0, i as int),
        decreases n - i,
    {
        r.push(s.get_char(i));
        i += 1;
    }
    assert(r@ =~= s@);
    r
}

/// An owned copy of the characters `from..to` of `s`.
pub fn slice_text(s: &str, from: usize, to: usize) -> (r: String)
    requires
        from <= to <= s@.len(),
    ensures
        r@ == s@.subrange(from as int, to as int),
{
    s.substring_char(from, to).to_owned()
}

/// The text of the digit `d`.
pub fn digit_string(d: u32) -> (r: String)
    requires
        d < 10,
    ensures
        r@ == digit_text(d),
{
    let digits = "0123456789";
    proof {
        reveal_strlit("0123456789");
    }
    let r = slice_text(digits, d as usize, d as usize + 1);
    assert(r@ =~= digit_text(d));
    r
}

} // verus!

verus! {

/// Relies on `String::push`: the character is appended to the string.
#[verifier::external_body]
pub fn push_char(s: &mut String, c: char)
    ensures
        final(s)@ == old(s)@.push(c),
{
    s.push(c)
}

/// The decimal digits of `n`, most significant first, without leading zeros.
pub open spec fn decimal_text(n: nat) -> Seq<char>
    decreases n,
{
    if n < 10 {
        digit_text(n as u32)
    } else {
        decimal_text(n / 10) + digit_text((n % 10) as u32)
    }
}

/// `n` written in decimal.
pub fn decimal_string(n: usize) -> (r: String)
    ensures
        r@ == decimal_text(n as nat),
    decreases n,
{
    if n < 10 {
        digit_string(n as u32)
    } else {
        let mut r = decimal_string(n / 10);
        let d = digit_string((n % 10) as u32);
        r.append(d.as_str());
        r
    }
}

/// The characters with the Unicode White_Space property.
pub open spec fn is_whitespace(c: char) -> bool {
    ('\u{9}' <= c && c <= '\u{d}') || c == ' ' || c == '\u{85}' || c == '\u{a0}' || c == '\u{1680}'
        || ('\u{2000}' <= c && c <= '\u{200a}') || c == '\u{2028}' || c == '\u{2029}' || c
        == '\u{202f}' || c == '\u{205f}' || c == '\u{3000}'
}

pub fn is_whitespace_char(c: char) -> (r: bool)
    ensures
        r == is_whitespace(c),
{
    ('\u{9}' <= c && c <= '\u{d}') || c == ' ' || c == '\u{85}' || c == '\u{a0}' || c == '\u{1680}'
        || ('\u{2000}' <= c && c <= '\u{200a}') || c == '\u{2028}' || c == '\u{2029}' || c
        == '\u{202f}' || c == '\u{205f}' || c == '\u{3000}'
}

/// `s` without its leading whitespace.
pub open spec fn trim_start(s: Seq<char>) -> Seq<char>
    decreases s.len(),
{
    if s.len() > 0 && is_whitespace(s[0]) {
        trim_start(s.drop_first())
    } else {
        s
    }
}

/// `s` without its trailing whitespace.
pub open spec fn trim_end(s: Seq<char>) -> Seq<char>
    decreases s.len(),
{
    if s.len() > 0 && is_whitespace(s.last()) {
        trim_end(s.drop_last())
    } else {
        s
    }
}

pub open spec fn trim(s: Seq<char>) -> Seq<char> {
    trim_end(trim_start(s))
}

pub open spec fn all_digits(s: Seq<char>) -> bool {
    forall|i: int| 0 <= i < s.len() ==> is_digit(#[trigger] s[i])
}

/// The value of a run of decimal digits.
pub open spec fn decimal_value(s: Seq<char>) -> nat
    decreases s.len(),
{
    if s.len() == 0 {
        0
    } else {
        decimal_value(s.drop_last()) * 10 + digit_value(s.last()) as nat
    }
}

/// The number that `s` holds once trimmed: one or more decimal digits whose
/// value fits a `usize`.
pub open spec fn number(s: Seq<char>) -> Option<usize> {
    let t = trim(s);
    if t.len() > 0 && all_digits(t) && decimal_value(t) <= usize::MAX {
        Some(decimal_value(t) as usize)
    } else {
        None
    }
}

proof fn lemma_decimal_grows(s: Seq<char>, k: int)
    requires
        0 <= k <= s.len(),
    ensures
        decimal_value(s.subrange(0, k)) <= decimal_value(s),
    decreases s.len() - k,
{
    if k < s.len() {
        lemma_decimal_grows(s, k + 1);
        let q = s.subrange(0, k + 1);
        assert(q.drop_last() =~= s.subrange(0, k));
    } else {
        assert(s.subrange(0, k) =~= s);
    }
}

/// Reads the number that the characters `from..to` of `s` hold, as `number` says.
pub fn parse_number(s: &Vec<char>, from: usize, to: usize) -> (r: Option<usize>)
    requires
        from <= to <= s@.len(),
    ensures
        r == number(s@.subrange(from as int, to as int)),
{
    let ghost whole = s@.subrange(from as int, to as int);
    let mut a: usize = from;
    while a < to && is_whitespace_char(s[a])
        invariant
            from <= a <= to <= s@.len(),
            trim_start(whole) == trim_start(s@.subrange(a as int, to as int)),
        decreases to - a,
    {
        assert(s@.subrange(a as int, to as int).drop_first() =~= s@.subrange(a + 1, to as int));
        a += 1;
    }
    assert(trim_start(whole) == s@.subrange(a as int, to as int));
    let mut b: usize = to;
    while b > a && is_whitespace_char(s[b - 1])
        invariant
            from <= a <= b <= to <= s@.len(),
            trim(whole) == trim_end(s@.subrange(a as int, b as int)),
        decreases b - a,
    {
        assert(s@.subrange(a as int, b as int).drop_last() =~= s@.subrange(a as int, b - 1));
        b -= 1;
    }
    let ghost t = s@.subrange(a as int, b as int);
    assert(trim(whole) == t);
    if a == b {
        return None;
    }
    let mut v: usize = 0;
    let mut k: usize = a;
    while k < b
        invariant
            a <= k <= b <= s@.len(),
            t == s@.subrange(a as int, b as int),
            trim(s@.subrange(from as int, to as int)) == t,
            forall|i: int| a <= i < k ==> is_digit(#[trigger] s@[i]),
            v as nat == decimal_value(s@.subrange(a as int, k as int)),
        decreases b - k,
    {
        let c = s[k];
        if !('0' <= c && c <= '9') {
            assert(!is_digit(t[k - a]));
            return None;
        }
        let d = (c as u32 - '0' as u32) as usize;
        proof {
            let q = s@.subrange(a as int, k + 1);
            assert(q.drop_last() =~= s@.subrange(a as int, k as int));
            assert(q.last() == c);
        }
        if v > (usize::MAX - d) / 10 {
            proof {
                lemma_decimal_grows(t, k + 1 - a);
                assert(t.subrange(0, k + 1 - a) =~= s@.subrange(a as int, k + 1));
                assert(all_digits(t) ==> decimal_value(t) > usize::MAX) by (nonlinear_arith)
                    requires
                        v > (usize::MAX - d) / 10,
                        decimal_value(s@.subrange(a as int, k + 1)) == v * 10 + d,
                        decimal_value(s@.subrange(a as int, k + 1)) <= decimal_value(t),
                ;
            }
            return None;
        }
        v = v * 10 + d;
        k += 1;
    }
    assert(s@.subrange(a as int, k as int) =~= t);
    Some(v)
}

} // verus!
