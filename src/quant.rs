//! Quantified captures: `c+id`, `c?id` and `c{m,n}id`, where the class `c`
//! is one character (`.` standing for any) or an explicit set. They are read
//! and written back, but no pattern takes them: patterns treat `+`, `?` and
//! `{` as literal text.

use vstd::prelude::*;
use crate::text::{
    is_digit, digit_value, digit_of, digit_text, digit_string, chars_of, push_char, decimal_text,
    decimal_string, number, parse_number, is_whitespace, is_whitespace_char,
};

verus! {

/// The class that a single character names: `.` is any character.
pub open spec fn class_of(c: char) -> Seq<char> {
    if c == '.' {
        Seq::empty()
    } else {
        seq![c]
    }
}

/// How a class is written: `.` for any character, the character itself for
/// one, the characters in brackets otherwise.
pub open spec fn class_text(cs: Seq<char>) -> Seq<char> {
    if cs.len() == 0 {
        seq!['.']
    } else if cs.len() == 1 {
        cs
    } else {
        seq!['['] + cs + seq![']']
    }
}

/// The id of a quantifier `q` at `off` followed by a digit.
pub open spec fn quant_id_at(s: Seq<char>, q: char, off: int) -> Option<u32> {
    if 0 <= off && off + 1 < s.len() && s[off] == q && is_digit(s[off + 1]) {
        Some(digit_value(s[off + 1]))
    } else {
        None
    }
}

pub fn class_string(cs: &Vec<char>) -> (r: String)
    ensures
        r@ == class_text(cs@),
{
    let mut r = String::new();
    if cs.len() == 0 {
        push_char(&mut r, '.');
        assert(r@ =~= seq!['.']);
        return r;
    }
    if cs.len() > 1 {
        push_char(&mut r, '[');
    }
    let ghost start = r@;
    let mut k: usize = 0;
    while k < cs.len()
        invariant
            k <= cs@.len(),
            r@ == start + cs@.subrange(0, k as int),
        decreases cs@.len() - k,
    {
        push_char(&mut r, cs[k]);
        assert(start + cs@.subrange(0, k + 1) =~= (start + cs@.subrange(0, k as int)).push(cs@[k as int]));
        k += 1;
    }
    assert(cs@.subrange(0, k as int) =~= cs@);
    if cs.len() > 1 {
        push_char(&mut r, ']');
        assert(r@ =~= seq!['['] + cs@ + seq![']']);
    } else {
        assert(r@ =~= cs@);
    }
    r
}

/// Reads the class character at the start of `txt`.
fn leading_class(s: &Vec<char>) -> (r: Vec<char>)
    requires
        s@.len() > 0,
    ensures
        r@ == class_of(s@[0]),
{
    let mut r: Vec<char> = Vec::new();
    if s[0] != '.' {
        r.push(s[0]);
    }
    assert(r@ =~= class_of(s@[0]));
    r
}

/// The id of the quantifier `q` at `off` of `s`.
fn quant_id(s: &Vec<char>, q: char, off: usize) -> (r: Option<u32>)
    ensures
        r == quant_id_at(s@, q, off as int),
        r matches Some(id) ==> id < 10,
{
    if off < s.len() && s.len() - off > 1 && s[off] == q {
        digit_of(s[off + 1])
    } else {
        None
    }
}

/// `class+id`: one or more characters of the class.
pub struct RegexPls {
    id: u32,
    char_set: Vec<char>,
}

impl RegexPls {
    #[verifier::type_invariant]
    spec fn inv(&self) -> bool {
        self.id < 10
    }

    /// The id and the class.
    pub closed spec fn view(&self) -> (u32, Seq<char>) {
        (self.id, self.char_set@)
    }

    pub fn new(id: u32, char_set: Vec<char>) -> (r: RegexPls)
        requires
            id < 10,
        ensures
            r@ == (id, char_set@),
    {
        RegexPls { id, char_set }
    }

    /// Reads `c+d` at the start of `txt`; the count is 3.
    pub fn from_str(txt: &str) -> (r: Option<(RegexPls, usize)>)
        ensures
            match (if txt@.len() > 0 { quant_id_at(txt@, '+', 1) } else { None }) {
                Some(id) => r matches Some((t, n)) && t@ == (id, class_of(txt@[0])) && n == 3,
                None => r is None,
            },
    {
        let s = chars_of(txt);
        if s.len() == 0 {
            return None;
        }
        RegexPls::from_char_set(txt, leading_class(&s), 1)
    }

    /// Reads `+d` at `off` of `txt`, for the class `char_set` read before it;
    /// the count is `off + 2`.
    pub fn from_char_set(txt: &str, char_set: Vec<char>, off: usize) -> (r: Option<(RegexPls, usize)>)
        ensures
            match quant_id_at(txt@, '+', off as int) {
                Some(id) => r matches Some((t, n)) && t@ == (id, char_set@) && n == off + 2,
                None => r is None,
            },
    {
        let s = chars_of(txt);
        let n = s.len();
        match quant_id(&s, '+', off) {
            Some(id) => Some((RegexPls { id, char_set }, off + 2)),
            None => None,
        }
    }

    pub fn get_id(&self) -> (r: u32)
        ensures
            r == self@.0,
    {
        self.id
    }

    pub fn get_expr(&self) -> (r: &str)
        ensures
            r@ == seq!['+'],
    {
        proof {
            reveal_strlit("+");
        }
        "+"
    }

    /// The symbol as it is written.
    pub fn to_string(&self) -> (r: String)
        ensures
            r@ == class_text(self@.1) + seq!['+'] + digit_text(self@.0),
    {
        proof {
            use_type_invariant(self);
        }
        let mut r = class_string(&self.char_set);
        push_char(&mut r, '+');
        let d = digit_string(self.id);
        r.append(d.as_str());
        r
    }
}

/// `class?id`: at most one character of the class.
pub struct RegexQst {
    id: u32,
    char_set: Vec<char>,
}

impl RegexQst {
    #[verifier::type_invariant]
    spec fn inv(&self) -> bool {
        self.id < 10
    }

    /// The id and the class.
    pub closed spec fn view(&self) -> (u32, Seq<char>) {
        (self.id, self.char_set@)
    }

    pub fn new(id: u32, char_set: Vec<char>) -> (r: RegexQst)
        requires
            id < 10,
        ensures
            r@ == (id, char_set@),
    {
        RegexQst { id, char_set }
    }

    /// Reads `c?d` at the start of `txt`; the count is 3.
    pub fn from_str(txt: &str) -> (r: Option<(RegexQst, usize)>)
        ensures
            match (if txt@.len() > 0 { quant_id_at(txt@, '?', 1) } else { None }) {
                Some(id) => r matches Some((t, n)) && t@ == (id, class_of(txt@[0])) && n == 3,
                None => r is None,
            },
    {
        let s = chars_of(txt);
        if s.len() == 0 {
            return None;
        }
        RegexQst::from_char_set(txt, leading_class(&s), 1)
    }

    /// Reads `?d` at `off` of `txt`, for the class `char_set` read before it;
    /// the count is `off + 2`.
    pub fn from_char_set(txt: &str, char_set: Vec<char>, off: usize) -> (r: Option<(RegexQst, usize)>)
        ensures
            match quant_id_at(txt@, '?', off as int) {
                Some(id) => r matches Some((t, n)) && t@ == (id, char_set@) && n == off + 2,
                None => r is None,
            },
    {
        let s = chars_of(txt);
        let n = s.len();
        match quant_id(&s, '?', off) {
            Some(id) => Some((RegexQst { id, char_set }, off + 2)),
            None => None,
        }
    }

    pub fn get_id(&self) -> (r: u32)
        ensures
            r == self@.0,
    {
        self.id
    }

    pub fn get_expr(&self) -> (r: &str)
        ensures
            r@ == seq!['?'],
    {
        proof {
            reveal_strlit("?");
        }
        "?"
    }

    /// The symbol as it is written.
    pub fn to_string(&self) -> (r: String)
        ensures
            r@ == class_text(self@.1) + seq!['?'] + digit_text(self@.0),
    {
        proof {
            use_type_invariant(self);
        }
        let mut r = class_string(&self.char_set);
        push_char(&mut r, '?');
        let d = digit_string(self.id);
        r.append(d.as_str());
        r
    }
}

/// How many times a repeated capture may match.
#[derive(Clone, Copy, Debug, PartialEq, Eq, Structural)]
pub enum RepeatRange {
    /// `{n}`
    Exactly(usize),
    /// `{n,}`
    AtLeast(usize),
    /// `{n,m}`
    Between(usize, usize),
}

/// The first index from `from` on where `c` stands in `s`.
pub open spec fn first_index(s: Seq<char>, c: char, from: int) -> Option<int>
    decreases s.len() - from,
{
    if from < 0 || from >= s.len() {
        None
    } else if s[from] == c {
        Some(from)
    } else {
        first_index(s, c, from + 1)
    }
}

pub open spec fn blank(s: Seq<char>) -> bool {
    forall|i: int| 0 <= i < s.len() ==> is_whitespace(#[trigger] s[i])
}

/// The range written between the braces: one number, a number and a comma,
/// or two numbers around a comma; whitespace around a number is ignored.
pub open spec fn parse_range(inner: Seq<char>) -> Option<RepeatRange> {
    match first_index(inner, ',', 0) {
        None => match number(inner) {
            Some(n) => Some(RepeatRange::Exactly(n)),
            None => None,
        },
        Some(k) => {
            let b = inner.subrange(k + 1, inner.len() as int);
            if first_index(b, ',', 0) is Some {
                None
            } else {
                match number(inner.subrange(0, k)) {
                    None => None,
                    Some(n) => if blank(b) {
                        Some(RepeatRange::AtLeast(n))
                    } else {
                        match number(b) {
                            Some(m) => Some(RepeatRange::Between(n, m)),
                            None => None,
                        }
                    },
                }
            }
        },
    }
}

/// A range in braces at `off` followed by a digit id: the range, the id and
/// the index just past the id.
pub open spec fn range_at(s: Seq<char>, off: int) -> Option<(RepeatRange, u32, int)> {
    if 0 <= off < s.len() && s[off] == '{' {
        match first_index(s, '}', off + 1) {
            None => None,
            Some(c) => match parse_range(s.subrange(off + 1, c)) {
                None => None,
                Some(rg) => if c + 1 < s.len() && is_digit(s[c + 1]) {
                    Some((rg, digit_value(s[c + 1]), c + 2))
                } else {
                    None
                },
            },
        }
    } else {
        None
    }
}

/// How a range is written.
pub open spec fn range_text(rg: RepeatRange) -> Seq<char> {
    match rg {
        RepeatRange::Exactly(n) => seq!['{'] + decimal_text(n as nat) + seq!['}'],
        RepeatRange::AtLeast(n) => seq!['{'] + decimal_text(n as nat) + seq![',', '}'],
        RepeatRange::Between(n, m) => seq!['{'] + decimal_text(n as nat) + seq![',', ' ']
            + decimal_text(m as nat) + seq!['}'],
    }
}

/// The first index of `c` within `from..to` of `s`.
fn find_in(s: &Vec<char>, c: char, from: usize, to: usize) -> (r: Option<usize>)
    requires
        from <= to <= s@.len(),
    ensures
        match first_index(s@.subrange(from as int, to as int), c, 0) {
            Some(k) => r == Some((k + from) as usize) && from <= k + from < to,
            None => r is None,
        },
{
    let ghost sub = s@.subrange(from as int, to as int);
    let mut k: usize = from;
    while k < to && s[k] != c
        invariant
            from <= k <= to <= s@.len(),
            sub == s@.subrange(from as int, to as int),
            first_index(sub, c, 0) == first_index(sub, c, k - from),
        decreases to - k,
    {
        k += 1;
    }
    if k < to {
        Some(k)
    } else {
        None
    }
}

fn is_blank(s: &Vec<char>, from: usize, to: usize) -> (r: bool)
    requires
        from <= to <= s@.len(),
    ensures
        r == blank(s@.subrange(from as int, to as int)),
{
    let mut k: usize = from;
    while k < to
        invariant
            from <= k <= to <= s@.len(),
            forall|i: int| from <= i < k ==> is_whitespace(#[trigger] s@[i]),
        decreases to - k,
    {
        if !is_whitespace_char(s[k]) {
            assert(s@.subrange(from as int, to as int)[k - from] == s@[k as int]);
            return false;
        }
        k += 1;
    }
    assert forall|i: int| 0 <= i < to - from implies is_whitespace(
        #[trigger] s@.subrange(from as int, to as int)[i],
    ) by {
        assert(s@.subrange(from as int, to as int)[i] == s@[from + i]);
    }
    true
}

/// Reads the range within `from..to` of `s`.
fn parse_range_in(s: &Vec<char>, from: usize, to: usize) -> (r: Option<RepeatRange>)
    requires
        from <= to <= s@.len(),
    ensures
        r == parse_range(s@.subrange(from as int, to as int)),
{
    let ghost inner = s@.subrange(from as int, to as int);
    match find_in(s, ',', from, to) {
        None => match parse_number(s, from, to) {
            Some(n) => Some(RepeatRange::Exactly(n)),
            None => None,
        },
        Some(k) => {
            assert(inner.subrange(k + 1 - from, inner.len() as int) =~= s@.subrange(k + 1, to as int));
            assert(inner.subrange(0, k - from) =~= s@.subrange(from as int, k as int));
            if find_in(s, ',', k + 1, to).is_some() {
                return None;
            }
            match parse_number(s, from, k) {
                None => None,
                Some(n) => {
                    if is_blank(s, k + 1, to) {
                        Some(RepeatRange::AtLeast(n))
                    } else {
                        match parse_number(s, k + 1, to) {
                            Some(m) => Some(RepeatRange::Between(n, m)),
                            None => None,
                        }
                    }
                },
            }
        },
    }
}

/// `class{m,n}id`: a run of characters of the class whose length lies in the range.
pub struct RegexRpt {
    id: u32,
    char_set: Vec<char>,
    range: RepeatRange,
}

impl RegexRpt {
    #[verifier::type_invariant]
    spec fn inv(&self) -> bool {
        self.id < 10
    }

    /// The id, the class and the range.
    pub closed spec fn view(&self) -> (u32, Seq<char>, RepeatRange) {
        (self.id, self.char_set@, self.range)
    }

    pub fn new(id: u32, char_set: Vec<char>, range: RepeatRange) -> (r: RegexRpt)
        requires
            id < 10,
        ensures
            r@ == (id, char_set@, range),
    {
        RegexRpt { id, char_set, range }
    }

    /// Reads `c{...}d` at the start of `txt`; the count runs past the id.
    pub fn from_str(txt: &str) -> (r: Option<(RegexRpt, usize)>)
        ensures
            match (if txt@.len() > 0 { range_at(txt@, 1) } else { None }) {
                Some((rg, id, e)) => r matches Some((t, n)) && t@ == (id, class_of(txt@[0]), rg)
                    && n == e,
                None => r is None,
            },
    {
        let s = chars_of(txt);
        if s.len() == 0 {
            return None;
        }
        RegexRpt::from_char_set(txt, leading_class(&s), 1)
    }

    /// Reads `{...}d` at `off` of `txt`, for the class `char_set` read before
    /// it; the count runs past the id.
    pub fn from_char_set(txt: &str, char_set: Vec<char>, off: usize) -> (r: Option<(RegexRpt, usize)>)
        ensures
            match range_at(txt@, off as int) {
                Some((rg, id, e)) => r matches Some((t, n)) && t@ == (id, char_set@, rg) && n == e,
                None => r is None,
            },
    {
        let s = chars_of(txt);
        let n = s.len();
        if off >= n || s[off] != '{' {
            return None;
        }
        let close = match find_in(&s, '}', off + 1, n) {
            Some(c) => c,
            None => {
                assert(s@.subrange(off + 1, n as int) =~= s@.subrange(off + 1, n as int));
                proof {
                    lemma_first_index_shift(s@, '}', off + 1);
                }
                return None;
            },
        };
        proof {
            lemma_first_index_shift(s@, '}', off + 1);
        }
        let range = match parse_range_in(&s, off + 1, close) {
            Some(rg) => rg,
            None => {
                return None;
            },
        };
        if close + 1 >= n {
            return None;
        }
        match digit_of(s[close + 1]) {
            Some(id) => Some((RegexRpt { id, char_set, range }, close + 2)),
            None => None,
        }
    }

    pub fn get_id(&self) -> (r: u32)
        ensures
            r == self@.0,
    {
        self.id
    }

    pub fn get_expr(&self) -> (r: &str)
        ensures
            r@ == seq!['{', '}'],
    {
        proof {
            reveal_strlit("{}");
        }
        "{}"
    }

    pub fn get_range(&self) -> (r: RepeatRange)
        ensures
            r == self@.2,
    {
        self.range
    }

    /// The symbol as it is written.
    pub fn to_string(&self) -> (r: String)
        ensures
            r@ == class_text(self@.1) + range_text(self@.2) + digit_text(self@.0),
    {
        proof {
            use_type_invariant(self);
        }
        let mut r = class_string(&self.char_set);
        let ghost c = r@;
        push_char(&mut r, '{');
        match self.range {
            RepeatRange::Exactly(n) => {
                r.append(decimal_string(n).as_str());
                push_char(&mut r, '}');
            },
            RepeatRange::AtLeast(n) => {
                r.append(decimal_string(n).as_str());
                push_char(&mut r, ',');
                push_char(&mut r, '}');
            },
            RepeatRange::Between(n, m) => {
                r.append(decimal_string(n).as_str());
                push_char(&mut r, ',');
                push_char(&mut r, ' ');
                r.append(decimal_string(m).as_str());
                push_char(&mut r, '}');
            },
        }
        assert(r@ =~= c + range_text(self.range));
        let d = digit_string(self.id);
        r.append(d.as_str());
        r
    }
}

/// Searching from `from` in `s` is searching from 0 in what follows `from`.
proof fn lemma_first_index_shift(s: Seq<char>, c: char, from: int)
    requires
        0 <= from <= s.len(),
    ensures
        first_index(s, c, from) == match first_index(s.subrange(from, s.len() as int), c, 0) {
            Some(k) => Some(k + from),
            None => None::<int>,
        },
{
    lemma_first_index_shift_at(s, c, from, from);
}

proof fn lemma_first_index_shift_at(s: Seq<char>, c: char, from: int, k: int)
    requires
        0 <= from <= k <= s.len(),
    ensures
        first_index(s, c, k) == match first_index(s.subrange(from, s.len() as int), c, k - from) {
            Some(j) => Some(j + from),
            None => None::<int>,
        },
    decreases s.len() - k,
{
    if k < s.len() {
        lemma_first_index_shift_at(s, c, from, k + 1);
    }
}

} // verus!
