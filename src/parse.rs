//! The filter grammar: its definition over character sequences, and a parser
//! proved to follow it.
use crate::filter::{Completion, Cond, Condition, Context, Tag, Text};
use crate::text::{alnum, decimal, decimal_text, is_alphanumeric, is_space, is_space_char};
use std::rc::Rc;
use vstd::prelude::*;

verus! {

/// The whitespace that may separate the parts of a filter.
pub open spec fn is_gap(c: char) -> bool {
    c == ' ' || c == '\t' || c == '\r' || c == '\n'
}

/// A character that may stand in a tag or context name.
pub open spec fn is_ident(c: char) -> bool {
    alnum(c) || c == '.' || c == '_' || c == '-'
}

/// The first position from `i` on that does not hold gap whitespace.
pub open spec fn gap_end(s: Seq<char>, i: int) -> int
    decreases s.len() - i,
{
    if 0 <= i < s.len() && is_gap(s[i]) {
        gap_end(s, i + 1)
    } else {
        i
    }
}

/// The first position from `i` on that does not hold a name character.
pub open spec fn ident_end(s: Seq<char>, i: int) -> int
    decreases s.len() - i,
{
    if 0 <= i < s.len() && is_ident(s[i]) {
        ident_end(s, i + 1)
    } else {
        i
    }
}

/// The first position from `i` on that holds `"`, or the end of `s`.
pub open spec fn quote_end(s: Seq<char>, i: int) -> int
    decreases s.len() - i,
{
    if 0 <= i < s.len() && s[i] != '"' {
        quote_end(s, i + 1)
    } else {
        i
    }
}

pub proof fn lemma_gap_end(s: Seq<char>, i: int)
    requires
        0 <= i <= s.len(),
    ensures
        i <= gap_end(s, i) <= s.len(),
    decreases s.len() - i,
{
    if i < s.len() && is_gap(s[i]) {
        lemma_gap_end(s, i + 1);
    }
}

/// The three letters at `i` spell `kw` (lower case) or `up` (upper case), letter by letter.
pub open spec fn word3_at(s: Seq<char>, i: int, kw: Seq<char>, up: Seq<char>) -> bool {
    0 <= i && i + 3 <= s.len() && forall|k: int| 0 <= k < 3 ==> (s[i + k] == kw[k] || s[i + k] == up[k])
}

/// The keyword `and`, in any case, starts at `i`.
pub open spec fn and_at(s: Seq<char>, i: int) -> bool {
    word3_at(s, i, seq!['a', 'n', 'd'], seq!['A', 'N', 'D'])
}

/// The keyword `not`, in any case, starts at `i`.
pub open spec fn not_at(s: Seq<char>, i: int) -> bool {
    word3_at(s, i, seq!['n', 'o', 't'], seq!['N', 'O', 'T'])
}

/// The keyword `or`, in any case, starts at `i`.
pub open spec fn or_at(s: Seq<char>, i: int) -> bool {
    0 <= i && i + 2 <= s.len() && (s[i] == 'o' || s[i] == 'O') && (s[i + 1] == 'r' || s[i + 1] == 'R')
}

/// The later of two positions.
pub open spec fn later(a: int, b: int) -> int {
    if a >= b { a } else { b }
}

/// An operand at `i`: the condition it denotes and the position after it, if
/// there is one; and the furthest position where parsing it went wrong (`i`
/// itself when nothing did). A parenthesized expression opens with `(` and
/// closes with `)`; a text is closed by a second `"`.
pub open spec fn operand(s: Seq<char>, i: int) -> (Option<(Cond, int)>, int)
    decreases s.len() - i, 0int when 0 <= i <= s.len()
{
    if i >= s.len() {
        (None, i)
    } else if s[i] == '(' {
        let (r, f) = expression(s, i + 1);
        match r {
            Some((c, k)) => if k < s.len() && s[k] == ')' { (Some((c, k + 1)), f) } else { (None, later(f, k)) },
            None => (None, f),
        }
    } else if s[i] == '[' {
        if i + 3 > s.len() {
            (None, s.len() as int)
        } else if s[i + 1] == 'x' && s[i + 2] == ']' {
            (Some((Cond::Completion(true), i + 3)), i)
        } else if s[i + 1] == ' ' && s[i + 2] == ']' {
            (Some((Cond::Completion(false), i + 3)), i)
        } else {
            (None, i)
        }
    } else if s[i] == '#' || s[i] == '@' {
        let e = ident_end(s, i + 1);
        if e > i + 1 {
            let name = s.subrange(i + 1, e);
            (Some((if s[i] == '#' { Cond::Tag(name) } else { Cond::Context(name) }, e)), i)
        } else {
            (None, i + 1)
        }
    } else if s[i] == '"' {
        let e = quote_end(s, i + 1);
        if e >= s.len() {
            (None, s.len() as int)
        } else if e > i + 1 {
            (Some((Cond::Text(s.subrange(i + 1, e)), e + 1)), i)
        } else {
            (None, i + 1)
        }
    } else {
        (None, i)
    }
}

/// A factor at `i`: `not` before a factor, or else an operand; with the
/// furthest position where parsing went wrong.
pub open spec fn factor(s: Seq<char>, i: int) -> (Option<(Cond, int)>, int)
    decreases s.len() - i, 1int when 0 <= i <= s.len()
{
    if not_at(s, i) {
        proof { lemma_gap_end(s, i + 3); }
        let (r, f) = factor(s, gap_end(s, i + 3));
        match r {
            Some((c, k)) => (Some((Cond::Not(Box::new(c)), k)), f),
            None => {
                let (r2, f2) = operand(s, i);
                (r2, later(f, f2))
            },
        }
    } else {
        operand(s, i)
    }
}

/// The rest of a term after `acc` ends at `i`, with `far` the furthest failure
/// so far: each further `and` and factor is joined on the left; the term ends
/// before the first `and` not followed by a factor. Gives the term, where it
/// ends, and the furthest failure. (A factor never ends where it starts, so
/// the position grows.)
pub open spec fn term_rest(s: Seq<char>, i: int, acc: Cond, far: int) -> (Cond, int, int)
    decreases s.len() - i, 2int when 0 <= i <= s.len()
{
    proof { lemma_gap_end(s, i); }
    let p = gap_end(s, i);
    if and_at(s, p) {
        proof { lemma_gap_end(s, p + 3); }
        let (r, f) = factor(s, gap_end(s, p + 3));
        match r {
            Some((c, k)) => if i < k <= s.len() {
                term_rest(s, k, Cond::And(Box::new(acc), Box::new(c)), later(far, f))
            } else {
                (acc, i, later(far, f))
            },
            None => (acc, i, later(far, f)),
        }
    } else {
        (acc, i, far)
    }
}

/// A term at `i`: factors joined by `and`.
pub open spec fn term(s: Seq<char>, i: int) -> (Option<(Cond, int)>, int)
    decreases s.len() - i, 3int when 0 <= i <= s.len()
{
    let (r, f) = factor(s, i);
    match r {
        Some((c, k)) => if i < k <= s.len() {
            let (c2, k2, f2) = term_rest(s, k, c, f);
            (Some((c2, k2)), f2)
        } else {
            (None, f)
        },
        None => (None, f),
    }
}

/// The rest of an expression after `acc` ends at `i`, as `term_rest` with `or`.
pub open spec fn expression_rest(s: Seq<char>, i: int, acc: Cond, far: int) -> (Cond, int, int)
    decreases s.len() - i, 4int when 0 <= i <= s.len()
{
    proof { lemma_gap_end(s, i); }
    let p = gap_end(s, i);
    if or_at(s, p) {
        proof { lemma_gap_end(s, p + 2); }
        let (r, f) = term(s, gap_end(s, p + 2));
        match r {
            Some((c, k)) => if i < k <= s.len() {
                expression_rest(s, k, Cond::Or(Box::new(acc), Box::new(c)), later(far, f))
            } else {
                (acc, i, later(far, f))
            },
            None => (acc, i, later(far, f)),
        }
    } else {
        (acc, i, far)
    }
}

/// An expression at `i`: terms joined by `or`.
pub open spec fn expression(s: Seq<char>, i: int) -> (Option<(Cond, int)>, int)
    decreases s.len() - i, 5int when 0 <= i <= s.len()
{
    let (r, f) = term(s, i);
    match r {
        Some((c, k)) => if i < k <= s.len() {
            let (c2, k2, f2) = expression_rest(s, k, c, f);
            (Some((c2, k2)), f2)
        } else {
            (None, f)
        },
        None => (None, f),
    }
}

/// `s` holds only whitespace (or nothing).
pub open spec fn blank(s: Seq<char>) -> bool {
    forall|k: int| 0 <= k < s.len() ==> is_space(#[trigger] s[k])
}

/// The condition that the filter text `s` denotes, if it is well formed.
pub open spec fn parse_spec(s: Seq<char>) -> Option<Cond> {
    if blank(s) {
        Some(Cond::AlwaysTrue)
    } else {
        match expression(s, 0).0 {
            Some((c, k)) => if k == s.len() { Some(c) } else { None },
            None => None,
        }
    }
}

/// Parsing is deterministic: a filter text that parses denotes one condition,
/// so two parses of the same text give structurally equal trees.
pub proof fn lemma_parse_deterministic(s: Seq<char>, t: Seq<char>)
    requires
        s == t,
        parse_spec(s) is Some,
    ensures
        parse_spec(t) is Some,
        parse_spec(s)->Some_0 == parse_spec(t)->Some_0,
{
}

/// `r` is the result `m` of the grammar, with an executable condition.
pub open spec fn parsed_as(r: Option<(Condition, usize)>, m: Option<(Cond, int)>) -> bool {
    match (r, m) {
        (Some((c, k)), Some((mc, mk))) => c@ == mc && k as int == mk,
        (None, None) => true,
        _ => false,
    }
}

/// The characters of `s`.
pub fn chars_of(s: &str) -> (r: Vec<char>)
    ensures
        r@ == s@,
{
    let n = s.unicode_len();
    let mut out: Vec<char> = Vec::new();
    let mut i: usize = 0;
    while i < n
        invariant
            n == s@.len(),
            i <= n,
            out@ == s@.subrange(0, i as int),
        decreases n - i,
    {
        out.push(s.get_char(i));
        i = i + 1;
        assert(out@ =~= s@.subrange(0, i as int));
    }
    assert(out@ =~= s@);
    out
}

fn skip_gap(cs: &Vec<char>, i: usize) -> (r: usize)
    requires
        i <= cs@.len(),
    ensures
        r as int == gap_end(cs@, i as int),
        i <= r <= cs@.len(),
    decreases cs@.len() - i,
{
    if i < cs.len() && (cs[i] == ' ' || cs[i] == '\t' || cs[i] == '\r' || cs[i] == '\n') {
        skip_gap(cs, i + 1)
    } else {
        i
    }
}

fn skip_ident(cs: &Vec<char>, i: usize) -> (r: usize)
    requires
        i <= cs@.len(),
    ensures
        r as int == ident_end(cs@, i as int),
        i <= r <= cs@.len(),
    decreases cs@.len() - i,
{
    if i < cs.len() && (is_alphanumeric(cs[i]) || cs[i] == '.' || cs[i] == '_' || cs[i] == '-') {
        skip_ident(cs, i + 1)
    } else {
        i
    }
}

fn skip_to_quote(cs: &Vec<char>, i: usize) -> (r: usize)
    requires
        i <= cs@.len(),
    ensures
        r as int == quote_end(cs@, i as int),
        i <= r <= cs@.len(),
    decreases cs@.len() - i,
{
    if i < cs.len() && cs[i] != '"' {
        skip_to_quote(cs, i + 1)
    } else {
        i
    }
}

fn is_and_at(cs: &Vec<char>, i: usize) -> (r: bool)
    ensures
        r == and_at(cs@, i as int),
{
    let r = i <= cs.len() && 3 <= cs.len() - i && (cs[i] == 'a' || cs[i] == 'A') && (cs[i + 1] == 'n' || cs[i + 1] == 'N')
        && (cs[i + 2] == 'd' || cs[i + 2] == 'D');
    proof {
        if r {
            assert forall|k: int| 0 <= k < 3 implies (cs@[i + k] == seq!['a', 'n', 'd'][k] || cs@[i + k] == seq!['A', 'N', 'D'][k]) by {
                if k == 1 {} else if k == 2 {}
            }
        } else if and_at(cs@, i as int) {
            assert(cs@[i + 0] == seq!['a', 'n', 'd'][0] || cs@[i + 0] == seq!['A', 'N', 'D'][0]);
            assert(cs@[i + 1] == seq!['a', 'n', 'd'][1] || cs@[i + 1] == seq!['A', 'N', 'D'][1]);
            assert(cs@[i + 2] == seq!['a', 'n', 'd'][2] || cs@[i + 2] == seq!['A', 'N', 'D'][2]);
        }
    }
    r
}

fn is_not_at(cs: &Vec<char>, i: usize) -> (r: bool)
    ensures
        r == not_at(cs@, i as int),
{
    let r = i <= cs.len() && 3 <= cs.len() - i && (cs[i] == 'n' || cs[i] == 'N') && (cs[i + 1] == 'o' || cs[i + 1] == 'O')
        && (cs[i + 2] == 't' || cs[i + 2] == 'T');
    proof {
        if r {
            assert forall|k: int| 0 <= k < 3 implies (cs@[i + k] == seq!['n', 'o', 't'][k] || cs@[i + k] == seq!['N', 'O', 'T'][k]) by {
                if k == 1 {} else if k == 2 {}
            }
        } else if not_at(cs@, i as int) {
            assert(cs@[i + 0] == seq!['n', 'o', 't'][0] || cs@[i + 0] == seq!['N', 'O', 'T'][0]);
            assert(cs@[i + 1] == seq!['n', 'o', 't'][1] || cs@[i + 1] == seq!['N', 'O', 'T'][1]);
            assert(cs@[i + 2] == seq!['n', 'o', 't'][2] || cs@[i + 2] == seq!['N', 'O', 'T'][2]);
        }
    }
    r
}

fn is_or_at(cs: &Vec<char>, i: usize) -> (r: bool)
    ensures
        r == or_at(cs@, i as int),
{
    i <= cs.len() && 2 <= cs.len() - i && (cs[i] == 'o' || cs[i] == 'O') && (cs[i + 1] == 'r' || cs[i + 1] == 'R')
}

/// `r` is the outcome `m` of a grammar rule: the same result and the same
/// furthest failure.
pub open spec fn step_as(r: (Option<(Condition, usize)>, usize), m: (Option<(Cond, int)>, int)) -> bool {
    parsed_as(r.0, m.0) && r.1 as int == m.1
}

fn later_of(a: usize, b: usize) -> (r: usize)
    ensures
        r as int == later(a as int, b as int),
{
    if a >= b { a } else { b }
}

fn parse_operand(src: &str, cs: &Vec<char>, i: usize) -> (r: (Option<(Condition, usize)>, usize))
    requires
        cs@ == src@,
        i <= cs@.len(),
    ensures
        step_as(r, operand(cs@, i as int)),
        r.1 <= cs@.len(),
        r.0 is Some ==> i < r.0.unwrap().1 <= cs@.len(),
    decreases cs@.len() - i, 0int,
{
    let n = cs.len();
    if i >= n {
        return (None, i);
    }
    let c = cs[i];
    if c == '(' {
        let (r, f) = parse_expression(src, cs, i + 1);
        match r {
            Some((cond, k)) => {
                if k < n && cs[k] == ')' {
                    (Some((cond, k + 1)), f)
                } else {
                    (None, later_of(f, k))
                }
            },
            None => (None, f),
        }
    } else if c == '[' {
        if n - i < 3 {
            (None, n)
        } else if cs[i + 1] == 'x' && cs[i + 2] == ']' {
            (Some((Condition::Completion(Completion::new(true)), i + 3)), i)
        } else if cs[i + 1] == ' ' && cs[i + 2] == ']' {
            (Some((Condition::Completion(Completion::new(false)), i + 3)), i)
        } else {
            (None, i)
        }
    } else if c == '#' || c == '@' {
        let e = skip_ident(cs, i + 1);
        if e > i + 1 {
            let name = src.substring_char(i + 1, e);
            if c == '#' {
                (Some((Condition::Tag(Tag::new(name)), e)), i)
            } else {
                (Some((Condition::Context(Context::new(name)), e)), i)
            }
        } else {
            (None, i + 1)
        }
    } else if c == '"' {
        let e = skip_to_quote(cs, i + 1);
        if e >= n {
            (None, n)
        } else if e > i + 1 {
            let text = src.substring_char(i + 1, e);
            (Some((Condition::Text(Text::new(text)), e + 1)), i)
        } else {
            (None, i + 1)
        }
    } else {
        (None, i)
    }
}

fn parse_factor(src: &str, cs: &Vec<char>, i: usize) -> (r: (Option<(Condition, usize)>, usize))
    requires
        cs@ == src@,
        i <= cs@.len(),
    ensures
        step_as(r, factor(cs@, i as int)),
        r.1 <= cs@.len(),
        r.0 is Some ==> i < r.0.unwrap().1 <= cs@.len(),
    decreases cs@.len() - i, 1int,
{
    let n = cs.len();
    if is_not_at(cs, i) {
        let j = skip_gap(cs, i + 3);
        let (r, f) = parse_factor(src, cs, j);
        match r {
            Some((c, k)) => (Some((Condition::Not(Rc::new(c)), k)), f),
            None => {
                let (r2, f2) = parse_operand(src, cs, i);
                (r2, later_of(f, f2))
            },
        }
    } else {
        parse_operand(src, cs, i)
    }
}

fn parse_term(src: &str, cs: &Vec<char>, i: usize) -> (r: (Option<(Condition, usize)>, usize))
    requires
        cs@ == src@,
        i <= cs@.len(),
    ensures
        step_as(r, term(cs@, i as int)),
        r.1 <= cs@.len(),
        r.0 is Some ==> i < r.0.unwrap().1 <= cs@.len(),
    decreases cs@.len() - i, 3int,
{
    let (first, f0) = parse_factor(src, cs, i);
    let (first, k) = match first {
        Some(x) => x,
        None => return (None, f0),
    };
    let ghost goal = term_rest(cs@, k as int, first@, f0 as int);
    let mut acc = first;
    let mut pos = k;
    let mut far = f0;
    loop
        invariant
            cs@ == src@,
            i < pos <= cs@.len(),
            far <= cs@.len(),
            term_rest(cs@, pos as int, acc@, far as int) == goal,
        ensures
            goal == (acc@, pos as int, far as int),
        decreases cs@.len() - pos,
    {
        let n = cs.len();
        let p = skip_gap(cs, pos);
        if !is_and_at(cs, p) {
            assert(term_rest(cs@, pos as int, acc@, far as int) == (acc@, pos as int, far as int));
            break;
        }
        let q = skip_gap(cs, p + 3);
        let (r, f) = parse_factor(src, cs, q);
        far = later_of(far, f);
        match r {
            Some((c, k2)) => {
                acc = Condition::And(Rc::new(acc), Rc::new(c));
                pos = k2;
            },
            None => {
                assert(goal == (acc@, pos as int, far as int));
                break;
            },
        }
    }
    (Some((acc, pos)), far)
}

fn parse_expression(src: &str, cs: &Vec<char>, i: usize) -> (r: (Option<(Condition, usize)>, usize))
    requires
        cs@ == src@,
        i <= cs@.len(),
    ensures
        step_as(r, expression(cs@, i as int)),
        r.1 <= cs@.len(),
        r.0 is Some ==> i < r.0.unwrap().1 <= cs@.len(),
    decreases cs@.len() - i, 5int,
{
    let (first, f0) = parse_term(src, cs, i);
    let (first, k) = match first {
        Some(x) => x,
        None => return (None, f0),
    };
    let ghost goal = expression_rest(cs@, k as int, first@, f0 as int);
    let mut acc = first;
    let mut pos = k;
    let mut far = f0;
    loop
        invariant
            cs@ == src@,
            i < pos <= cs@.len(),
            far <= cs@.len(),
            expression_rest(cs@, pos as int, acc@, far as int) == goal,
        ensures
            goal == (acc@, pos as int, far as int),
        decreases cs@.len() - pos,
    {
        let n = cs.len();
        let p = skip_gap(cs, pos);
        if !is_or_at(cs, p) {
            assert(expression_rest(cs@, pos as int, acc@, far as int) == (acc@, pos as int, far as int));
            break;
        }
        let q = skip_gap(cs, p + 2);
        let (r, f) = parse_term(src, cs, q);
        far = later_of(far, f);
        match r {
            Some((c, k2)) => {
                acc = Condition::Or(Rc::new(acc), Rc::new(c));
                pos = k2;
            },
            None => {
                assert(goal == (acc@, pos as int, far as int));
                break;
            },
        }
    }
    (Some((acc, pos)), far)
}

/// How a filter text fails to parse.
#[derive(PartialEq, Eq, Structural, Clone, Copy, Debug)]
pub enum ParseErrorKind {
    /// The text ended before a construct was complete.
    UnexpectedEnd,
    /// A character was found where it cannot stand.
    UnexpectedToken,
}

/// What the parser expected where it failed.
#[derive(PartialEq, Eq, Structural, Clone, Copy, Debug)]
pub enum Expected {
    /// A tag, context, text, completion marker, parenthesis or `not`.
    Operand,
    /// `and`, `or`, or the end of the text.
    OperatorOrEnd,
}

/// A parse failure: its kind, what was expected, and the character position
/// where the problem lies.
#[derive(PartialEq, Eq, Structural, Clone, Copy, Debug)]
pub struct ParseError {
    pub kind: ParseErrorKind,
    pub expected: Expected,
    pub position: usize,
}

/// The error for a text that does not parse. When no expression starts the
/// text, or a connective is not followed by what it needs, the error lies at
/// the furthest position where parsing went wrong, and is an early end when
/// that position is the end of the text. Otherwise the text after the longest
/// leading expression is unexpected.
pub open spec fn error_spec(s: Seq<char>) -> ParseError {
    let (r, f) = expression(s, 0);
    let stop = match r {
        Some((_, k)) => k,
        None => -1,
    };
    if f > stop {
        ParseError {
            kind: if f == s.len() { ParseErrorKind::UnexpectedEnd } else { ParseErrorKind::UnexpectedToken },
            expected: Expected::Operand,
            position: f as usize,
        }
    } else {
        ParseError { kind: ParseErrorKind::UnexpectedToken, expected: Expected::OperatorOrEnd, position: stop as usize }
    }
}

/// The wording of an expected construct.
pub open spec fn expected_words(e: Expected) -> Seq<char> {
    match e {
        Expected::Operand => "an operand"@,
        Expected::OperatorOrEnd => "`and`, `or` or the end of the filter"@,
    }
}

/// The message of a parse error.
pub open spec fn message_spec(e: ParseError) -> Seq<char> {
    (match e.kind {
        ParseErrorKind::UnexpectedEnd => "Parsing error: input ended at position "@,
        ParseErrorKind::UnexpectedToken => "Parsing error: unexpected character at position "@,
    }) + decimal(e.position as nat) + ": expected "@ + expected_words(e.expected)
}

impl ParseError {
    /// A one-line description of the error.
    pub fn message(&self) -> (r: String)
        ensures
            r@ == message_spec(*self),
    {
        let head = match self.kind {
            ParseErrorKind::UnexpectedEnd => String::from_str("Parsing error: input ended at position "),
            ParseErrorKind::UnexpectedToken => String::from_str("Parsing error: unexpected character at position "),
        };
        let what = match self.expected {
            Expected::Operand => "an operand",
            Expected::OperatorOrEnd => "`and`, `or` or the end of the filter",
        };
        let pos = decimal_text(self.position as u128);
        let r = head.concat(pos.as_str()).concat(": expected ").concat(what);
        proof {
            reveal_strlit("Parsing error: input ended at position ");
            reveal_strlit("Parsing error: unexpected character at position ");
            reveal_strlit(": expected ");
            reveal_strlit("an operand");
            reveal_strlit("`and`, `or` or the end of the filter");
        }
        r
    }
}

fn is_blank(cs: &Vec<char>) -> (r: bool)
    ensures
        r == blank(cs@),
{
    let mut i: usize = 0;
    while i < cs.len()
        invariant
            i <= cs@.len(),
            forall|k: int| 0 <= k < i ==> is_space(#[trigger] cs@[k]),
        decreases cs@.len() - i,
    {
        if !is_space_char(cs[i]) {
            return false;
        }
        i = i + 1;
    }
    true
}

/// The condition that the filter text `input` denotes, or why it has none.
pub fn parse_condition(input: &str) -> (r: Result<Condition, ParseError>)
    ensures
        r is Ok <==> parse_spec(input@) is Some,
        r is Ok ==> r->Ok_0@ == parse_spec(input@)->Some_0,
        r is Err ==> r->Err_0 == error_spec(input@),
{
    let cs = chars_of(input);
    if is_blank(&cs) {
        return Ok(Condition::AlwaysTrue);
    }
    let n = cs.len();
    let (r, f) = parse_expression(input, &cs, 0);
    match r {
        Some((c, k)) => {
            if k == n {
                return Ok(c);
            }
            if f > k {
                let kind = if f == n { ParseErrorKind::UnexpectedEnd } else { ParseErrorKind::UnexpectedToken };
                Err(ParseError { kind, expected: Expected::Operand, position: f })
            } else {
                Err(ParseError { kind: ParseErrorKind::UnexpectedToken, expected: Expected::OperatorOrEnd, position: k })
            }
        },
        None => {
            let kind = if f == n { ParseErrorKind::UnexpectedEnd } else { ParseErrorKind::UnexpectedToken };
            Err(ParseError { kind, expected: Expected::Operand, position: f })
        },
    }
}

} // verus!
