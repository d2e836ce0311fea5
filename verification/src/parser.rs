//! The markup parser: an indentation-structured grammar for component
//! templates and stylesheets.
//!
//! Grammar, per physical line (LF line endings): leading spaces, whose count
//! must be a multiple of the 4-column indentation unit; an identifier (a
//! letter or `_`, then letters, digits, `_` or `-`); and an optional
//! attribute block `{ key: value, ... }` whose contents may span lines.
//! Values are string literals in double quotes (no escapes, no newlines),
//! integer literals, decimal literals such as `2.5`, percentage literals such
//! as `69%`, the keyword `default`, and parenthesised tuples of values.
//! Numeric literals may carry a leading `-`; a magnitude beyond `i64::MAX`
//! is an invalid literal. Blank lines are ignored. Children of a component
//! are the following lines indented exactly one unit deeper.

use vstd::prelude::*;
use vstd::string::StrSliceExecFns;
use crate::error::{ParseErrorKind, ParserError, ParserErrorSpec};
use crate::value::{Decimal, Value, ValueSpec};
use crate::error::Error;
use crate::template::{attr_seq_view, AttrSpec, Attribute, AttributeList, ComponentTemplate, Style, StyleComponent, StyleRuleSpec, Template, TemplateSpec};

verus! {

/// The parser for markup documents; see [`crate::ComponentTemplate::from_str`]
/// and [`crate::Style::from_str`] for the two document shapes it accepts.
pub struct TemplateParser;

pub open spec fn is_space(c: char) -> bool {
    c == ' '
}

pub open spec fn is_newline(c: char) -> bool {
    c == '\n'
}

pub open spec fn is_digit_char(c: char) -> bool {
    '0' <= c && c <= '9'
}

pub open spec fn is_ident_start(c: char) -> bool {
    ('a' <= c && c <= 'z') || ('A' <= c && c <= 'Z') || c == '_'
}

pub open spec fn is_ident_char(c: char) -> bool {
    is_ident_start(c) || is_digit_char(c) || c == '-'
}

pub open spec fn digit_val(c: char) -> int {
    c as u32 - '0' as u32
}

/// Length of the run of spaces starting at `pos`.
pub open spec fn spec_spaces_len(s: Seq<char>, pos: int) -> int
    decreases s.len() - pos,
{
    if 0 <= pos < s.len() && is_space(s[pos]) {
        1 + spec_spaces_len(s, pos + 1)
    } else {
        0
    }
}

/// Length of the run of spaces and newlines starting at `pos`.
pub open spec fn spec_blank_len(s: Seq<char>, pos: int) -> int
    decreases s.len() - pos,
{
    if 0 <= pos < s.len() && (is_space(s[pos]) || is_newline(s[pos])) {
        1 + spec_blank_len(s, pos + 1)
    } else {
        0
    }
}

/// Number of newlines among the `spec_blank_len` characters at `pos`.
pub open spec fn spec_blank_newlines(s: Seq<char>, pos: int) -> int
    decreases s.len() - pos,
{
    if 0 <= pos < s.len() && (is_space(s[pos]) || is_newline(s[pos])) {
        (if is_newline(s[pos]) {
            1int
        } else {
            0int
        }) + spec_blank_newlines(s, pos + 1)
    } else {
        0
    }
}

/// Length of the run of identifier characters starting at `pos`.
pub open spec fn spec_ident_len(s: Seq<char>, pos: int) -> int
    decreases s.len() - pos,
{
    if 0 <= pos < s.len() && is_ident_char(s[pos]) {
        1 + spec_ident_len(s, pos + 1)
    } else {
        0
    }
}

/// Length of the run of digits starting at `pos`.
pub open spec fn spec_digits_len(s: Seq<char>, pos: int) -> int
    decreases s.len() - pos,
{
    if 0 <= pos < s.len() && is_digit_char(s[pos]) {
        1 + spec_digits_len(s, pos + 1)
    } else {
        0
    }
}

/// The digit run `s[pos .. end)` read left to right into an accumulator,
/// `None` when the value would exceed `i64::MAX`.
pub open spec fn spec_digits_value(s: Seq<char>, pos: int, end: int, acc: int) -> Option<int>
    decreases end - pos,
{
    if 0 <= pos < end && end <= s.len() {
        let acc2 = acc * 10 + digit_val(s[pos]);
        if acc2 > i64::MAX as int {
            Option::None
        } else {
            spec_digits_value(s, pos + 1, end, acc2)
        }
    } else {
        Option::Some(acc)
    }
}

/// Distance from `pos` to the next `"` or newline (or the end of `s`).
pub open spec fn spec_quote_dist(s: Seq<char>, pos: int) -> int
    decreases s.len() - pos,
{
    if 0 <= pos < s.len() && s[pos] != '"' && !is_newline(s[pos]) {
        1 + spec_quote_dist(s, pos + 1)
    } else {
        0
    }
}

/// A numeric literal at `pos`: integer, decimal or percentage, with an
/// optional leading `-`. Yields the value and the count of characters
/// consumed; `None` is an invalid literal.
pub open spec fn spec_parse_number(s: Seq<char>, pos: int) -> Option<(ValueSpec, int)> {
    let neg = 0 <= pos < s.len() && s[pos] == '-';
    let d0 = if neg {
        pos + 1
    } else {
        pos
    };
    let dn = spec_digits_len(s, d0);
    if dn == 0 {
        Option::None
    } else {
        let dend = d0 + dn;
        match spec_digits_value(s, d0, dend, 0) {
            Option::None => Option::None,
            Option::Some(v) => if dend < s.len() && s[dend] == '.' {
                let fl = spec_digits_len(s, dend + 1);
                if fl == 0 || fl > u32::MAX as int {
                    Option::None
                } else {
                    match spec_digits_value(s, dend + 1, dend + 1 + fl, v) {
                        Option::None => Option::None,
                        Option::Some(m) => Option::Some(
                            (
                                ValueSpec::Float {
                                    mantissa: if neg {
                                        -m
                                    } else {
                                        m
                                    },
                                    scale: fl,
                                },
                                dend + 1 + fl - pos,
                            ),
                        ),
                    }
                }
            } else if dend < s.len() && s[dend] == '%' {
                Option::Some(
                    (
                        ValueSpec::Percentage(
                            if neg {
                                -v
                            } else {
                                v
                            },
                        ),
                        dend + 1 - pos,
                    ),
                )
            } else {
                Option::Some(
                    (
                        ValueSpec::Integer(
                            if neg {
                                -v
                            } else {
                                v
                            },
                        ),
                        dend - pos,
                    ),
                )
            },
        }
    }
}

fn is_space_c(c: char) -> (r: bool)
    ensures
        r == is_space(c),
{
    c == ' '
}

fn is_newline_c(c: char) -> (r: bool)
    ensures
        r == is_newline(c),
{
    c == '\n'
}

fn is_digit_c(c: char) -> (r: bool)
    ensures
        r == is_digit_char(c),
{
    '0' <= c && c <= '9'
}

fn is_ident_start_c(c: char) -> (r: bool)
    ensures
        r == is_ident_start(c),
{
    ('a' <= c && c <= 'z') || ('A' <= c && c <= 'Z') || c == '_'
}

fn is_ident_c(c: char) -> (r: bool)
    ensures
        r == is_ident_char(c),
{
    is_ident_start_c(c) || is_digit_c(c) || c == '-'
}

fn skip_spaces(s: &str, len: usize, pos: usize) -> (r: usize)
    requires
        len == s@.len(),
        pos <= len,
    ensures
        pos <= r <= len,
        r - pos == spec_spaces_len(s@, pos as int),
    decreases len - pos,
{
    let mut p = pos;
    while p < len && is_space_c(s.get_char(p))
        invariant
            len == s@.len(),
            pos <= p <= len,
            spec_spaces_len(s@, pos as int) == (p - pos) + spec_spaces_len(s@, p as int),
        decreases len - p,
    {
        p = p + 1;
    }
    p
}

/// Skips spaces and newlines, counting physical lines passed.
fn skip_blank(s: &str, len: usize, pos: usize, line: usize) -> (r: (usize, usize))
    requires
        len == s@.len(),
        pos <= len,
        line + (len - pos) <= usize::MAX,
    ensures
        pos <= r.0 <= len,
        r.0 - pos == spec_blank_len(s@, pos as int),
        r.1 - line == spec_blank_newlines(s@, pos as int),
        line <= r.1,
        r.1 - line <= r.0 - pos,
        r.1 + (len - r.0) <= usize::MAX,
    decreases len - pos,
{
    let mut p = pos;
    let mut l = line;
    while p < len && (is_space_c(s.get_char(p)) || is_newline_c(s.get_char(p)))
        invariant
            len == s@.len(),
            pos <= p <= len,
            line <= l,
            l - line <= p - pos,
            l + (len - p) <= usize::MAX,
            spec_blank_len(s@, pos as int) == (p - pos) + spec_blank_len(s@, p as int),
            spec_blank_newlines(s@, pos as int) == (l - line) + spec_blank_newlines(
                s@,
                p as int,
            ),
        decreases len - p,
    {
        if is_newline_c(s.get_char(p)) {
            l = l + 1;
        }
        p = p + 1;
    }
    (p, l)
}

fn scan_ident(s: &str, len: usize, pos: usize) -> (r: usize)
    requires
        len == s@.len(),
        pos <= len,
    ensures
        pos <= r <= len,
        r - pos == spec_ident_len(s@, pos as int),
    decreases len - pos,
{
    let mut p = pos;
    while p < len && is_ident_c(s.get_char(p))
        invariant
            len == s@.len(),
            pos <= p <= len,
            spec_ident_len(s@, pos as int) == (p - pos) + spec_ident_len(s@, p as int),
        decreases len - p,
    {
        p = p + 1;
    }
    p
}

fn scan_digits(s: &str, len: usize, pos: usize) -> (r: usize)
    requires
        len == s@.len(),
        pos <= len,
    ensures
        pos <= r <= len,
        r - pos == spec_digits_len(s@, pos as int),
        forall|k: int| pos <= k < r ==> is_digit_char(#[trigger] s@[k]),
    decreases len - pos,
{
    let mut p = pos;
    while p < len && is_digit_c(s.get_char(p))
        invariant
            len == s@.len(),
            pos <= p <= len,
            spec_digits_len(s@, pos as int) == (p - pos) + spec_digits_len(s@, p as int),
            forall|k: int| pos <= k < p ==> is_digit_char(#[trigger] s@[k]),
        decreases len - p,
    {
        p = p + 1;
    }
    p
}

/// Reads the digit run `s[start .. end)` into `acc`; `None` on a value
/// beyond `i64::MAX`.
fn digits_value(s: &str, len: usize, start: usize, end: usize, acc: i64) -> (r: Option<i64>)
    requires
        len == s@.len(),
        start <= end <= len,
        acc >= 0,
        forall|k: int| start <= k < end ==> is_digit_char(s@[k]),
    ensures
        match r {
            Option::Some(v) => spec_digits_value(s@, start as int, end as int, acc as int)
                == Option::Some(v as int) && v >= 0,
            Option::None => spec_digits_value(s@, start as int, end as int, acc as int)
                is None,
        },
{
    let mut i = start;
    let mut a = acc;
    while i < end
        invariant
            len == s@.len(),
            start <= i <= end <= len,
            a >= 0,
            forall|k: int| start <= k < end ==> is_digit_char(s@[k]),
            spec_digits_value(s@, start as int, end as int, acc as int) == spec_digits_value(
                s@,
                i as int,
                end as int,
                a as int,
            ),
        decreases end - i,
    {
        let c = s.get_char(i);
        assert(is_digit_char(s@[i as int]));
        let d: i64 = (c as u32 - '0' as u32) as i64;
        let m = match a.checked_mul(10) {
            Option::Some(m) => m,
            Option::None => {
                return None;
            },
        };
        let a2 = match m.checked_add(d) {
            Option::Some(a2) => a2,
            Option::None => {
                return None;
            },
        };
        a = a2;
        i = i + 1;
    }
    Some(a)
}

/// A numeric literal at `pos`; returns the value and the position after it.
fn parse_number(s: &str, len: usize, pos: usize) -> (r: Option<(Value, usize)>)
    requires
        len == s@.len(),
        pos <= len,
    ensures
        match r {
            Option::Some((v, p2)) => {
                &&& spec_parse_number(s@, pos as int) matches Option::Some(n)
                &&& n.0 == v@
                &&& p2 == pos + n.1
                &&& pos < p2 <= len
            },
            Option::None => spec_parse_number(s@, pos as int) is None,
        },
{
    let neg = pos < len && s.get_char(pos) == '-';
    let d0 = if neg {
        pos + 1
    } else {
        pos
    };
    let dend = scan_digits(s, len, d0);
    if dend == d0 {
        return None;
    }
    let v = match digits_value(s, len, d0, dend, 0) {
        Option::Some(v) => v,
        Option::None => {
            return None;
        },
    };
    if dend < len && s.get_char(dend) == '.' {
        let fend = scan_digits(s, len, dend + 1);
        if fend == dend + 1 {
            return None;
        }
        let m = match digits_value(s, len, dend + 1, fend, v) {
            Option::Some(m) => m,
            Option::None => {
                return None;
            },
        };
        let scale_usize = fend - (dend + 1);
        if scale_usize > u32::MAX as usize {
            return None;
        }
        let d = Decimal {
            mantissa: if neg {
                -m
            } else {
                m
            },
            scale: scale_usize as u32,
        };
        Some((Value::Float(d), fend))
    } else if dend < len && s.get_char(dend) == '%' {
        let p = if neg {
            -v
        } else {
            v
        };
        Some((Value::Percentage(p), dend + 1))
    } else {
        let iv = if neg {
            -v
        } else {
            v
        };
        Some((Value::Integer(iv), dend))
    }
}


pub proof fn lemma_spaces_len_nonneg(s: Seq<char>, pos: int)
    ensures
        spec_spaces_len(s, pos) >= 0,
    decreases s.len() - pos,
{
    if 0 <= pos < s.len() && is_space(s[pos]) {
        lemma_spaces_len_nonneg(s, pos + 1);
    }
}

pub proof fn lemma_blank_len_nonneg(s: Seq<char>, pos: int)
    ensures
        spec_blank_len(s, pos) >= 0,
    decreases s.len() - pos,
{
    if 0 <= pos < s.len() && (is_space(s[pos]) || is_newline(s[pos])) {
        lemma_blank_len_nonneg(s, pos + 1);
    }
}

pub proof fn lemma_ident_len_nonneg(s: Seq<char>, pos: int)
    ensures
        spec_ident_len(s, pos) >= 0,
    decreases s.len() - pos,
{
    if 0 <= pos < s.len() && is_ident_char(s[pos]) {
        lemma_ident_len_nonneg(s, pos + 1);
    }
}

/// A string literal at `pos` (which holds the opening quote): the characters
/// up to the next quote on the same line. Yields the content and the count
/// of characters consumed including both quotes.
pub open spec fn spec_parse_string(s: Seq<char>, pos: int, line: int) -> Result<
    (ValueSpec, int),
    ParserErrorSpec,
> {
    let q = pos + 1 + spec_quote_dist(s, pos + 1);
    if q >= s.len() || is_newline(s[q]) {
        Result::Err(ParserErrorSpec { kind: ParseErrorKind::UnterminatedString, line })
    } else {
        Result::Ok((ValueSpec::String(s.subrange(pos + 1, q)), q + 1 - pos))
    }
}

/// A literal value at `pos`. Yields the value, the count of characters
/// consumed, and the line after it (tuples may span lines).
pub open spec fn spec_parse_value(s: Seq<char>, pos: int, line: int) -> Result<
    (ValueSpec, int, int),
    ParserErrorSpec,
>
    decreases s.len() - pos, 0int,
{
    if !(0 <= pos < s.len()) {
        Result::Err(ParserErrorSpec { kind: ParseErrorKind::InvalidLiteral, line })
    } else if s[pos] == '"' {
        match spec_parse_string(s, pos, line) {
            Result::Ok((v, used)) => Result::Ok((v, used, line)),
            Result::Err(e) => Result::Err(e),
        }
    } else if s[pos] == '(' {
        match spec_parse_tuple_items(s, pos + 1, line) {
            Result::Ok((items, used, l2)) => Result::Ok((ValueSpec::Tuple(items), 1 + used, l2)),
            Result::Err(e) => Result::Err(e),
        }
    } else if s[pos] == '-' || is_digit_char(s[pos]) {
        match spec_parse_number(s, pos) {
            Option::Some((v, used)) => Result::Ok((v, used, line)),
            Option::None => Result::Err(
                ParserErrorSpec { kind: ParseErrorKind::InvalidLiteral, line },
            ),
        }
    } else if is_ident_start(s[pos]) {
        let k = spec_ident_len(s, pos);
        if s.subrange(pos, pos + k) == "default"@ {
            Result::Ok((ValueSpec::Default, k, line))
        } else {
            Result::Err(ParserErrorSpec { kind: ParseErrorKind::InvalidLiteral, line })
        }
    } else {
        Result::Err(ParserErrorSpec { kind: ParseErrorKind::InvalidLiteral, line })
    }
}

/// The items of a tuple, from just after the opening parenthesis to the
/// closing one; a trailing comma is allowed, and spaces and newlines are
/// insignificant between items.
pub open spec fn spec_parse_tuple_items(s: Seq<char>, pos: int, line: int) -> Result<
    (Seq<ValueSpec>, int, int),
    ParserErrorSpec,
>
    decreases s.len() - pos, 1int,
        via spec_parse_tuple_items_decreases
{
    let b = spec_blank_len(s, pos);
    let l = line + spec_blank_newlines(s, pos);
    let p = pos + b;
    if p >= s.len() {
        Result::Err(ParserErrorSpec { kind: ParseErrorKind::InvalidLiteral, line: l })
    } else if s[p] == ')' {
        Result::Ok((Seq::empty(), p + 1 - pos, l))
    } else {
        match spec_parse_value(s, p, l) {
            Result::Err(e) => Result::Err(e),
            Result::Ok((v, uv, l2)) => {
                let b2 = spec_blank_len(s, p + uv);
                let l3 = l2 + spec_blank_newlines(s, p + uv);
                let p2 = p + uv + b2;
                if p2 >= s.len() {
                    Result::Err(ParserErrorSpec { kind: ParseErrorKind::InvalidLiteral, line: l3 })
                } else if s[p2] == ')' {
                    Result::Ok((seq![v], p2 + 1 - pos, l3))
                } else if s[p2] == ',' && p2 + 1 > pos {
                    // The second conjunct only bounds the recursion: a
                    // parsed value always advances the position.
                    match spec_parse_tuple_items(s, p2 + 1, l3) {
                        Result::Ok((rest, u2, l4)) => Result::Ok(
                            (seq![v] + rest, (p2 + 1 - pos) + u2, l4),
                        ),
                        Result::Err(e) => Result::Err(e),
                    }
                } else {
                    Result::Err(ParserErrorSpec { kind: ParseErrorKind::InvalidLiteral, line: l3 })
                }
            },
        }
    }
}

#[via_fn]
proof fn spec_parse_tuple_items_decreases(s: Seq<char>, pos: int, line: int) {
    lemma_blank_len_nonneg(s, pos);
}

/// The model of a sequence of values.
pub open spec fn val_seq_view(s: Seq<Value>) -> Seq<ValueSpec> {
    Seq::new(s.len(), |i: int| s[i]@)
}


/// A string literal at `pos` (the opening quote); returns the value and the
/// position after the closing quote.
fn parse_string(s: &str, len: usize, pos: usize, line: usize) -> (r: Result<
    (Value, usize),
    ParserError,
>)
    requires
        len == s@.len(),
        pos < len,
    ensures
        match r {
            Result::Ok((v, p2)) => {
                &&& spec_parse_string(s@, pos as int, line as int) matches Result::Ok(n)
                &&& n.0 == v@
                &&& p2 == pos + n.1
                &&& pos < p2 <= len
            },
            Result::Err(e) => spec_parse_string(s@, pos as int, line as int) matches Result::Err(
                es,
            ) && es == e@,
        },
{
    let mut q = pos + 1;
    while q < len && s.get_char(q) != '"' && !is_newline_c(s.get_char(q))
        invariant
            len == s@.len(),
            pos + 1 <= q <= len,
            spec_quote_dist(s@, pos as int + 1) == (q - pos - 1) + spec_quote_dist(s@, q as int),
        decreases len - q,
    {
        q = q + 1;
    }
    if q >= len || is_newline_c(s.get_char(q)) {
        Err(ParserError { kind: ParseErrorKind::UnterminatedString, line })
    } else {
        let content = s.substring_char(pos + 1, q).to_owned();
        Ok((Value::String(content), q + 1))
    }
}

/// A literal value at `pos`; returns the value, the position after it, and
/// the line it ends on.
fn parse_value(s: &str, len: usize, pos: usize, line: usize) -> (r: Result<
    (Value, usize, usize),
    ParserError,
>)
    requires
        len == s@.len(),
        pos <= len,
        line + (len - pos) <= usize::MAX,
    ensures
        match r {
            Result::Ok((v, p2, l2)) => {
                &&& spec_parse_value(s@, pos as int, line as int) matches Result::Ok(n)
                &&& n.0 == v@
                &&& p2 == pos + n.1
                &&& l2 == n.2
                &&& pos < p2 <= len
                &&& line <= l2
                &&& l2 - line <= p2 - pos
            },
            Result::Err(e) => spec_parse_value(s@, pos as int, line as int) matches Result::Err(
                es,
            ) && es == e@,
        },
    decreases len - pos, 0int,
{
    if pos >= len {
        return Err(ParserError { kind: ParseErrorKind::InvalidLiteral, line });
    }
    let c = s.get_char(pos);
    if c == '"' {
        match parse_string(s, len, pos, line) {
            Result::Ok((v, p2)) => Ok((v, p2, line)),
            Result::Err(e) => Err(e),
        }
    } else if c == '(' {
        match parse_tuple_items(s, len, pos + 1, line) {
            Result::Ok((items, p2, l2)) => {
                let ghost iv = items@;
                let v = Value::Tuple(items);
                proof {
                    assert((v@)->Tuple_0 =~= val_seq_view(iv));
                }
                Ok((v, p2, l2))
            },
            Result::Err(e) => Err(e),
        }
    } else if c == '-' || is_digit_c(c) {
        match parse_number(s, len, pos) {
            Option::Some((v, p2)) => Ok((v, p2, line)),
            Option::None => Err(ParserError { kind: ParseErrorKind::InvalidLiteral, line }),
        }
    } else if is_ident_start_c(c) {
        let e = scan_ident(s, len, pos);
        let word = s.substring_char(pos, e).to_owned();
        let keyword: String = "default".to_owned();
        if word == keyword {
            proof {
                lemma_ident_len_nonneg(s@, pos as int + 1);
            }
            Ok((Value::Default, e, line))
        } else {
            Err(ParserError { kind: ParseErrorKind::InvalidLiteral, line })
        }
    } else {
        Err(ParserError { kind: ParseErrorKind::InvalidLiteral, line })
    }
}

/// The items of a tuple, from just after `(` through the closing `)`.
fn parse_tuple_items(s: &str, len: usize, pos: usize, line: usize) -> (r: Result<
    (Vec<Value>, usize, usize),
    ParserError,
>)
    requires
        len == s@.len(),
        pos <= len,
        line + (len - pos) <= usize::MAX,
    ensures
        match r {
            Result::Ok((items, p2, l2)) => {
                &&& spec_parse_tuple_items(s@, pos as int, line as int) matches Result::Ok(n)
                &&& val_seq_view(items@) == n.0
                &&& p2 == pos + n.1
                &&& l2 == n.2
                &&& pos < p2 <= len
                &&& line <= l2
                &&& l2 - line <= p2 - pos
            },
            Result::Err(e) => spec_parse_tuple_items(
                s@,
                pos as int,
                line as int,
            ) matches Result::Err(es) && es == e@,
        },
    decreases len - pos, 1int,
{
    let (p, l) = skip_blank(s, len, pos, line);
    if p >= len {
        return Err(ParserError { kind: ParseErrorKind::InvalidLiteral, line: l });
    }
    let c = s.get_char(p);
    if c == ')' {
        let items: Vec<Value> = Vec::new();
        proof {
            assert(val_seq_view(items@) =~= Seq::<ValueSpec>::empty());
        }
        return Ok((items, p + 1, l));
    }
    match parse_value(s, len, p, l) {
        Result::Err(e) => Err(e),
        Result::Ok((v, pv, l2)) => {
            let ghost vv = v@;
            let (p2, l3) = skip_blank(s, len, pv, l2);
            if p2 >= len {
                return Err(ParserError { kind: ParseErrorKind::InvalidLiteral, line: l3 });
            }
            let c2 = s.get_char(p2);
            if c2 == ')' {
                let mut items: Vec<Value> = Vec::new();
                items.push(v);
                proof {
                    assert(val_seq_view(items@) =~= seq![vv]);
                }
                Ok((items, p2 + 1, l3))
            } else if c2 == ',' {
                match parse_tuple_items(s, len, p2 + 1, l3) {
                    Result::Err(e) => Err(e),
                    Result::Ok((rest, p3, l4)) => {
                        let ghost rest_view = val_seq_view(rest@);
                        let mut items = rest;
                        items.insert(0, v);
                        proof {
                            assert(val_seq_view(items@) =~= seq![vv] + rest_view);
                        }
                        Ok((items, p3, l4))
                    },
                }
            } else {
                Err(ParserError { kind: ParseErrorKind::InvalidLiteral, line: l3 })
            }
        },
    }
}


/// Two attributes in one block that share a key, both unconditional.
pub open spec fn spec_dup_uncond(attrs: Seq<AttrSpec>) -> bool {
    exists|i: int, j: int|
        0 <= i < j < attrs.len() && attrs[i].conditional is None && attrs[j].conditional is None
            && attrs[i].key == attrs[j].key
}

/// The declarations of an attribute block, from just after the opening brace
/// through the closing one; newlines inside the block are insignificant and
/// a trailing comma is allowed.
pub open spec fn spec_parse_block_items(s: Seq<char>, pos: int, line: int) -> Result<
    (Seq<AttrSpec>, int, int),
    ParserErrorSpec,
>
    decreases s.len() - pos,
{
    let b = spec_blank_len(s, pos);
    let l = line + spec_blank_newlines(s, pos);
    let p = pos + b;
    if p >= s.len() {
        Result::Err(ParserErrorSpec { kind: ParseErrorKind::UnterminatedBlock, line: l })
    } else if s[p] == '}' {
        Result::Ok((Seq::empty(), p + 1 - pos, l))
    } else if !is_ident_start(s[p]) {
        Result::Err(ParserErrorSpec { kind: ParseErrorKind::UnexpectedCharacter, line: l })
    } else {
        let k = spec_ident_len(s, p);
        let key = s.subrange(p, p + k);
        let b2 = spec_spaces_len(s, p + k);
        let q = p + k + b2;
        if q >= s.len() {
            Result::Err(ParserErrorSpec { kind: ParseErrorKind::UnterminatedBlock, line: l })
        } else if s[q] != ':' {
            Result::Err(ParserErrorSpec { kind: ParseErrorKind::UnexpectedCharacter, line: l })
        } else {
            let b3 = spec_blank_len(s, q + 1);
            let l3 = l + spec_blank_newlines(s, q + 1);
            let p3 = q + 1 + b3;
            match spec_parse_value(s, p3, l3) {
                Result::Err(e) => Result::Err(e),
                Result::Ok((v, uv, l4)) => {
                    let a = AttrSpec { key, value: v, conditional: Option::None };
                    let b4 = spec_blank_len(s, p3 + uv);
                    let l5 = l4 + spec_blank_newlines(s, p3 + uv);
                    let p4 = p3 + uv + b4;
                    if p4 >= s.len() {
                        Result::Err(
                            ParserErrorSpec { kind: ParseErrorKind::UnterminatedBlock, line: l5 },
                        )
                    } else if s[p4] == '}' {
                        Result::Ok((seq![a], p4 + 1 - pos, l5))
                    } else if s[p4] == ',' && p4 + 1 > pos {
                        // The second conjunct only bounds the recursion: a
                        // parsed value always advances the position.
                        match spec_parse_block_items(s, p4 + 1, l5) {
                            Result::Ok((rest, u2, l6)) => Result::Ok(
                                (seq![a] + rest, (p4 + 1 - pos) + u2, l6),
                            ),
                            Result::Err(e) => Result::Err(e),
                        }
                    } else {
                        Result::Err(
                            ParserErrorSpec { kind: ParseErrorKind::UnexpectedCharacter, line: l5 },
                        )
                    }
                },
            }
        }
    }
}

/// One component line: indentation, class identifier, and an optional
/// attribute block, through the end of its last physical line.
pub open spec fn spec_parse_entry(s: Seq<char>, pos: int, line: int) -> Result<
    (EntrySpec, int, int),
    ParserErrorSpec,
> {
    let n = spec_spaces_len(s, pos);
    let p = pos + n;
    if n % 4 != 0 {
        Result::Err(ParserErrorSpec { kind: ParseErrorKind::NonUnitIndentation, line })
    } else if p >= s.len() || !is_ident_start(s[p]) {
        Result::Err(ParserErrorSpec { kind: ParseErrorKind::UnexpectedCharacter, line })
    } else {
        let k = spec_ident_len(s, p);
        let class = s.subrange(p, p + k);
        let m = spec_spaces_len(s, p + k);
        let q = p + k + m;
        if q >= s.len() {
            Result::Ok(
                (
                    EntrySpec { indent: n / 4, class, attributes: Seq::empty(), line },
                    q - pos,
                    line,
                ),
            )
        } else if is_newline(s[q]) {
            Result::Ok(
                (
                    EntrySpec { indent: n / 4, class, attributes: Seq::empty(), line },
                    q + 1 - pos,
                    line + 1,
                ),
            )
        } else if s[q] == '{' {
            match spec_parse_block_items(s, q + 1, line) {
                Result::Err(e) => Result::Err(e),
                Result::Ok((attrs, u, l2)) => if spec_dup_uncond(attrs) {
                    Result::Err(ParserErrorSpec { kind: ParseErrorKind::DuplicateKey, line })
                } else {
                    let q3 = q + 1 + u;
                    let m2 = spec_spaces_len(s, q3);
                    let q4 = q3 + m2;
                    if q4 >= s.len() {
                        Result::Ok(
                            (
                                EntrySpec { indent: n / 4, class, attributes: attrs, line },
                                q4 - pos,
                                l2,
                            ),
                        )
                    } else if is_newline(s[q4]) {
                        Result::Ok(
                            (
                                EntrySpec { indent: n / 4, class, attributes: attrs, line },
                                q4 + 1 - pos,
                                l2 + 1,
                            ),
                        )
                    } else {
                        Result::Err(
                            ParserErrorSpec { kind: ParseErrorKind::UnexpectedCharacter, line: l2 },
                        )
                    }
                },
            }
        } else {
            Result::Err(ParserErrorSpec { kind: ParseErrorKind::UnexpectedCharacter, line })
        }
    }
}

/// The component lines of a whole document, blank lines skipped.
pub open spec fn spec_lex(s: Seq<char>, pos: int, line: int) -> Result<
    Seq<EntrySpec>,
    ParserErrorSpec,
>
    decreases s.len() - pos,
{
    if !(0 <= pos < s.len()) {
        Result::Ok(Seq::empty())
    } else {
        let n = spec_spaces_len(s, pos);
        let p = pos + n;
        if p >= s.len() {
            Result::Ok(Seq::empty())
        } else if is_newline(s[p]) {
            // The guard only bounds the recursion: the space run is never
            // negative.
            if p + 1 > pos {
                spec_lex(s, p + 1, line + 1)
            } else {
                Result::Err(ParserErrorSpec { kind: ParseErrorKind::UnexpectedCharacter, line })
            }
        } else {
            match spec_parse_entry(s, pos, line) {
                Result::Err(e) => Result::Err(e),
                // The guard only bounds the recursion: a parsed entry
                // always consumes at least one character and never more
                // than remain.
                Result::Ok((e, u, l2)) => if pos + u > pos && pos + u <= s.len() {
                    match spec_lex(s, pos + u, l2) {
                        Result::Ok(rest) => Result::Ok(seq![e] + rest),
                        Result::Err(e2) => Result::Err(e2),
                    }
                } else {
                    Result::Err(
                        ParserErrorSpec { kind: ParseErrorKind::UnexpectedCharacter, line },
                    )
                },
            }
        }
    }
}

/// One lexed component line.
pub(crate) struct Entry {
    pub indent: usize,
    pub class: String,
    pub attributes: Vec<Attribute>,
    pub line: usize,
}

/// Mathematical model of an [`Entry`].
pub struct EntrySpec {
    pub indent: int,
    pub class: Seq<char>,
    pub attributes: Seq<AttrSpec>,
    pub line: int,
}

impl Entry {
    pub(crate) open spec fn view(self) -> EntrySpec {
        EntrySpec {
            indent: self.indent as int,
            class: self.class@,
            attributes: attr_seq_view(self.attributes@),
            line: self.line as int,
        }
    }
}

/// The model of a sequence of entries.
pub(crate) open spec fn entry_seq_view(s: Seq<Entry>) -> Seq<EntrySpec> {
    Seq::new(s.len(), |i: int| s[i]@)
}


/// Whether two unconditional attributes of `attrs` share a key.
fn has_dup_uncond(attrs: &Vec<Attribute>) -> (r: bool)
    ensures
        r == spec_dup_uncond(attr_seq_view(attrs@)),
{
    let ghost av = attr_seq_view(attrs@);
    let n = attrs.len();
    let mut j: usize = 1;
    while j < n
        invariant
            n == attrs@.len(),
            av == attr_seq_view(attrs@),
            1 <= j,
            forall|x: int, y: int|
                0 <= x < y < j && y < n ==> !(av[x].conditional is None && av[y].conditional
                    is None && av[x].key == av[y].key),
        decreases n - j,
    {
        let mut i: usize = 0;
        while i < j
            invariant
                n == attrs@.len(),
                av == attr_seq_view(attrs@),
                i <= j < n,
                forall|x: int|
                    0 <= x < i ==> !(av[x].conditional is None && av[j as int].conditional
                        is None && av[x].key == av[j as int].key),
            decreases j - i,
        {
            if attrs[i].conditional.is_none() && attrs[j].conditional.is_none() {
                if attrs[i].key == attrs[j].key {
                    proof {
                        assert(av[i as int].conditional is None && av[j as int].conditional
                            is None && av[i as int].key == av[j as int].key);
                    }
                    return true;
                }
            }
            i = i + 1;
        }
        j = j + 1;
    }
    false
}

/// The declarations of an attribute block, from just after `{` through the
/// closing `}`.
fn parse_block_items(s: &str, len: usize, pos: usize, line: usize) -> (r: Result<
    (Vec<Attribute>, usize, usize),
    ParserError,
>)
    requires
        len == s@.len(),
        pos <= len,
        line + (len - pos) <= usize::MAX,
    ensures
        match r {
            Result::Ok((attrs, p2, l2)) => {
                &&& spec_parse_block_items(s@, pos as int, line as int) matches Result::Ok(n)
                &&& attr_seq_view(attrs@) == n.0
                &&& p2 == pos + n.1
                &&& l2 == n.2
                &&& pos < p2 <= len
                &&& line <= l2
                &&& l2 - line <= p2 - pos
            },
            Result::Err(e) => spec_parse_block_items(
                s@,
                pos as int,
                line as int,
            ) matches Result::Err(es) && es == e@,
        },
    decreases len - pos,
{
    let (p, l) = skip_blank(s, len, pos, line);
    if p >= len {
        return Err(ParserError { kind: ParseErrorKind::UnterminatedBlock, line: l });
    }
    let c = s.get_char(p);
    if c == '}' {
        let attrs: Vec<Attribute> = Vec::new();
        proof {
            assert(attr_seq_view(attrs@) =~= Seq::<AttrSpec>::empty());
        }
        return Ok((attrs, p + 1, l));
    }
    if !is_ident_start_c(c) {
        return Err(ParserError { kind: ParseErrorKind::UnexpectedCharacter, line: l });
    }
    let ke = scan_ident(s, len, p);
    let key = s.substring_char(p, ke).to_owned();
    let q = skip_spaces(s, len, ke);
    if q >= len {
        return Err(ParserError { kind: ParseErrorKind::UnterminatedBlock, line: l });
    }
    if s.get_char(q) != ':' {
        return Err(ParserError { kind: ParseErrorKind::UnexpectedCharacter, line: l });
    }
    let (p3, l3) = skip_blank(s, len, q + 1, l);
    match parse_value(s, len, p3, l3) {
        Result::Err(e) => Err(e),
        Result::Ok((v, pv, l4)) => {
            let attr = Attribute { key, value: v, conditional: None };
            let ghost a_view = attr@;
            let (p4, l5) = skip_blank(s, len, pv, l4);
            if p4 >= len {
                return Err(ParserError { kind: ParseErrorKind::UnterminatedBlock, line: l5 });
            }
            let c2 = s.get_char(p4);
            if c2 == '}' {
                let mut attrs: Vec<Attribute> = Vec::new();
                attrs.push(attr);
                proof {
                    assert(attr_seq_view(attrs@) =~= seq![a_view]);
                }
                Ok((attrs, p4 + 1, l5))
            } else if c2 == ',' {
                match parse_block_items(s, len, p4 + 1, l5) {
                    Result::Err(e) => Err(e),
                    Result::Ok((rest, p5, l6)) => {
                        let ghost rv = attr_seq_view(rest@);
                        let mut attrs = rest;
                        attrs.insert(0, attr);
                        proof {
                            assert(attr_seq_view(attrs@) =~= seq![a_view] + rv);
                        }
                        Ok((attrs, p5, l6))
                    },
                }
            } else {
                Err(ParserError { kind: ParseErrorKind::UnexpectedCharacter, line: l5 })
            }
        },
    }
}

/// One component line at `pos`: indentation, class, optional block.
fn parse_entry(s: &str, len: usize, pos: usize, line: usize) -> (r: Result<
    (Entry, usize, usize),
    ParserError,
>)
    requires
        len == s@.len(),
        pos <= len,
        line + (len - pos) <= usize::MAX,
    ensures
        match r {
            Result::Ok((e, p2, l2)) => {
                &&& spec_parse_entry(s@, pos as int, line as int) matches Result::Ok(n)
                &&& e@ == n.0
                &&& p2 == pos + n.1
                &&& l2 == n.2
                &&& pos < p2 <= len
                &&& line <= l2
                &&& l2 - line <= p2 - pos
                &&& e.indent < usize::MAX
            },
            Result::Err(e) => spec_parse_entry(s@, pos as int, line as int) matches Result::Err(
                es,
            ) && es == e@,
        },
{
    let p = skip_spaces(s, len, pos);
    let n_spaces = p - pos;
    if n_spaces % 4 != 0 {
        return Err(ParserError { kind: ParseErrorKind::NonUnitIndentation, line });
    }
    if p >= len {
        return Err(ParserError { kind: ParseErrorKind::UnexpectedCharacter, line });
    }
    let c = s.get_char(p);
    if !is_ident_start_c(c) {
        return Err(ParserError { kind: ParseErrorKind::UnexpectedCharacter, line });
    }
    let ke = scan_ident(s, len, p);
    let class = s.substring_char(p, ke).to_owned();
    let q = skip_spaces(s, len, ke);
    let indent = n_spaces / 4;
    if q >= len {
        let attrs: Vec<Attribute> = Vec::new();
        proof {
            assert(attr_seq_view(attrs@) =~= Seq::<AttrSpec>::empty());
        }
        let e = Entry { indent, class, attributes: attrs, line };
        return Ok((e, q, line));
    }
    let cq = s.get_char(q);
    if is_newline_c(cq) {
        let attrs: Vec<Attribute> = Vec::new();
        proof {
            assert(attr_seq_view(attrs@) =~= Seq::<AttrSpec>::empty());
        }
        let e = Entry { indent, class, attributes: attrs, line };
        Ok((e, q + 1, line + 1))
    } else if cq == '{' {
        match parse_block_items(s, len, q + 1, line) {
            Result::Err(e) => Err(e),
            Result::Ok((attrs, p2, l2)) => {
                if has_dup_uncond(&attrs) {
                    return Err(ParserError { kind: ParseErrorKind::DuplicateKey, line });
                }
                let q4 = skip_spaces(s, len, p2);
                if q4 >= len {
                    let e = Entry { indent, class, attributes: attrs, line };
                    Ok((e, q4, l2))
                } else if is_newline_c(s.get_char(q4)) {
                    let e = Entry { indent, class, attributes: attrs, line };
                    Ok((e, q4 + 1, l2 + 1))
                } else {
                    Err(ParserError { kind: ParseErrorKind::UnexpectedCharacter, line: l2 })
                }
            },
        }
    } else {
        Err(ParserError { kind: ParseErrorKind::UnexpectedCharacter, line })
    }
}

/// All component lines of a document.
fn lex(s: &str, len: usize, pos: usize, line: usize) -> (r: Result<Vec<Entry>, ParserError>)
    requires
        len == s@.len(),
        pos <= len,
        line + (len - pos) <= usize::MAX,
    ensures
        match r {
            Result::Ok(entries) => spec_lex(s@, pos as int, line as int) matches Result::Ok(n)
                && entry_seq_view(entries@) == n && forall|k: int|
                0 <= k < entries@.len() ==> (#[trigger] entries@[k]).indent < usize::MAX,
            Result::Err(e) => spec_lex(s@, pos as int, line as int) matches Result::Err(es) && es
                == e@,
        },
    decreases len - pos,
{
    if pos >= len {
        let entries: Vec<Entry> = Vec::new();
        proof {
            assert(entry_seq_view(entries@) =~= Seq::<EntrySpec>::empty());
        }
        return Ok(entries);
    }
    let p = skip_spaces(s, len, pos);
    if p >= len {
        let entries: Vec<Entry> = Vec::new();
        proof {
            assert(entry_seq_view(entries@) =~= Seq::<EntrySpec>::empty());
        }
        return Ok(entries);
    }
    if is_newline_c(s.get_char(p)) {
        return lex(s, len, p + 1, line + 1);
    }
    match parse_entry(s, len, pos, line) {
        Result::Err(e) => Err(e),
        Result::Ok((e, p2, l2)) => {
            let ghost ev = e@;
            match lex(s, len, p2, l2) {
                Result::Err(e2) => Err(e2),
                Result::Ok(rest) => {
                    let ghost rv = entry_seq_view(rest@);
                    let mut entries = rest;
                    entries.insert(0, e);
                    proof {
                        assert(entry_seq_view(entries@) =~= seq![ev] + rv);
                    }
                    Ok(entries)
                },
            }
        },
    }
}


/// The model of a sequence of component templates.
pub open spec fn tpl_seq_view(s: Seq<ComponentTemplate>) -> Seq<TemplateSpec> {
    Seq::new(s.len(), |i: int| s[i]@)
}

/// The component at `entries[i]` together with its children: the maximal run
/// of following entries one unit deeper.
pub open spec fn spec_build_node(entries: Seq<EntrySpec>, i: int) -> Result<
    (TemplateSpec, int),
    ParserErrorSpec,
>
    decreases entries.len() - i, 0int,
{
    if !(0 <= i < entries.len()) {
        Result::Err(ParserErrorSpec { kind: ParseErrorKind::UnexpectedCharacter, line: 0 })
    } else {
        let e = entries[i];
        match spec_build_children(entries, i + 1, e.indent + 1) {
            Result::Ok((cs, j)) => Result::Ok(
                (
                    TemplateSpec {
                        class: e.class,
                        line: e.line,
                        attributes: e.attributes,
                        children: cs,
                    },
                    j,
                ),
            ),
            Result::Err(er) => Result::Err(er),
        }
    }
}

/// The children at depth `depth` starting at `entries[i]`, in document
/// order; an entry deeper than `depth` is an excessive-indentation error,
/// and one shallower ends the run.
pub open spec fn spec_build_children(entries: Seq<EntrySpec>, i: int, depth: int) -> Result<
    (Seq<TemplateSpec>, int),
    ParserErrorSpec,
>
    decreases entries.len() - i, 1int,
{
    if !(0 <= i < entries.len()) {
        Result::Ok((Seq::empty(), i))
    } else {
        let e = entries[i];
        if e.indent < depth {
            Result::Ok((Seq::empty(), i))
        } else if e.indent > depth {
            Result::Err(
                ParserErrorSpec { kind: ParseErrorKind::ExcessiveIndentation, line: e.line },
            )
        } else {
            match spec_build_node(entries, i) {
                Result::Err(er) => Result::Err(er),
                // The guard only bounds the recursion: a built node always
                // consumes at least its own entry and never more than
                // remain.
                Result::Ok((t, j)) => if i < j <= entries.len() {
                    match spec_build_children(entries, j, depth) {
                        Result::Ok((rest, k)) => Result::Ok((seq![t] + rest, k)),
                        Result::Err(er) => Result::Err(er),
                    }
                } else {
                    Result::Err(
                        ParserErrorSpec { kind: ParseErrorKind::UnexpectedCharacter, line: 0 },
                    )
                },
            }
        }
    }
}

/// The tree of a whole document: exactly one root at depth zero.
pub open spec fn spec_build(entries: Seq<EntrySpec>) -> Result<TemplateSpec, ParserErrorSpec> {
    if entries.len() == 0 {
        Result::Err(ParserErrorSpec { kind: ParseErrorKind::MissingRoot, line: 1 })
    } else if entries[0].indent != 0 {
        Result::Err(
            ParserErrorSpec { kind: ParseErrorKind::ExcessiveIndentation, line: entries[0].line },
        )
    } else {
        match spec_build_node(entries, 0) {
            Result::Err(er) => Result::Err(er),
            Result::Ok((t, j)) => if j < entries.len() {
                Result::Err(
                    ParserErrorSpec { kind: ParseErrorKind::MultipleRoots, line: entries[j].line },
                )
            } else {
                Result::Ok(t)
            },
        }
    }
}

/// What a whole template document denotes: its root component, or the first
/// structural error.
pub open spec fn spec_parse_document(s: Seq<char>) -> Result<TemplateSpec, ParserErrorSpec> {
    match spec_lex(s, 0, 1) {
        Result::Ok(entries) => spec_build(entries),
        Result::Err(e) => Result::Err(e),
    }
}

/// The flat rules of a stylesheet: every entry must stand at depth zero.
pub open spec fn spec_build_style(entries: Seq<EntrySpec>, i: int) -> Result<
    Seq<StyleRuleSpec>,
    ParserErrorSpec,
>
    decreases entries.len() - i,
{
    if !(0 <= i < entries.len()) {
        Result::Ok(Seq::empty())
    } else if entries[i].indent != 0 {
        Result::Err(
            ParserErrorSpec { kind: ParseErrorKind::ExcessiveIndentation, line: entries[i].line },
        )
    } else {
        match spec_build_style(entries, i + 1) {
            Result::Ok(rest) => Result::Ok(
                seq![
                    StyleRuleSpec { class: entries[i].class, attributes: entries[i].attributes },
                ] + rest,
            ),
            Result::Err(e) => Result::Err(e),
        }
    }
}

/// What a stylesheet document denotes: its ordered rules, or the first
/// structural error.
pub open spec fn spec_parse_style(s: Seq<char>) -> Result<Seq<StyleRuleSpec>, ParserErrorSpec> {
    match spec_lex(s, 0, 1) {
        Result::Ok(entries) => spec_build_style(entries, 0),
        Result::Err(e) => Result::Err(e),
    }
}

/// A structural copy of an attribute list.
fn clone_attrs(v: &Vec<Attribute>) -> (r: Vec<Attribute>)
    ensures
        attr_seq_view(r@) == attr_seq_view(v@),
{
    let mut out: Vec<Attribute> = Vec::new();
    let mut i: usize = 0;
    while i < v.len()
        invariant
            i <= v.len(),
            out@.len() == i as int,
            forall|k: int| 0 <= k < i ==> out@[k]@ == v@[k]@,
        decreases v.len() - i,
    {
        let key = v[i].key.clone();
        let value = v[i].value.clone();
        let conditional = match &v[i].conditional {
            Option::Some(c) => Some(c.clone()),
            Option::None => None,
        };
        out.push(Attribute { key, value, conditional });
        i = i + 1;
    }
    proof {
        assert(attr_seq_view(out@) =~= attr_seq_view(v@));
    }
    out
}

fn build_node(entries: &Vec<Entry>, i: usize) -> (r: Result<
    (ComponentTemplate, usize),
    ParserError,
>)
    requires
        i < entries@.len(),
        forall|k: int| 0 <= k < entries@.len() ==> (#[trigger] entries@[k]).indent < usize::MAX,
    ensures
        match r {
            Result::Ok((t, j)) => {
                &&& spec_build_node(entry_seq_view(entries@), i as int) matches Result::Ok(n)
                &&& t@ == n.0
                &&& j == n.1
                &&& i < j <= entries@.len()
            },
            Result::Err(e) => spec_build_node(
                entry_seq_view(entries@),
                i as int,
            ) matches Result::Err(es) && es == e@,
        },
    decreases entries@.len() - i, 0int,
{
    // Binding the length as a usize makes its machine bound available to
    // the child call's overflow check.
    let _n_entries = entries.len();
    let class = entries[i].class.clone();
    let line = entries[i].line;
    let attrs = clone_attrs(&entries[i].attributes);
    let depth = entries[i].indent;
    match build_children(entries, i + 1, depth + 1) {
        Result::Err(e) => Err(e),
        Result::Ok((cs, j)) => {
            let ghost csv = tpl_seq_view(cs@);
            let t = ComponentTemplate {
                class,
                line,
                attributes: AttributeList { entries: attrs },
                children: cs,
            };
            proof {
                assert((t@.children) =~= csv);
            }
            Ok((t, j))
        },
    }
}

fn build_children(entries: &Vec<Entry>, i: usize, depth: usize) -> (r: Result<
    (Vec<ComponentTemplate>, usize),
    ParserError,
>)
    requires
        i <= entries@.len(),
        depth <= usize::MAX,
        forall|k: int| 0 <= k < entries@.len() ==> (#[trigger] entries@[k]).indent < usize::MAX,
    ensures
        match r {
            Result::Ok((cs, j)) => {
                &&& spec_build_children(
                    entry_seq_view(entries@),
                    i as int,
                    depth as int,
                ) matches Result::Ok(n)
                &&& tpl_seq_view(cs@) == n.0
                &&& j == n.1
                &&& i <= j <= entries@.len()
            },
            Result::Err(e) => spec_build_children(
                entry_seq_view(entries@),
                i as int,
                depth as int,
            ) matches Result::Err(es) && es == e@,
        },
    decreases entries@.len() - i, 1int,
{
    if i >= entries.len() {
        let cs: Vec<ComponentTemplate> = Vec::new();
        proof {
            assert(tpl_seq_view(cs@) =~= Seq::<TemplateSpec>::empty());
        }
        return Ok((cs, i));
    }
    let ind = entries[i].indent;
    if ind < depth {
        let cs: Vec<ComponentTemplate> = Vec::new();
        proof {
            assert(tpl_seq_view(cs@) =~= Seq::<TemplateSpec>::empty());
        }
        return Ok((cs, i));
    }
    if ind > depth {
        return Err(
            ParserError { kind: ParseErrorKind::ExcessiveIndentation, line: entries[i].line },
        );
    }
    match build_node(entries, i) {
        Result::Err(e) => Err(e),
        Result::Ok((t, j)) => {
            let ghost tv = t@;
            match build_children(entries, j, depth) {
                Result::Err(e) => Err(e),
                Result::Ok((rest, k)) => {
                    let ghost rv = tpl_seq_view(rest@);
                    let mut cs = rest;
                    cs.insert(0, t);
                    proof {
                        assert(tpl_seq_view(cs@) =~= seq![tv] + rv);
                    }
                    Ok((cs, k))
                },
            }
        },
    }
}

fn build_style(entries: &Vec<Entry>, i: usize) -> (r: Result<Vec<StyleComponent>, ParserError>)
    requires
        i <= entries@.len(),
    ensures
        match r {
            Result::Ok(rules) => {
                &&& spec_build_style(entry_seq_view(entries@), i as int) matches Result::Ok(n)
                &&& Seq::new(rules@.len(), |k: int| rules@[k]@) == n
            },
            Result::Err(e) => spec_build_style(
                entry_seq_view(entries@),
                i as int,
            ) matches Result::Err(es) && es == e@,
        },
    decreases entries@.len() - i,
{
    if i >= entries.len() {
        let rules: Vec<StyleComponent> = Vec::new();
        proof {
            assert(Seq::new(rules@.len(), |k: int| rules@[k]@) =~= Seq::<StyleRuleSpec>::empty());
        }
        return Ok(rules);
    }
    if entries[i].indent != 0 {
        return Err(
            ParserError { kind: ParseErrorKind::ExcessiveIndentation, line: entries[i].line },
        );
    }
    let class = entries[i].class.clone();
    let attrs = clone_attrs(&entries[i].attributes);
    let rule = StyleComponent { class, attributes: AttributeList { entries: attrs } };
    let ghost rule_view = rule@;
    match build_style(entries, i + 1) {
        Result::Err(e) => Err(e),
        Result::Ok(rest) => {
            let ghost rv = Seq::new(rest@.len(), |k: int| rest@[k]@);
            let mut rules = rest;
            rules.insert(0, rule);
            proof {
                assert(Seq::new(rules@.len(), |k: int| rules@[k]@) =~= seq![rule_view] + rv);
            }
            Ok(rules)
        },
    }
}

impl TemplateParser {
    /// Parses a template document: exactly one root component at depth zero,
    /// children nested one indentation unit at a time.
    pub fn parse_document(source: &str) -> (r: Result<ComponentTemplate, Error>)
        requires
            source@.len() < usize::MAX,
        ensures
            match spec_parse_document(source@) {
                Result::Ok(tv) => r matches Result::Ok(t) && t@ == tv,
                Result::Err(es) => r matches Result::Err(e) && (e matches Error::Parser(pe)
                    && pe@ == es),
            },
    {
        let len = source.unicode_len();
        match lex(source, len, 0, 1) {
            Result::Err(e) => Err(Error::Parser(e)),
            Result::Ok(entries) => {
                if entries.len() == 0 {
                    return Err(
                        Error::Parser(ParserError { kind: ParseErrorKind::MissingRoot, line: 1 }),
                    );
                }
                if entries[0].indent != 0 {
                    return Err(
                        Error::Parser(
                            ParserError {
                                kind: ParseErrorKind::ExcessiveIndentation,
                                line: entries[0].line,
                            },
                        ),
                    );
                }
                match build_node(&entries, 0) {
                    Result::Err(e) => Err(Error::Parser(e)),
                    Result::Ok((t, j)) => if j < entries.len() {
                        Err(
                            Error::Parser(
                                ParserError {
                                    kind: ParseErrorKind::MultipleRoots,
                                    line: entries[j].line,
                                },
                            ),
                        )
                    } else {
                        Ok(t)
                    },
                }
            },
        }
    }

    /// Parses a stylesheet document: a flat sequence of rules, all at depth
    /// zero, in document order.
    pub fn parse_style(source: &str) -> (r: Result<Style, Error>)
        requires
            source@.len() < usize::MAX,
        ensures
            match spec_parse_style(source@) {
                Result::Ok(rules) => r matches Result::Ok(st) && st@ == rules,
                Result::Err(es) => r matches Result::Err(e) && (e matches Error::Parser(pe)
                    && pe@ == es),
            },
    {
        let len = source.unicode_len();
        match lex(source, len, 0, 1) {
            Result::Err(e) => Err(Error::Parser(e)),
            Result::Ok(entries) => match build_style(&entries, 0) {
                Result::Err(e) => Err(Error::Parser(e)),
                Result::Ok(rules) => {
                    let ghost rv = Seq::new(rules@.len(), |k: int| rules@[k]@);
                    let st = Style { components: rules };
                    proof {
                        assert(st@ =~= rv);
                    }
                    Ok(st)
                },
            },
        }
    }
}


impl ComponentTemplate {
    /// Parses a template document into its single root component, or fails
    /// with the structural error of the first offending line.
    pub fn from_str(source: &str) -> (r: Result<ComponentTemplate, Error>)
        requires
            source@.len() < usize::MAX,
        ensures
            match spec_parse_document(source@) {
                Result::Ok(tv) => r matches Result::Ok(t) && t@ == tv,
                Result::Err(es) => r matches Result::Err(e) && (e matches Error::Parser(pe)
                    && pe@ == es),
            },
    {
        TemplateParser::parse_document(source)
    }
}

impl Style {
    /// Parses a stylesheet document into its ordered rules, or fails with
    /// the structural error of the first offending line.
    pub fn from_str(source: &str) -> (r: Result<Style, Error>)
        requires
            source@.len() < usize::MAX,
        ensures
            match spec_parse_style(source@) {
                Result::Ok(rules) => r matches Result::Ok(st) && st@ == rules,
                Result::Err(es) => r matches Result::Err(e) && (e matches Error::Parser(pe)
                    && pe@ == es),
            },
    {
        TemplateParser::parse_style(source)
    }
}

impl Template {
    /// Parses a template document, wrapping its root component.
    pub fn from_str(source: &str) -> (r: Result<Template, Error>)
        requires
            source@.len() < usize::MAX,
        ensures
            match spec_parse_document(source@) {
                Result::Ok(tv) => r matches Result::Ok(t) && t.root@ == tv,
                Result::Err(es) => r matches Result::Err(e) && (e matches Error::Parser(pe)
                    && pe@ == es),
            },
    {
        match TemplateParser::parse_document(source) {
            Result::Ok(root) => Ok(Template { root }),
            Result::Err(e) => Err(e),
        }
    }
}

} // verus!
