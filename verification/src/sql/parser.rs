use crate::sql::lexer::{
    at, byte_at, digits_value, is_digit, is_word, keyword, lemma_skip_digits, match_keyword,
    match_space, read_digits, scan_digits, scan_quoted, scan_word, skip_digits, skip_quoted,
    skip_word, space, take_text,
};
use crate::sql::number::fits;
use crate::sql::operator::Operator;
use crate::sql::text::texts;
use crate::sql::value::{Idiom, Number, Thing, Val, Value};
use crate::sql::words::{
    text_and, text_false, text_null, text_or, text_true, text_void, word_and, word_false,
    word_null, word_or, word_true, word_void,
};
use vstd::prelude::*;

verus! {

/// What a parser found, and where what it read ends.
pub struct Hit<T> {
    pub value: T,
    pub end: int,
}

/// Where what a parser read ends.
pub open spec fn end_of<T>(r: Option<(T, usize)>) -> int {
    match r {
        Some((_, e)) => e as int,
        None => 0,
    }
}

/// The content of what a parser of values returned.
pub open spec fn value_hit(r: Option<(Value, usize)>) -> Option<Hit<Val>> {
    match r {
        Some((v, e)) => Some(Hit { value: v@, end: e as int }),
        None => None,
    }
}

/// The content of what a parser of text returned.
pub open spec fn text_hit(r: Option<(Vec<u8>, usize)>) -> Option<Hit<Seq<u8>>> {
    match r {
        Some((v, e)) => Some(Hit { value: v@, end: e as int }),
        None => None,
    }
}

/// The content of what a parser of paths returned.
pub open spec fn path_hit(r: Option<(Idiom, usize)>) -> Option<Hit<Seq<Seq<u8>>>> {
    match r {
        Some((v, e)) => Some(Hit { value: v@, end: e as int }),
        None => None,
    }
}

/// The digit at `p`, or zero where `p` is at or beyond `to`.
pub open spec fn digit_or_zero(s: Seq<u8>, p: int, to: int) -> int {
    if 0 <= p < to && p < s.len() {
        s[p] - 48
    } else {
        0
    }
}

/// The number of millionths that the digits from `from` up to `to` spell
/// behind a decimal point.
pub open spec fn millionths(s: Seq<u8>, from: int, to: int) -> int {
    digit_or_zero(s, from, to) * 100000 + digit_or_zero(s, from + 1, to) * 10000 + digit_or_zero(
        s,
        from + 2,
        to,
    ) * 1000 + digit_or_zero(s, from + 3, to) * 100 + digit_or_zero(s, from + 4, to) * 10
        + digit_or_zero(s, from + 5, to)
}

/// A number: an optional minus sign, digits, and optionally a point and up to
/// six more digits. The number has to be representable.
pub open spec fn parse_number(s: Seq<u8>, i: int) -> Option<Hit<int>> {
    let a = if at(s, i, 45) {
        i + 1
    } else {
        i
    };
    let b = skip_digits(s, a);
    let c = if at(s, b, 46) && skip_digits(s, b + 1) > b + 1 {
        skip_digits(s, b + 1)
    } else {
        b
    };
    let m = digits_value(s, a, b) * 1000000 + if c > b {
        millionths(s, b + 1, c)
    } else {
        0
    };
    let v = if at(s, i, 45) {
        -m
    } else {
        m
    };
    if i < 0 || b <= a || c - b > 7 || !fits(v) {
        None
    } else {
        Some(Hit { value: v, end: c })
    }
}

/// A name: one or more letters, digits and underscores.
pub open spec fn parse_ident(s: Seq<u8>, i: int) -> Option<Hit<Seq<u8>>> {
    if 0 <= i && skip_word(s, i) > i && skip_word(s, i) <= s.len() {
        Some(Hit { value: s.subrange(i, skip_word(s, i)), end: skip_word(s, i) })
    } else {
        None
    }
}

/// A path: names with points between them.
pub open spec fn parse_idiom(s: Seq<u8>, i: int) -> Option<Hit<Seq<Seq<u8>>>>
    decreases s.len() - i,
{
    match parse_ident(s, i) {
        None => None,
        Some(h) => if at(s, h.end, 46) && h.end > i {
            match parse_idiom(s, h.end + 1) {
                Some(t) => Some(Hit { value: seq![h.value] + t.value, end: t.end }),
                None => Some(Hit { value: seq![h.value], end: h.end }),
            }
        } else {
            Some(Hit { value: seq![h.value], end: h.end })
        },
    }
}

/// Text between double quotes. There is no way to write a double quote
/// within it.
pub open spec fn parse_strand(s: Seq<u8>, i: int) -> Option<Hit<Seq<u8>>> {
    if at(s, i, 34) && at(s, skip_quoted(s, i + 1), 34) {
        Some(Hit { value: s.subrange(i + 1, skip_quoted(s, i + 1)), end: skip_quoted(s, i + 1) + 1 })
    } else {
        None
    }
}

/// A keyword that stands for a value and is not the beginning of a name.
pub open spec fn parse_constant(s: Seq<u8>, i: int, word: Seq<u8>) -> Option<int> {
    match keyword(s, i, word) {
        Some(e) => if e < s.len() && is_word(s[e]) {
            None
        } else {
            Some(e)
        },
        None => None,
    }
}

/// A binary operator of expressions.
pub open spec fn parse_operator(s: Seq<u8>, i: int) -> Option<Hit<Operator>> {
    if at(s, i, 33) && at(s, i + 1, 61) {
        Some(Hit { value: Operator::NotEqual, end: i + 2 })
    } else if at(s, i, 60) && at(s, i + 1, 61) {
        Some(Hit { value: Operator::LessThanOrEqual, end: i + 2 })
    } else if at(s, i, 62) && at(s, i + 1, 61) {
        Some(Hit { value: Operator::MoreThanOrEqual, end: i + 2 })
    } else if at(s, i, 61) {
        Some(Hit { value: Operator::Equal, end: i + 1 })
    } else if at(s, i, 60) {
        Some(Hit { value: Operator::LessThan, end: i + 1 })
    } else if at(s, i, 62) {
        Some(Hit { value: Operator::MoreThan, end: i + 1 })
    } else if at(s, i, 43) {
        Some(Hit { value: Operator::Add, end: i + 1 })
    } else if at(s, i, 45) {
        Some(Hit { value: Operator::Sub, end: i + 1 })
    } else if at(s, i, 42) {
        Some(Hit { value: Operator::Mul, end: i + 1 })
    } else if at(s, i, 47) {
        Some(Hit { value: Operator::Div, end: i + 1 })
    } else if keyword(s, i, word_and()) is Some {
        Some(Hit { value: Operator::And, end: keyword(s, i, word_and())->0 })
    } else if keyword(s, i, word_or()) is Some {
        Some(Hit { value: Operator::Or, end: keyword(s, i, word_or())->0 })
    } else {
        None
    }
}

/// What a name stands for: among the sources of a statement a table, or with
/// a colon and a second name a record; anywhere else a path.
pub open spec fn parse_name(s: Seq<u8>, i: int, source: bool) -> Option<Hit<Val>> {
    if source {
        match parse_ident(s, i) {
            None => None,
            Some(h) => if at(s, h.end, 58) && parse_ident(s, h.end + 1) is Some {
                Some(
                    Hit {
                        value: Val::Thing(h.value, parse_ident(s, h.end + 1)->0.value),
                        end: parse_ident(s, h.end + 1)->0.end,
                    },
                )
            } else {
                Some(Hit { value: Val::Table(h.value), end: h.end })
            },
        }
    } else {
        match parse_idiom(s, i) {
            None => None,
            Some(h) => Some(Hit { value: Val::Idiom(h.value), end: h.end }),
        }
    }
}

/// One operand: a value in parentheses, text in quotes, a parameter, a
/// number, one of `VOID`, `NULL`, `true` and `false`, or a name.
pub open spec fn parse_operand(s: Seq<u8>, i: int, source: bool) -> Option<Hit<Val>>
    decreases s.len() - i, 1int,
{
    if i < 0 || i >= s.len() {
        None
    } else if s[i] == 40 {
        match parse_value(s, i + 1, source) {
            Some(h) => if at(s, h.end, 41) {
                Some(Hit { value: Val::Subquery(Box::new(h.value)), end: h.end + 1 })
            } else {
                None
            },
            None => None,
        }
    } else if s[i] == 34 {
        match parse_strand(s, i) {
            Some(h) => Some(Hit { value: Val::Strand(h.value), end: h.end }),
            None => None,
        }
    } else if s[i] == 36 {
        match parse_ident(s, i + 1) {
            Some(h) => Some(Hit { value: Val::Param(h.value), end: h.end }),
            None => None,
        }
    } else if s[i] == 45 || is_digit(s[i]) {
        match parse_number(s, i) {
            Some(h) => Some(Hit { value: Val::Number(h.value), end: h.end }),
            None => None,
        }
    } else if parse_constant(s, i, word_void()) is Some {
        Some(Hit { value: Val::Void, end: parse_constant(s, i, word_void())->0 })
    } else if parse_constant(s, i, word_null()) is Some {
        Some(Hit { value: Val::Null, end: parse_constant(s, i, word_null())->0 })
    } else if parse_constant(s, i, word_true()) is Some {
        Some(Hit { value: Val::Bool(true), end: parse_constant(s, i, word_true())->0 })
    } else if parse_constant(s, i, word_false()) is Some {
        Some(Hit { value: Val::Bool(false), end: parse_constant(s, i, word_false())->0 })
    } else {
        parse_name(s, i, source)
    }
}

/// Where the right-hand side of a binary operation begins, and the operator:
/// white space, an operator and white space behind the left-hand side.
pub open spec fn parse_infix(s: Seq<u8>, i: int) -> Option<Hit<Operator>> {
    match space(s, i) {
        None => None,
        Some(a) => match parse_operator(s, a) {
            None => None,
            Some(op) => match space(s, op.end) {
                None => None,
                Some(b) => Some(Hit { value: op.value, end: b }),
            },
        },
    }
}

/// A value: one operand, or a binary operation whose right-hand side is a
/// value, so that operations group to the right.
pub open spec fn parse_value(s: Seq<u8>, i: int, source: bool) -> Option<Hit<Val>>
    decreases s.len() - i, 2int,
{
    match parse_operand(s, i, source) {
        None => None,
        Some(l) => match parse_infix(s, l.end) {
            None => Some(l),
            Some(op) => if i < op.end <= s.len() {
                match parse_value(s, op.end, source) {
                    None => Some(l),
                    Some(r) => Some(
                        Hit {
                            value: Val::Expression(Box::new(l.value), op.value, Box::new(r.value)),
                            end: r.end,
                        },
                    ),
                }
            } else {
                Some(l)
            },
        },
    }
}

/// The digit at `p`, or zero where `p` is at or beyond `to`.
fn read_digit(s: &[u8], from: usize, k: usize, to: usize) -> (r: i128)
    requires
        from <= to <= s.len(),
        forall|p: int| from <= p < to ==> is_digit(s@[p]),
    ensures
        r == digit_or_zero(s@, from + k, to as int),
        0 <= r <= 9,
{
    if k < to - from {
        (s[from + k] - 48) as i128
    } else {
        0
    }
}

/// A number at `i`.
pub(crate) fn number(s: &[u8], i: usize) -> (r: Option<(Number, usize)>)
    requires
        i <= s.len(),
    ensures
        match r {
            Some((n, e)) => parse_number(s@, i as int) == Some(Hit { value: n.0 as int, end: e as int })
                && i < e <= s.len(),
            None => parse_number(s@, i as int) is None,
        },
{
    let negative = byte_at(s, i, 45);
    let a = if negative {
        i + 1
    } else {
        i
    };
    let b = scan_digits(s, a);
    if b <= a {
        return None;
    }
    proof {
        lemma_skip_digits(s@, a as int);
    }
    let fraction = byte_at(s, b, 46) && scan_digits(s, b + 1) > b + 1;
    let c = if fraction {
        scan_digits(s, b + 1)
    } else {
        b
    };
    if c - b > 7 {
        return None;
    }
    proof {
        if fraction {
            lemma_skip_digits(s@, b + 1);
        }
    }
    let whole = match read_digits(s, a, b) {
        Some(w) => w,
        None => {
            return None;
        },
    };
    let part: i128 = if fraction {
        read_digit(s, b + 1, 0, c) * 100000 + read_digit(s, b + 1, 1, c) * 10000 + read_digit(
            s,
            b + 1,
            2,
            c,
        ) * 1000 + read_digit(s, b + 1, 3, c) * 100 + read_digit(s, b + 1, 4, c) * 10
            + read_digit(s, b + 1, 5, c)
    } else {
        0
    };
    let m: i128 = (whole as i128) * 1000000 + part;
    let v: i128 = if negative {
        -m
    } else {
        m
    };
    if v < i64::MIN as i128 || v > i64::MAX as i128 {
        None
    } else {
        Some((Number(v as i64), c))
    }
}

/// A name at `i`.
pub(crate) fn ident(s: &[u8], i: usize) -> (r: Option<(Vec<u8>, usize)>)
    requires
        i <= s.len(),
    ensures
        text_hit(r) == parse_ident(s@, i as int),
        r is Some ==> i < end_of(r) <= s.len(),
{
    let e = scan_word(s, i);
    if e > i {
        Some((take_text(s, i, e), e))
    } else {
        None
    }
}

/// A path at `i`.
pub(crate) fn idiom(s: &[u8], i: usize) -> (r: Option<(Idiom, usize)>)
    requires
        i <= s.len(),
    ensures
        path_hit(r) == parse_idiom(s@, i as int),
        r is Some ==> i < end_of(r) <= s.len(),
    decreases s.len() - i,
{
    match ident(s, i) {
        None => None,
        Some((name, e)) => {
            if byte_at(s, e, 46) {
                match idiom(s, e + 1) {
                    Some((rest, end)) => {
                        let mut parts = rest.parts;
                        let ghost tail = texts(parts@);
                        parts.insert(0, name);
                        assert(texts(parts@) =~= seq![name@] + tail);
                        Some((Idiom { parts }, end))
                    },
                    None => {
                        let mut parts: Vec<Vec<u8>> = Vec::new();
                        parts.push(name);
                        assert(texts(parts@) =~= seq![name@]);
                        Some((Idiom { parts }, e))
                    },
                }
            } else {
                let mut parts: Vec<Vec<u8>> = Vec::new();
                parts.push(name);
                assert(texts(parts@) =~= seq![name@]);
                Some((Idiom { parts }, e))
            }
        },
    }
}

/// Text in quotes at `i`.
pub(crate) fn strand(s: &[u8], i: usize) -> (r: Option<(Vec<u8>, usize)>)
    requires
        i <= s.len(),
    ensures
        text_hit(r) == parse_strand(s@, i as int),
        r is Some ==> i < end_of(r) <= s.len(),
{
    if !byte_at(s, i, 34) {
        return None;
    }
    let e = scan_quoted(s, i + 1);
    if byte_at(s, e, 34) {
        Some((take_text(s, i + 1, e), e + 1))
    } else {
        None
    }
}

/// The end of the keyword `word` at `i`, where no name goes on behind it.
pub(crate) fn constant(s: &[u8], i: usize, word: &Vec<u8>) -> (r: Option<usize>)
    requires
        i <= s.len(),
    ensures
        match r {
            Some(e) => parse_constant(s@, i as int, word@) == Some(e as int) && i <= e <= s.len(),
            None => parse_constant(s@, i as int, word@) is None,
        },
{
    match match_keyword(s, i, word) {
        Some(e) => {
            if e < s.len() && crate::sql::lexer::word_byte(s[e]) {
                None
            } else {
                Some(e)
            }
        },
        None => None,
    }
}

/// A binary operator at `i`.
pub(crate) fn operator(s: &[u8], i: usize) -> (r: Option<(Operator, usize)>)
    requires
        i <= s.len(),
    ensures
        match r {
            Some((op, e)) => parse_operator(s@, i as int) == Some(Hit { value: op, end: e as int })
                && i <= e <= s.len(),
            None => parse_operator(s@, i as int) is None,
        },
{
    if byte_at(s, i, 33) && byte_at(s, i + 1, 61) {
        Some((Operator::NotEqual, i + 2))
    } else if byte_at(s, i, 60) && byte_at(s, i + 1, 61) {
        Some((Operator::LessThanOrEqual, i + 2))
    } else if byte_at(s, i, 62) && byte_at(s, i + 1, 61) {
        Some((Operator::MoreThanOrEqual, i + 2))
    } else if byte_at(s, i, 61) {
        Some((Operator::Equal, i + 1))
    } else if byte_at(s, i, 60) {
        Some((Operator::LessThan, i + 1))
    } else if byte_at(s, i, 62) {
        Some((Operator::MoreThan, i + 1))
    } else if byte_at(s, i, 43) {
        Some((Operator::Add, i + 1))
    } else if byte_at(s, i, 45) {
        Some((Operator::Sub, i + 1))
    } else if byte_at(s, i, 42) {
        Some((Operator::Mul, i + 1))
    } else if byte_at(s, i, 47) {
        Some((Operator::Div, i + 1))
    } else {
        match match_keyword(s, i, &text_and()) {
            Some(e) => Some((Operator::And, e)),
            None => match match_keyword(s, i, &text_or()) {
                Some(e) => Some((Operator::Or, e)),
                None => None,
            },
        }
    }
}

/// What the name at `i` stands for.
pub(crate) fn name(s: &[u8], i: usize, source: bool) -> (r: Option<(Value, usize)>)
    requires
        i <= s.len(),
    ensures
        value_hit(r) == parse_name(s@, i as int, source),
        r is Some ==> i < end_of(r) <= s.len(),
{
    if source {
        match ident(s, i) {
            None => None,
            Some((tb, e)) => {
                if byte_at(s, e, 58) {
                    match ident(s, e + 1) {
                        Some((id, end)) => Some((Value::Thing(Thing { tb, id }), end)),
                        None => Some((Value::Table(tb), e)),
                    }
                } else {
                    Some((Value::Table(tb), e))
                }
            },
        }
    } else {
        match idiom(s, i) {
            None => None,
            Some((path, e)) => Some((Value::Idiom(path), e)),
        }
    }
}

/// One operand at `i`.
pub(crate) fn operand(s: &[u8], i: usize, source: bool) -> (r: Option<(Value, usize)>)
    requires
        i <= s.len(),
    ensures
        value_hit(r) == parse_operand(s@, i as int, source),
        r is Some ==> i < end_of(r) <= s.len(),
    decreases s.len() - i, 1int,
{
    if i >= s.len() {
        return None;
    }
    let b = s[i];
    if b == 40 {
        match value(s, i + 1, source) {
            Some((v, e)) => {
                if byte_at(s, e, 41) {
                    Some((Value::Subquery(Box::new(v)), e + 1))
                } else {
                    None
                }
            },
            None => None,
        }
    } else if b == 34 {
        match strand(s, i) {
            Some((t, e)) => Some((Value::Strand(t), e)),
            None => None,
        }
    } else if b == 36 {
        match ident(s, i + 1) {
            Some((t, e)) => Some((Value::Param(t), e)),
            None => None,
        }
    } else if b == 45 || crate::sql::lexer::digit_byte(b) {
        match number(s, i) {
            Some((n, e)) => Some((Value::Number(n), e)),
            None => None,
        }
    } else {
        match constant(s, i, &text_void()) {
            Some(e) => {
                return Some((Value::Void, e));
            },
            None => {},
        }
        match constant(s, i, &text_null()) {
            Some(e) => {
                return Some((Value::Null, e));
            },
            None => {},
        }
        match constant(s, i, &text_true()) {
            Some(e) => {
                return Some((Value::Bool(true), e));
            },
            None => {},
        }
        match constant(s, i, &text_false()) {
            Some(e) => {
                return Some((Value::Bool(false), e));
            },
            None => {},
        }
        name(s, i, source)
    }
}

/// The operator and the beginning of the right-hand side behind a left-hand
/// side that ends at `i`.
pub(crate) fn infix(s: &[u8], i: usize) -> (r: Option<(Operator, usize)>)
    requires
        i <= s.len(),
    ensures
        match r {
            Some((op, e)) => parse_infix(s@, i as int) == Some(Hit { value: op, end: e as int }) && i
                < e <= s.len(),
            None => parse_infix(s@, i as int) is None,
        },
{
    match match_space(s, i) {
        None => None,
        Some(a) => match operator(s, a) {
            None => None,
            Some((op, e)) => match match_space(s, e) {
                None => None,
                Some(b) => Some((op, b)),
            },
        },
    }
}

/// A value at `i`.
pub(crate) fn value(s: &[u8], i: usize, source: bool) -> (r: Option<(Value, usize)>)
    requires
        i <= s.len(),
    ensures
        value_hit(r) == parse_value(s@, i as int, source),
        r is Some ==> i < end_of(r) <= s.len(),
    decreases s.len() - i, 2int,
{
    match operand(s, i, source) {
        None => None,
        Some((l, e)) => match infix(s, e) {
            None => Some((l, e)),
            Some((op, b)) => match value(s, b, source) {
                None => Some((l, e)),
                Some((r, end)) => Some((Value::Expression(Box::new(l), op, Box::new(r)), end)),
            },
        },
    }
}

} // verus!
