use crate::sql::clause::SortKey;
use crate::sql::format::{
    padded, show_column, show_columns, show_items, show_number, show_operator, show_path,
    show_paths, show_sort_key, show_sort_keys, show_value, trimmed,
};
use crate::sql::grammar::{
    parse_alias, parse_direction, parse_field, parse_fields, parse_idioms, parse_sort_key,
    parse_sort_keys, parse_sources, parse_uint, separator, Column,
};
use crate::sql::lexer::{
    at, digits_value, is_digit, is_space, is_word, keyword, lower, skip_digits, skip_quoted,
    skip_space, skip_word, space,
};
use crate::sql::number::fits;
use crate::sql::operator::Operator;
use crate::sql::parser::{
    digit_or_zero, millionths, parse_constant, parse_ident, parse_idiom, parse_infix, parse_number,
    parse_operand, parse_operator, parse_strand, parse_value, Hit,
};
use crate::sql::text::decimal;
use crate::sql::value::Val;
use crate::sql::words::{
    word_and, word_as, word_asc, word_desc, word_false, word_fetch, word_from, word_group,
    word_limit, word_null, word_or, word_order, word_split, word_start, word_timeout, word_true,
    word_version, word_void, word_where,
};
use vstd::prelude::*;

verus! {

/// Whether the text `t` stands in `s` at `i`.
pub open spec fn holds(s: Seq<u8>, i: int, t: Seq<u8>) -> bool {
    0 <= i && i + t.len() <= s.len() && s.subrange(i, i + t.len()) == t
}

/// Whether what stands at `i` does not go on a run of digits: the text ends
/// there or holds a byte that is no digit.
pub open spec fn ends_digits(s: Seq<u8>, i: int) -> bool {
    i >= s.len() || !is_digit(s[i])
}

/// The bytes of a text that stands in `s` are the bytes of `s` there.
pub proof fn lemma_holds(s: Seq<u8>, i: int, t: Seq<u8>)
    requires
        holds(s, i, t),
    ensures
        forall|k: int| 0 <= k < t.len() ==> s[i + k] == #[trigger] t[k],
{
    assert forall|k: int| 0 <= k < t.len() implies s[i + k] == #[trigger] t[k] by {
        assert(s.subrange(i, i + t.len())[k] == s[i + k]);
    }
}

/// Two texts stand one behind the other exactly where their concatenation
/// stands.
pub proof fn lemma_holds_both(s: Seq<u8>, i: int, a: Seq<u8>, b: Seq<u8>)
    ensures
        holds(s, i, a + b) <==> holds(s, i, a) && holds(s, i + a.len(), b),
{
    if holds(s, i, a + b) {
        lemma_holds(s, i, a + b);
        assert(s.subrange(i, i + a.len()) =~= a) by {
            assert forall|k: int| 0 <= k < a.len() implies s.subrange(i, i + a.len())[k] == a[k] by {
                assert((a + b)[k] == a[k]);
            }
        }
        assert(s.subrange(i + a.len(), i + a.len() + b.len()) =~= b) by {
            assert forall|k: int| 0 <= k < b.len() implies s.subrange(
                i + a.len(),
                i + a.len() + b.len(),
            )[k] == b[k] by {
                assert((a + b)[a.len() + k] == b[k]);
            }
        }
    }
    if holds(s, i, a) && holds(s, i + a.len(), b) {
        lemma_holds(s, i, a);
        lemma_holds(s, i + a.len(), b);
        assert(s.subrange(i, i + (a + b).len()) =~= a + b);
    }
}

/// The decimal digits of a number are digits, and there is at least one.
pub proof fn lemma_decimal_digits(n: int)
    requires
        0 <= n,
    ensures
        decimal(n).len() >= 1,
        forall|k: int| 0 <= k < decimal(n).len() ==> is_digit(#[trigger] decimal(n)[k]),
    decreases n,
{
    if n >= 10 {
        lemma_decimal_digits(n / 10);
    }
}

/// The decimal digits of a number spell the number.
pub proof fn lemma_read_decimal(s: Seq<u8>, i: int, n: int)
    requires
        0 <= n,
        holds(s, i, decimal(n)),
    ensures
        digits_value(s, i, i + decimal(n).len()) == n,
    decreases n,
{
    let t = decimal(n);
    lemma_holds(s, i, t);
    if n >= 10 {
        let front = decimal(n / 10);
        assert(t == front.push((48 + n % 10) as u8));
        assert(t =~= front + seq![(48 + n % 10) as u8]);
        lemma_holds_both(s, i, front, seq![(48 + n % 10) as u8]);
        lemma_read_decimal(s, i, n / 10);
        assert(s[i + t.len() - 1] == t[t.len() - 1]);
    } else {
        assert(s[i] == t[0]);
        assert(digits_value(s, i, i) == 0);
    }
}

/// A run of digits that ends at `e` is passed over up to `e`.
pub proof fn lemma_skip_digits_to(s: Seq<u8>, i: int, e: int)
    requires
        0 <= i <= e <= s.len(),
        forall|k: int| i <= k < e ==> is_digit(s[k]),
        ends_digits(s, e),
    ensures
        skip_digits(s, i) == e,
    decreases e - i,
{
    if i < e {
        lemma_skip_digits_to(s, i + 1, e);
    }
}

/// A count that was written is read back: where the decimal digits of `n`
/// stand and no digit follows them, the number that is read is `n`, and it
/// ends where the digits end.
pub proof fn lemma_uint_round_trip(s: Seq<u8>, i: int, n: int)
    requires
        0 <= n <= u64::MAX,
        holds(s, i, decimal(n)),
        ends_digits(s, i + decimal(n).len()),
    ensures
        parse_uint(s, i) == Some(Hit { value: n, end: i + decimal(n).len() }),
{
    let t = decimal(n);
    lemma_decimal_digits(n);
    lemma_holds(s, i, t);
    assert forall|k: int| i <= k < i + t.len() implies is_digit(s[k]) by {
        assert(s[i + (k - i)] == t[k - i]);
    }
    lemma_skip_digits_to(s, i, i + t.len());
    lemma_read_decimal(s, i, n);
}

/// Whether what stands at `i` ends a value: the text ends there, or a space,
/// a comma or a closing parenthesis follows.
pub open spec fn stops(s: Seq<u8>, i: int) -> bool {
    i >= s.len() || s[i] == 32 || s[i] == 44 || s[i] == 41
}

/// Whether what stands at `i` does not go on a name.
pub open spec fn ends_word(s: Seq<u8>, i: int) -> bool {
    i >= s.len() || !is_word(s[i])
}

/// Whether a text is a name: one or more letters, digits and underscores.
pub open spec fn word(n: Seq<u8>) -> bool {
    n.len() > 0 && forall|k: int| 0 <= k < n.len() ==> is_word(#[trigger] n[k])
}

/// Whether two texts are the same once the case of letters is set aside.
pub open spec fn same_no_case(n: Seq<u8>, w: Seq<u8>) -> bool {
    n.len() == w.len() && forall|k: int| 0 <= k < n.len() ==> lower(#[trigger] n[k]) == lower(w[k])
}

/// Whether a text is one of the words that stand for a value: `VOID`, `NULL`,
/// `true` and `false`, in any case.
pub open spec fn reserved(n: Seq<u8>) -> bool {
    same_no_case(n, word_void()) || same_no_case(n, word_null()) || same_no_case(n, word_true())
        || same_no_case(n, word_false())
}

/// Whether a text is one of the four words that stand for a value.
pub open spec fn constant_word(w: Seq<u8>) -> bool {
    w == word_void() || w == word_null() || w == word_true() || w == word_false()
}

/// A name that ends at `e` is passed over up to `e`.
pub proof fn lemma_skip_word_to(s: Seq<u8>, i: int, e: int)
    requires
        0 <= i <= e <= s.len(),
        forall|k: int| i <= k < e ==> is_word(s[k]),
        ends_word(s, e),
    ensures
        skip_word(s, i) == e,
    decreases e - i,
{
    if i < e {
        lemma_skip_word_to(s, i + 1, e);
    }
}

/// Text without a double quote that ends at `e` before one is passed over up
/// to `e`.
pub proof fn lemma_skip_quoted_to(s: Seq<u8>, i: int, e: int)
    requires
        0 <= i <= e < s.len(),
        forall|k: int| i <= k < e ==> s[k] != 34,
        s[e] == 34,
    ensures
        skip_quoted(s, i) == e,
    decreases e - i,
{
    if i < e {
        lemma_skip_quoted_to(s, i + 1, e);
    }
}

/// A name that was written is read back.
pub proof fn lemma_ident_round_trip(s: Seq<u8>, i: int, n: Seq<u8>)
    requires
        word(n),
        holds(s, i, n),
        ends_word(s, i + n.len()),
    ensures
        parse_ident(s, i) == Some(Hit { value: n, end: i + n.len() }),
{
    lemma_holds(s, i, n);
    assert forall|k: int| i <= k < i + n.len() implies is_word(s[k]) by {
        assert(s[i + (k - i)] == n[k - i]);
    }
    lemma_skip_word_to(s, i, i + n.len());
}

/// Text in quotes that was written is read back.
pub proof fn lemma_strand_round_trip(s: Seq<u8>, i: int, t: Seq<u8>)
    requires
        forall|k: int| 0 <= k < t.len() ==> t[k] != 34,
        holds(s, i, seq![34u8] + t + seq![34u8]),
    ensures
        parse_strand(s, i) == Some(Hit { value: t, end: i + t.len() + 2 }),
{
    let text = seq![34u8] + t + seq![34u8];
    lemma_holds(s, i, text);
    assert(s[i + 0] == text[0]);
    assert(s[i + (t.len() + 1)] == text[t.len() as int + 1]);
    assert forall|k: int| i + 1 <= k < i + 1 + t.len() implies s[k] != 34 by {
        assert(s[i + (k - i)] == text[k - i]);
        assert(text[k - i] == t[k - i - 1]);
    }
    lemma_skip_quoted_to(s, i + 1, i + 1 + t.len());
    assert(s.subrange(i + 1, i + 1 + t.len()) =~= t) by {
        assert forall|k: int| 0 <= k < t.len() implies s.subrange(i + 1, i + 1 + t.len())[k]
            == t[k] by {
            assert(s[i + (k + 1)] == text[k + 1]);
        }
    }
}

/// A keyword that was written is read: where the word stands, it is found and
/// ends where the word ends.
pub proof fn lemma_keyword_found(s: Seq<u8>, i: int, w: Seq<u8>)
    requires
        holds(s, i, w),
    ensures
        keyword(s, i, w) == Some(i + w.len()),
{
    lemma_holds(s, i, w);
    let rest = s.subrange(i, s.len() as int);
    assert forall|k: int| 0 <= k < w.len() implies lower(rest[k]) == lower(w[k]) by {
        assert(rest[k] == s[i + k]);
    }
}

/// A keyword is not found where a byte differs from it, the case of letters
/// set aside.
pub proof fn lemma_keyword_differs(s: Seq<u8>, i: int, w: Seq<u8>, k: int)
    requires
        0 <= i,
        0 <= k < w.len(),
        i + k >= s.len() || lower(s[i + k]) != lower(w[k]),
    ensures
        keyword(s, i, w) is None,
{
    if i <= s.len() {
        let rest = s.subrange(i, s.len() as int);
        if w.len() <= rest.len() {
            assert(rest[k] == s[i + k]);
        }
    }
}

/// A name that is none of the words that stand for a value is not read as
/// one of them.
pub proof fn lemma_not_constant(s: Seq<u8>, i: int, n: Seq<u8>, w: Seq<u8>)
    requires
        word(n),
        holds(s, i, n),
        ends_word(s, i + n.len()),
        constant_word(w),
        !same_no_case(n, w),
    ensures
        parse_constant(s, i, w) is None,
{
    lemma_holds(s, i, n);
    assert(w.len() == 4 || w.len() == 5);
    assert forall|k: int| 0 <= k < w.len() implies 97 <= #[trigger] lower(w[k]) <= 122 by {
        assert(constant_word(w));
    }
    if n.len() < w.len() {
        let k = n.len() as int;
        if i + k < s.len() {
            assert(!is_word(s[i + k]));
            assert(!(97 <= lower(s[i + k]) <= 122));
        }
        lemma_keyword_differs(s, i, w, k);
    } else if n.len() == w.len() {
        let k = choose|k: int| 0 <= k < n.len() && lower(#[trigger] n[k]) != lower(w[k]);
        assert(s[i + k] == n[k]);
        lemma_keyword_differs(s, i, w, k);
    } else {
        if keyword(s, i, w) is Some {
            assert(s[i + w.len()] == n[w.len() as int]);
        }
    }
}

/// The number that `width` digits spell, the lowest last, where digits that
/// are not there count as zero.
pub open spec fn digits_padded(s: Seq<u8>, from: int, to: int, width: int) -> int
    decreases width,
{
    if width <= 0 {
        0
    } else {
        digits_padded(s, from, to, width - 1) * 10 + digit_or_zero(s, from + width - 1, to)
    }
}

/// Ten to the power of `k`.
pub open spec fn power_of_ten(k: int) -> int
    decreases k,
{
    if k <= 0 {
        1
    } else {
        10 * power_of_ten(k - 1)
    }
}

/// A number written with `width` digits has `width` digits, and they are digits.
pub proof fn lemma_padded_digits(f: int, width: int)
    requires
        0 <= f,
        0 <= width,
    ensures
        padded(f, width).len() == width,
        forall|k: int| 0 <= k < width ==> is_digit(#[trigger] padded(f, width)[k]),
    decreases width,
{
    if width > 0 {
        lemma_padded_digits(f / 10, width - 1);
    }
}

/// A number written without the zeros at its end has at least one digit and
/// at most `width`, and they are digits.
pub proof fn lemma_trimmed_digits(f: int, width: int)
    requires
        0 <= f,
        1 <= width,
    ensures
        1 <= trimmed(f, width).len() <= width,
        forall|k: int| 0 <= k < trimmed(f, width).len() ==> is_digit(#[trigger] trimmed(f, width)[k]),
    decreases width,
{
    if width > 1 && f % 10 == 0 {
        lemma_trimmed_digits(f / 10, width - 1);
    } else {
        lemma_padded_digits(f, width);
    }
}

/// `width` digits that were written spell the number again.
pub proof fn lemma_read_padded(s: Seq<u8>, from: int, to: int, f: int, width: int)
    requires
        0 <= width,
        0 <= f < power_of_ten(width),
        holds(s, from, padded(f, width)),
        from + width <= to,
    ensures
        digits_padded(s, from, to, width) == f,
    decreases width,
{
    if width > 0 {
        let front = padded(f / 10, width - 1);
        let last = seq![(48 + f % 10) as u8];
        lemma_padded_digits(f / 10, width - 1);
        assert(padded(f, width) =~= front + last);
        lemma_holds_both(s, from, front, last);
        lemma_holds(s, from + width - 1, last);
        assert(s[from + width - 1 + 0] == last[0]);
        lemma_read_padded(s, from, to, f / 10, width - 1);
    }
}

/// Digits that were written without the zeros at their end spell the number
/// again when the missing digits count as zero.
pub proof fn lemma_read_trimmed(s: Seq<u8>, from: int, f: int, width: int)
    requires
        1 <= width,
        0 <= f < power_of_ten(width),
        holds(s, from, trimmed(f, width)),
    ensures
        digits_padded(s, from, from + trimmed(f, width).len(), width) == f,
    decreases width,
{
    lemma_trimmed_digits(f, width);
    if width > 1 && f % 10 == 0 {
        lemma_trimmed_digits(f / 10, width - 1);
        lemma_read_trimmed(s, from, f / 10, width - 1);
    } else {
        lemma_padded_digits(f, width);
        lemma_read_padded(s, from, from + width, f, width);
    }
}

/// A number that was written is read back: where its text stands and a
/// value ends behind it, the number that is read is the number, and it ends
/// where the text ends.
pub proof fn lemma_number_round_trip(s: Seq<u8>, i: int, n: int)
    requires
        fits(n),
        holds(s, i, show_number(n)),
        stops(s, i + show_number(n).len()),
    ensures
        parse_number(s, i) == Some(Hit { value: n, end: i + show_number(n).len() }),
{
    let m = if n < 0 {
        -n
    } else {
        n
    };
    let sign: Seq<u8> = if n < 0 {
        seq![45u8]
    } else {
        Seq::empty()
    };
    let whole = decimal(m / 1000000);
    let f = m % 1000000;
    let fraction: Seq<u8> = if f == 0 {
        Seq::empty()
    } else {
        seq![46u8] + trimmed(f, 6)
    };
    let text = show_number(n);
    assert(text == sign + whole + fraction);
    lemma_decimal_digits(m / 1000000);
    lemma_holds_both(s, i, sign + whole, fraction);
    lemma_holds_both(s, i, sign, whole);
    let a = i + sign.len();
    let b = a + whole.len();
    lemma_holds(s, a, whole);
    assert(s[a + 0] == whole[0]);
    if n < 0 {
        lemma_holds(s, i, sign);
        assert(s[i + 0] == sign[0]);
    }
    assert(at(s, i, 45) == (n < 0));
    assert forall|k: int| a <= k < b implies is_digit(s[k]) by {
        assert(s[a + (k - a)] == whole[k - a]);
    }
    if f == 0 {
        assert(text.len() == sign.len() + whole.len());
        lemma_skip_digits_to(s, a, b);
        lemma_read_decimal(s, a, m / 1000000);
        assert(!at(s, b, 46));
    } else {
        let t = trimmed(f, 6);
        lemma_trimmed_digits(f, 6);
        lemma_holds_both(s, b, seq![46u8], t);
        lemma_holds(s, b, seq![46u8]);
        assert(s[b + 0] == seq![46u8][0]);
        lemma_skip_digits_to(s, a, b);
        lemma_read_decimal(s, a, m / 1000000);
        let c = b + 1 + t.len();
        lemma_holds(s, b + 1, t);
        assert forall|k: int| b + 1 <= k < c implies is_digit(s[k]) by {
            assert(s[b + 1 + (k - b - 1)] == t[k - b - 1]);
        }
        assert(text.len() == sign.len() + whole.len() + 1 + t.len());
        lemma_skip_digits_to(s, b + 1, c);
        assert(power_of_ten(6) == 1000000) by {
            reveal_with_fuel(power_of_ten, 7);
        }
        lemma_read_trimmed(s, b + 1, f, 6);
        assert(digits_padded(s, b + 1, c, 6) == millionths(s, b + 1, c)) by {
            reveal_with_fuel(digits_padded, 7);
        }
    }
}

/// Whether a name can begin a value: it does not begin with a digit and is
/// none of the words that stand for a value.
pub open spec fn plain(n: Seq<u8>) -> bool {
    word(n) && !is_digit(n[0]) && !reserved(n)
}

/// Whether every text of a list is a name.
pub open spec fn words(p: Seq<Seq<u8>>) -> bool {
    forall|k: int| 0 <= k < p.len() ==> word(#[trigger] p[k])
}

/// Whether an operator can stand between two operands of an expression.
pub open spec fn binary(op: Operator) -> bool {
    !(op is Inc) && !(op is Dec)
}

/// Whether an operand is written in a way that is read back as it is.
///
/// Among sources a name is a table or a record, anywhere else a path. Names
/// are made of letters, digits and underscores, text in quotes holds no
/// double quote, and arrays, objects, ranges and futures have no text that is
/// read.
pub open spec fn canon_operand(v: Val, source: bool) -> bool
    decreases v, 0int,
{
    match v {
        Val::Void | Val::Null | Val::Bool(_) => true,
        Val::Number(n) => fits(n),
        Val::Strand(t) => forall|k: int| 0 <= k < t.len() ==> t[k] != 34,
        Val::Param(n) => word(n),
        Val::Table(n) => source && plain(n),
        Val::Thing(tb, id) => source && plain(tb) && word(id),
        Val::Idiom(p) => !source && p.len() > 0 && plain(p[0]) && words(p),
        Val::Subquery(inner) => canon_value(*inner, source),
        _ => false,
    }
}

/// Whether a value is written in a way that is read back as it is: an
/// operand, or an operation whose left-hand side is an operand.
pub open spec fn canon_value(v: Val, source: bool) -> bool
    decreases v, 1int,
{
    match v {
        Val::Expression(l, op, r) => canon_operand(*l, source) && binary(op) && canon_value(
            *r,
            source,
        ),
        _ => canon_operand(v, source),
    }
}

/// Whether what stands at `i` ends a value and does not go on as an
/// operation.
pub open spec fn closes(s: Seq<u8>, i: int) -> bool {
    stops(s, i) && parse_infix(s, i) is None
}

/// Whether a byte can begin the text of a value.
pub open spec fn begins_value(b: u8) -> bool {
    b == 40 || b == 34 || b == 36 || b == 45 || is_word(b)
}

/// One space before something else is passed over as white space.
pub proof fn lemma_one_space(s: Seq<u8>, i: int)
    requires
        0 <= i < s.len(),
        s[i] == 32,
        i + 1 >= s.len() || !is_space(s[i + 1]),
    ensures
        skip_space(s, i) == i + 1,
        space(s, i) == Some(i + 1),
{
    assert(skip_space(s, i + 1) == i + 1);
}

/// The text of a path begins with its first name, and the other names
/// follow it, each behind a point.
pub proof fn lemma_show_path_front(p: Seq<Seq<u8>>, n: int)
    requires
        2 <= n <= p.len(),
    ensures
        show_path(p, n) == p[0] + seq![46u8] + show_path(p.drop_first(), n - 1),
    decreases n,
{
    let rest = p.drop_first();
    if n == 2 {
        assert(show_path(p, 1) == p[0]);
        assert(show_path(rest, 1) == rest[0]);
        assert(show_path(p, 2) =~= p[0] + seq![46u8] + show_path(rest, 1));
    } else {
        lemma_show_path_front(p, n - 1);
        assert(rest[n - 2] == p[n - 1]);
        assert(show_path(p, n) =~= p[0] + seq![46u8] + show_path(rest, n - 1));
    }
}

/// A path that was written is read back.
pub proof fn lemma_idiom_round_trip(s: Seq<u8>, i: int, p: Seq<Seq<u8>>)
    requires
        p.len() > 0,
        words(p),
        holds(s, i, show_path(p, p.len() as int)),
        ends_word(s, i + show_path(p, p.len() as int).len()),
        !at(s, i + show_path(p, p.len() as int).len(), 46),
    ensures
        parse_idiom(s, i) == Some(Hit { value: p, end: i + show_path(p, p.len() as int).len() }),
    decreases p.len(),
{
    let text = show_path(p, p.len() as int);
    assert(word(p[0]));
    if p.len() == 1 {
        assert(text == p[0]);
        lemma_ident_round_trip(s, i, p[0]);
        assert(seq![p[0]] =~= p);
    } else {
        let rest = p.drop_first();
        lemma_show_path_front(p, p.len() as int);
        let tail = show_path(rest, rest.len() as int);
        assert(text == p[0] + seq![46u8] + tail);
        lemma_holds_both(s, i, p[0] + seq![46u8], tail);
        lemma_holds_both(s, i, p[0], seq![46u8]);
        let e = i + p[0].len();
        lemma_holds(s, e, seq![46u8]);
        assert(s[e + 0] == seq![46u8][0]);
        lemma_ident_round_trip(s, i, p[0]);
        assert(words(rest)) by {
            assert forall|k: int| 0 <= k < rest.len() implies word(#[trigger] rest[k]) by {
                assert(rest[k] == p[k + 1]);
            }
        }
        lemma_idiom_round_trip(s, e + 1, rest);
        assert(seq![p[0]] + rest =~= p);
    }
}

/// An operator that was written between two operands is read back.
pub proof fn lemma_operator_round_trip(s: Seq<u8>, i: int, op: Operator)
    requires
        binary(op),
        holds(s, i, show_operator(op)),
        at(s, i + show_operator(op).len(), 32),
    ensures
        parse_operator(s, i) == Some(Hit { value: op, end: i + show_operator(op).len() }),
{
    let text = show_operator(op);
    lemma_holds(s, i, text);
    assert(s[i + 0] == text[0]);
    if text.len() > 1 {
        assert(s[i + 1] == text[1]);
    }
    match op {
        Operator::And => {
            lemma_keyword_found(s, i, word_and());
        },
        Operator::Or => {
            lemma_keyword_differs(s, i, word_and(), 0);
            lemma_keyword_found(s, i, word_or());
        },
        _ => {},
    }
}

/// An operator that was written with a space on each side is read back
/// behind the left-hand side.
pub proof fn lemma_infix_round_trip(s: Seq<u8>, i: int, op: Operator)
    requires
        binary(op),
        holds(s, i, seq![32u8] + show_operator(op) + seq![32u8]),
        i + show_operator(op).len() + 2 < s.len(),
        !is_space(s[i + show_operator(op).len() + 2]),
    ensures
        parse_infix(s, i) == Some(Hit { value: op, end: i + show_operator(op).len() + 2 }),
{
    let text = show_operator(op);
    lemma_holds_both(s, i, seq![32u8] + text, seq![32u8]);
    lemma_holds_both(s, i, seq![32u8], text);
    lemma_holds(s, i, seq![32u8]);
    assert(s[i + 0] == seq![32u8][0]);
    lemma_holds(s, i + 1 + text.len(), seq![32u8]);
    assert(s[i + 1 + text.len() + 0] == seq![32u8][0]);
    lemma_holds(s, i + 1, text);
    assert(s[i + 1 + 0] == text[0]);
    lemma_one_space(s, i);
    lemma_operator_round_trip(s, i + 1, op);
    lemma_one_space(s, i + 1 + text.len());
}

/// The text of a value that is read back is not empty and begins with a byte
/// that can begin a value.
pub proof fn lemma_show_begins(v: Val, source: bool)
    requires
        canon_value(v, source),
    ensures
        show_value(v).len() > 0,
        begins_value(show_value(v)[0]),
    decreases v,
{
    if !(v is Expression) {
        assert(canon_operand(v, source));
    }
    match v {
        Val::Number(n) => {
            let m = if n < 0 {
                -n
            } else {
                n
            };
            lemma_decimal_digits(m / 1000000);
        },
        Val::Table(n) => {
            assert(plain(n));
            assert(is_word(n[0]));
        },
        Val::Thing(tb, id) => {
            assert(plain(tb));
            assert(is_word(tb[0]));
        },
        Val::Idiom(p) => {
            assert(word(p[0]));
            assert(is_word(p[0][0]));
            if p.len() > 1 {
                lemma_show_path_front(p, p.len() as int);
            }
        },
        Val::Expression(l, op, r) => {
            assert(canon_operand(*l, source));
            assert(canon_value(*l, source));
            lemma_show_begins(*l, source);
        },
        _ => {},
    }
}

/// An operand that was written is read back: where its text stands and a
/// value ends behind it, the operand that is read is the operand, and it ends
/// where the text ends.
pub proof fn lemma_operand_round_trip(s: Seq<u8>, i: int, v: Val, source: bool)
    requires
        canon_operand(v, source),
        holds(s, i, show_value(v)),
        stops(s, i + show_value(v).len()),
    ensures
        parse_operand(s, i, source) == Some(Hit { value: v, end: i + show_value(v).len() }),
    decreases v, 0int,
{
    let text = show_value(v);
    let e = i + text.len();
    lemma_holds(s, i, text);
    lemma_show_begins(v, source);
    assert(s[i + 0] == text[0]);
    match v {
        Val::Void => {
            lemma_keyword_found(s, i, word_void());
        },
        Val::Null => {
            lemma_keyword_differs(s, i, word_void(), 0);
            lemma_keyword_found(s, i, word_null());
        },
        Val::Bool(b) => {
            lemma_keyword_differs(s, i, word_void(), 0);
            lemma_keyword_differs(s, i, word_null(), 0);
            if b {
                lemma_keyword_found(s, i, word_true());
            } else {
                lemma_keyword_differs(s, i, word_true(), 0);
                lemma_keyword_found(s, i, word_false());
            }
        },
        Val::Number(n) => {
            lemma_number_round_trip(s, i, n);
        },
        Val::Strand(t) => {
            lemma_strand_round_trip(s, i, t);
        },
        Val::Param(n) => {
            lemma_holds_both(s, i, seq![36u8], n);
            lemma_ident_round_trip(s, i + 1, n);
        },
        Val::Table(n) => {
            lemma_not_constant(s, i, n, word_void());
            lemma_not_constant(s, i, n, word_null());
            lemma_not_constant(s, i, n, word_true());
            lemma_not_constant(s, i, n, word_false());
            lemma_ident_round_trip(s, i, n);
        },
        Val::Thing(tb, id) => {
            lemma_holds_both(s, i, tb + seq![58u8], id);
            lemma_holds_both(s, i, tb, seq![58u8]);
            lemma_holds(s, i + tb.len(), seq![58u8]);
            assert(s[i + tb.len() + 0] == seq![58u8][0]);
            lemma_not_constant(s, i, tb, word_void());
            lemma_not_constant(s, i, tb, word_null());
            lemma_not_constant(s, i, tb, word_true());
            lemma_not_constant(s, i, tb, word_false());
            lemma_ident_round_trip(s, i, tb);
            lemma_ident_round_trip(s, i + tb.len() + 1, id);
        },
        Val::Idiom(p) => {
            let first = p[0];
            if p.len() > 1 {
                lemma_show_path_front(p, p.len() as int);
                let tail = show_path(p.drop_first(), p.len() - 1);
                lemma_holds_both(s, i, first + seq![46u8], tail);
                lemma_holds_both(s, i, first, seq![46u8]);
                lemma_holds(s, i + first.len(), seq![46u8]);
                assert(s[i + first.len() + 0] == seq![46u8][0]);
            }
            lemma_not_constant(s, i, first, word_void());
            lemma_not_constant(s, i, first, word_null());
            lemma_not_constant(s, i, first, word_true());
            lemma_not_constant(s, i, first, word_false());
            lemma_idiom_round_trip(s, i, p);
        },
        Val::Subquery(inner) => {
            let body = show_value(*inner);
            lemma_holds_both(s, i, seq![40u8] + body, seq![41u8]);
            lemma_holds_both(s, i, seq![40u8], body);
            lemma_holds(s, i + 1 + body.len(), seq![41u8]);
            assert(s[i + 1 + body.len() + 0] == seq![41u8][0]);
            assert(space(s, i + 1 + body.len()) is None);
            lemma_value_round_trip(s, i + 1, *inner, source);
        },
        _ => {},
    }
}

/// A value that was written is read back: where its text stands, a value
/// ends behind it and no operation goes on there, the value that is read is
/// the value, and it ends where the text ends.
pub proof fn lemma_value_round_trip(s: Seq<u8>, i: int, v: Val, source: bool)
    requires
        canon_value(v, source),
        holds(s, i, show_value(v)),
        closes(s, i + show_value(v).len()),
    ensures
        parse_value(s, i, source) == Some(Hit { value: v, end: i + show_value(v).len() }),
    decreases v, 1int,
{
    match v {
        Val::Expression(l, op, r) => {
            let left = show_value(*l);
            let sign = seq![32u8] + show_operator(op) + seq![32u8];
            let right = show_value(*r);
            assert(show_value(v) =~= left + sign + right);
            lemma_holds_both(s, i, left + sign, right);
            lemma_holds_both(s, i, left, sign);
            lemma_holds(s, i + left.len(), sign);
            assert(s[i + left.len() + 0] == sign[0]);
            lemma_show_begins(*r, source);
            lemma_holds(s, i + left.len() + sign.len(), right);
            assert(s[i + left.len() + sign.len() + 0] == right[0]);
            lemma_operand_round_trip(s, i, *l, source);
            lemma_infix_round_trip(s, i + left.len(), op);
            lemma_value_round_trip(s, i + left.len() + sign.len(), *r, source);
        },
        _ => {
            lemma_operand_round_trip(s, i, v, source);
        },
    }
}

/// The text of a list of values begins with the first, and the others follow it, each
/// behind a comma and a space.
pub proof fn lemma_show_items_front(a: Seq<Val>, n: int)
    requires
        2 <= n <= a.len(),
    ensures
        show_items(a, n) == show_value(a[0]) + seq![44u8, 32u8] + show_items(a.drop_first(), n - 1),
    decreases n,
{
    let rest = a.drop_first();
    if n == 2 {
        assert(show_items(a, 1) == show_value(a[0]));
        assert(show_items(rest, 1) == show_value(rest[0]));
        assert(show_items(a, 2) =~= show_value(a[0]) + seq![44u8, 32u8] + show_items(rest, 1));
    } else {
        lemma_show_items_front(a, n - 1);
        assert(rest[n - 2] == a[n - 1]);
        assert(show_items(a, n) =~= show_value(a[0]) + seq![44u8, 32u8] + show_items(rest, n - 1));
    }
}

/// The text of a list of paths begins with the first, and the others follow it, each
/// behind a comma and a space.
pub proof fn lemma_show_paths_front(a: Seq<Seq<Seq<u8>>>, n: int)
    requires
        2 <= n <= a.len(),
    ensures
        show_paths(a, n) == show_path(a[0], a[0].len() as int) + seq![44u8, 32u8] + show_paths(a.drop_first(), n - 1),
    decreases n,
{
    let rest = a.drop_first();
    if n == 2 {
        assert(show_paths(a, 1) == show_path(a[0], a[0].len() as int));
        assert(show_paths(rest, 1) == show_path(rest[0], rest[0].len() as int));
        assert(show_paths(a, 2) =~= show_path(a[0], a[0].len() as int) + seq![44u8, 32u8] + show_paths(rest, 1));
    } else {
        lemma_show_paths_front(a, n - 1);
        assert(rest[n - 2] == a[n - 1]);
        assert(show_paths(a, n) =~= show_path(a[0], a[0].len() as int) + seq![44u8, 32u8] + show_paths(rest, n - 1));
    }
}

/// The text of a list of fields begins with the first, and the others follow it, each
/// behind a comma and a space.
pub proof fn lemma_show_columns_front(a: Seq<Column>, n: int)
    requires
        2 <= n <= a.len(),
    ensures
        show_columns(a, n) == show_column(a[0]) + seq![44u8, 32u8] + show_columns(a.drop_first(), n - 1),
    decreases n,
{
    let rest = a.drop_first();
    if n == 2 {
        assert(show_columns(a, 1) == show_column(a[0]));
        assert(show_columns(rest, 1) == show_column(rest[0]));
        assert(show_columns(a, 2) =~= show_column(a[0]) + seq![44u8, 32u8] + show_columns(rest, 1));
    } else {
        lemma_show_columns_front(a, n - 1);
        assert(rest[n - 2] == a[n - 1]);
        assert(show_columns(a, n) =~= show_column(a[0]) + seq![44u8, 32u8] + show_columns(rest, n - 1));
    }
}

/// The text of a list of sort keys begins with the first, and the others follow it, each
/// behind a comma and a space.
pub proof fn lemma_show_sort_keys_front(a: Seq<SortKey>, n: int)
    requires
        2 <= n <= a.len(),
    ensures
        show_sort_keys(a, n) == show_sort_key(a[0]) + seq![44u8, 32u8] + show_sort_keys(a.drop_first(), n - 1),
    decreases n,
{
    let rest = a.drop_first();
    if n == 2 {
        assert(show_sort_keys(a, 1) == show_sort_key(a[0]));
        assert(show_sort_keys(rest, 1) == show_sort_key(rest[0]));
        assert(show_sort_keys(a, 2) =~= show_sort_key(a[0]) + seq![44u8, 32u8] + show_sort_keys(rest, 1));
    } else {
        lemma_show_sort_keys_front(a, n - 1);
        assert(rest[n - 2] == a[n - 1]);
        assert(show_sort_keys(a, n) =~= show_sort_key(a[0]) + seq![44u8, 32u8] + show_sort_keys(rest, n - 1));
    }
}

/// Whether what stands at `i` ends a list: the text ends there or a space
/// follows.
pub open spec fn breaks(s: Seq<u8>, i: int) -> bool {
    i >= s.len() || s[i] == 32
}

/// Whether every value of a list is written in a way that is read back.
pub open spec fn canon_values(a: Seq<Val>, source: bool) -> bool {
    forall|k: int| 0 <= k < a.len() ==> canon_value(#[trigger] a[k], source)
}

/// Whether a path is written in a way that is read back: it has a name, and
/// its names are names.
pub open spec fn canon_path(p: Seq<Seq<u8>>) -> bool {
    p.len() > 0 && words(p)
}

/// Whether every path of a list is written in a way that is read back.
pub open spec fn canon_paths(a: Seq<Seq<Seq<u8>>>) -> bool {
    forall|k: int| 0 <= k < a.len() ==> canon_path(#[trigger] a[k])
}

/// Whether a field is written in a way that is read back.
pub open spec fn canon_column(c: Column) -> bool {
    match c {
        Column::All => true,
        Column::Alone(v) => canon_value(v, false),
        Column::Alias(v, p) => canon_value(v, false) && canon_path(p),
    }
}

/// Whether every field of a list is written in a way that is read back.
pub open spec fn canon_columns(a: Seq<Column>) -> bool {
    forall|k: int| 0 <= k < a.len() ==> canon_column(#[trigger] a[k])
}

/// Whether every sort key of a list is written in a way that is read back.
pub open spec fn canon_sort_keys(a: Seq<SortKey>) -> bool {
    forall|k: int| 0 <= k < a.len() ==> canon_path((#[trigger] a[k]).path)
}

/// The text of a path that is read back is not empty and begins with a byte
/// of a name.
pub proof fn lemma_path_begins(p: Seq<Seq<u8>>)
    requires
        canon_path(p),
    ensures
        show_path(p, p.len() as int).len() > 0,
        is_word(show_path(p, p.len() as int)[0]),
{
    assert(word(p[0]));
    assert(is_word(p[0][0]));
    if p.len() > 1 {
        lemma_show_path_front(p, p.len() as int);
    }
}

/// Behind a comma and a space the next item of a list begins.
pub proof fn lemma_separator(s: Seq<u8>, i: int)
    requires
        holds(s, i, seq![44u8, 32u8]),
        i + 2 < s.len(),
        !is_space(s[i + 2]),
    ensures
        separator(s, i) == Some(i + 2),
{
    lemma_holds(s, i, seq![44u8, 32u8]);
    assert(s[i + 0] == seq![44u8, 32u8][0]);
    assert(s[i + 1] == seq![44u8, 32u8][1]);
    lemma_one_space(s, i + 1);
}

/// A list of sources that was written is read back.
pub proof fn lemma_sources_round_trip(s: Seq<u8>, i: int, a: Seq<Val>)
    requires
        a.len() > 0,
        canon_values(a, true),
        holds(s, i, show_items(a, a.len() as int)),
        closes(s, i + show_items(a, a.len() as int).len()),
        breaks(s, i + show_items(a, a.len() as int).len()),
    ensures
        parse_sources(s, i) == Some(
            Hit { value: a, end: i + show_items(a, a.len() as int).len() },
        ),
    decreases a.len(),
{
    let first = show_value(a[0]);
    lemma_show_begins(a[0], true);
    if a.len() == 1 {
        lemma_value_round_trip(s, i, a[0], true);
        assert(seq![a[0]] =~= a);
    } else {
        let rest = a.drop_first();
        lemma_show_items_front(a, a.len() as int);
        let tail = show_items(rest, rest.len() as int);
        lemma_holds_both(s, i, first + seq![44u8, 32u8], tail);
        lemma_holds_both(s, i, first, seq![44u8, 32u8]);
        let e = i + first.len();
        lemma_holds(s, e, seq![44u8, 32u8]);
        assert(s[e + 0] == seq![44u8, 32u8][0]);
        assert(space(s, e) is None);
        lemma_value_round_trip(s, i, a[0], true);
        assert(canon_values(rest, true)) by {
            assert forall|k: int| 0 <= k < rest.len() implies canon_value(
                #[trigger] rest[k],
                true,
            ) by {
                assert(rest[k] == a[k + 1]);
            }
        }
        lemma_show_begins(rest[0], true);
        if rest.len() > 1 {
            lemma_show_items_front(rest, rest.len() as int);
        }
        lemma_holds(s, e + 2, tail);
        assert(s[e + 2 + 0] == tail[0]);
        lemma_separator(s, e);
        lemma_sources_round_trip(s, e + 2, rest);
        assert(seq![a[0]] + rest =~= a);
    }
}

/// A list of paths that was written is read back.
pub proof fn lemma_idioms_round_trip(s: Seq<u8>, i: int, a: Seq<Seq<Seq<u8>>>)
    requires
        a.len() > 0,
        canon_paths(a),
        holds(s, i, show_paths(a, a.len() as int)),
        breaks(s, i + show_paths(a, a.len() as int).len()),
    ensures
        parse_idioms(s, i) == Some(
            Hit { value: a, end: i + show_paths(a, a.len() as int).len() },
        ),
    decreases a.len(),
{
    let first = show_path(a[0], a[0].len() as int);
    assert(canon_path(a[0]));
    if a.len() == 1 {
        lemma_idiom_round_trip(s, i, a[0]);
        assert(seq![a[0]] =~= a);
    } else {
        let rest = a.drop_first();
        lemma_show_paths_front(a, a.len() as int);
        let tail = show_paths(rest, rest.len() as int);
        lemma_holds_both(s, i, first + seq![44u8, 32u8], tail);
        lemma_holds_both(s, i, first, seq![44u8, 32u8]);
        let e = i + first.len();
        lemma_holds(s, e, seq![44u8, 32u8]);
        assert(s[e + 0] == seq![44u8, 32u8][0]);
        lemma_idiom_round_trip(s, i, a[0]);
        assert(canon_paths(rest)) by {
            assert forall|k: int| 0 <= k < rest.len() implies canon_path(#[trigger] rest[k]) by {
                assert(rest[k] == a[k + 1]);
            }
        }
        lemma_path_begins(rest[0]);
        if rest.len() > 1 {
            lemma_show_paths_front(rest, rest.len() as int);
        }
        lemma_holds(s, e + 2, tail);
        assert(s[e + 2 + 0] == tail[0]);
        lemma_separator(s, e);
        lemma_idioms_round_trip(s, e + 2, rest);
        assert(seq![a[0]] + rest =~= a);
    }
}

/// Whether a word is `FROM` or the first word of a clause.
pub open spec fn clause_word(w: Seq<u8>) -> bool {
    w == word_from() || w == word_where() || w == word_split() || w == word_group() || w
        == word_order() || w == word_limit() || w == word_start() || w == word_fetch() || w
        == word_version() || w == word_timeout()
}

/// What comes before `FROM` or a clause ends there: a value and a list end,
/// and neither an operation, nor a name for a field, nor a direction of a
/// sort key goes on.
pub proof fn lemma_before_word(s: Seq<u8>, e: int, w: Seq<u8>)
    requires
        clause_word(w),
        holds(s, e, seq![32u8] + w),
    ensures
        stops(s, e),
        breaks(s, e),
        space(s, e) == Some(e + 1),
        parse_infix(s, e) is None,
        parse_alias(s, e) is None,
        parse_direction(s, e) is None,
        separator(s, e) is None,
{
    lemma_holds_both(s, e, seq![32u8], w);
    lemma_holds(s, e, seq![32u8]);
    assert(s[e + 0] == seq![32u8][0]);
    lemma_holds(s, e + 1, w);
    assert(w.len() >= 4);
    assert(s[e + 1 + 0] == w[0]);
    assert(s[e + 1 + 1] == w[1]);
    assert(s[e + 1 + 2] == w[2]);
    lemma_one_space(s, e);
    lemma_keyword_differs(s, e + 1, word_and(), 0);
    lemma_keyword_differs(s, e + 1, word_as(), 0);
    lemma_keyword_differs(s, e + 1, word_asc(), 0);
    lemma_keyword_differs(s, e + 1, word_desc(), 0);
    if w == word_order() {
        lemma_holds_both(s, e + 1, word_or(), seq![68u8, 69u8, 82u8]);
        assert(w =~= word_or() + seq![68u8, 69u8, 82u8]);
        lemma_keyword_found(s, e + 1, word_or());
        assert(space(s, e + 3) is None);
    } else {
        lemma_keyword_differs(s, e + 1, word_or(), 0);
    }
}

/// What comes before the end of the text ends there in every way.
pub proof fn lemma_before_end(s: Seq<u8>, e: int)
    requires
        e >= s.len(),
    ensures
        stops(s, e),
        breaks(s, e),
        space(s, e) is None,
        parse_infix(s, e) is None,
        parse_alias(s, e) is None,
        parse_direction(s, e) is None,
        separator(s, e) is None,
{
}

/// A sort key that was written is read back.
pub proof fn lemma_sort_key_round_trip(s: Seq<u8>, i: int, k: SortKey)
    requires
        canon_path(k.path),
        holds(s, i, show_sort_key(k)),
        stops(s, i + show_sort_key(k).len()),
        k.ascending ==> parse_direction(s, i + show_sort_key(k).len()) is None,
    ensures
        parse_sort_key(s, i) == Some(Hit { value: k, end: i + show_sort_key(k).len() }),
{
    let path = show_path(k.path, k.path.len() as int);
    if k.ascending {
        assert(show_sort_key(k) =~= path);
        lemma_idiom_round_trip(s, i, k.path);
    } else {
        let mark = seq![32u8, 68u8, 69u8, 83u8, 67u8];
        lemma_holds_both(s, i, path, mark);
        let e = i + path.len();
        lemma_holds(s, e, mark);
        assert(s[e + 0] == mark[0]);
        assert(s[e + 1] == mark[1]);
        lemma_idiom_round_trip(s, i, k.path);
        lemma_one_space(s, e);
        lemma_keyword_differs(s, e + 1, word_asc(), 0);
        assert(mark =~= seq![32u8] + word_desc());
        lemma_holds_both(s, e, seq![32u8], word_desc());
        lemma_keyword_found(s, e + 1, word_desc());
    }
}

/// The text of a sort key that is read back is not empty and begins with a
/// byte of a name.
pub proof fn lemma_sort_key_begins(k: SortKey)
    requires
        canon_path(k.path),
    ensures
        show_sort_key(k).len() > 0,
        is_word(show_sort_key(k)[0]),
{
    lemma_path_begins(k.path);
}

/// A list of sort keys that was written is read back.
pub proof fn lemma_sort_keys_round_trip(s: Seq<u8>, i: int, a: Seq<SortKey>)
    requires
        a.len() > 0,
        canon_sort_keys(a),
        holds(s, i, show_sort_keys(a, a.len() as int)),
        breaks(s, i + show_sort_keys(a, a.len() as int).len()),
        parse_direction(s, i + show_sort_keys(a, a.len() as int).len()) is None,
    ensures
        parse_sort_keys(s, i) == Some(
            Hit { value: a, end: i + show_sort_keys(a, a.len() as int).len() },
        ),
    decreases a.len(),
{
    let first = show_sort_key(a[0]);
    assert(canon_path(a[0].path));
    if a.len() == 1 {
        lemma_sort_key_round_trip(s, i, a[0]);
        assert(seq![a[0]] =~= a);
    } else {
        let rest = a.drop_first();
        lemma_show_sort_keys_front(a, a.len() as int);
        let tail = show_sort_keys(rest, rest.len() as int);
        lemma_holds_both(s, i, first + seq![44u8, 32u8], tail);
        lemma_holds_both(s, i, first, seq![44u8, 32u8]);
        let e = i + first.len();
        lemma_holds(s, e, seq![44u8, 32u8]);
        assert(s[e + 0] == seq![44u8, 32u8][0]);
        assert(space(s, e) is None);
        lemma_sort_key_round_trip(s, i, a[0]);
        assert(canon_sort_keys(rest)) by {
            assert forall|k: int| 0 <= k < rest.len() implies canon_path(
                (#[trigger] rest[k]).path,
            ) by {
                assert(rest[k] == a[k + 1]);
            }
        }
        lemma_sort_key_begins(rest[0]);
        if rest.len() > 1 {
            lemma_show_sort_keys_front(rest, rest.len() as int);
        }
        lemma_holds(s, e + 2, tail);
        assert(s[e + 2 + 0] == tail[0]);
        lemma_separator(s, e);
        lemma_sort_keys_round_trip(s, e + 2, rest);
        assert(seq![a[0]] + rest =~= a);
    }
}

/// The text of a field that is read back is not empty and does not begin
/// with white space.
pub proof fn lemma_column_begins(c: Column)
    requires
        canon_column(c),
    ensures
        show_column(c).len() > 0,
        !is_space(show_column(c)[0]),
{
    match c {
        Column::All => {},
        Column::Alone(v) => {
            lemma_show_begins(v, false);
        },
        Column::Alias(v, p) => {
            lemma_show_begins(v, false);
        },
    }
}

/// A field that was written is read back.
pub proof fn lemma_field_round_trip(s: Seq<u8>, i: int, c: Column)
    requires
        canon_column(c),
        holds(s, i, show_column(c)),
        stops(s, i + show_column(c).len()),
        parse_infix(s, i + show_column(c).len()) is None,
        parse_alias(s, i + show_column(c).len()) is None,
    ensures
        parse_field(s, i) == Some(Hit { value: c, end: i + show_column(c).len() }),
{
    let text = show_column(c);
    lemma_holds(s, i, text);
    lemma_column_begins(c);
    assert(s[i + 0] == text[0]);
    match c {
        Column::All => {},
        Column::Alone(v) => {
            lemma_show_begins(v, false);
            lemma_value_round_trip(s, i, v, false);
        },
        Column::Alias(v, p) => {
            lemma_show_begins(v, false);
            let value = show_value(v);
            let mark = seq![32u8, 65u8, 83u8, 32u8];
            let path = show_path(p, p.len() as int);
            lemma_holds_both(s, i, value + mark, path);
            lemma_holds_both(s, i, value, mark);
            let e = i + value.len();
            lemma_holds(s, e, mark);
            assert(s[e + 0] == mark[0]);
            assert(s[e + 1] == mark[1]);
            assert(s[e + 2] == mark[2]);
            assert(s[e + 3] == mark[3]);
            lemma_path_begins(p);
            lemma_holds(s, e + 4, path);
            assert(s[e + 4 + 0] == path[0]);
            lemma_one_space(s, e);
            lemma_keyword_differs(s, e + 1, word_and(), 1);
            lemma_keyword_differs(s, e + 1, word_or(), 0);
            assert(parse_operator(s, e + 1) is None);
            lemma_value_round_trip(s, i, v, false);
            assert(mark =~= seq![32u8] + word_as() + seq![32u8]);
            lemma_holds_both(s, e, seq![32u8] + word_as(), seq![32u8]);
            lemma_holds_both(s, e, seq![32u8], word_as());
            lemma_keyword_found(s, e + 1, word_as());
            lemma_one_space(s, e + 3);
            lemma_idiom_round_trip(s, e + 4, p);
        },
    }
}

/// A list of fields that was written is read back.
pub proof fn lemma_fields_round_trip(s: Seq<u8>, i: int, a: Seq<Column>)
    requires
        a.len() > 0,
        canon_columns(a),
        holds(s, i, show_columns(a, a.len() as int)),
        breaks(s, i + show_columns(a, a.len() as int).len()),
        parse_infix(s, i + show_columns(a, a.len() as int).len()) is None,
        parse_alias(s, i + show_columns(a, a.len() as int).len()) is None,
    ensures
        parse_fields(s, i) == Some(
            Hit { value: a, end: i + show_columns(a, a.len() as int).len() },
        ),
    decreases a.len(),
{
    let first = show_column(a[0]);
    assert(canon_column(a[0]));
    if a.len() == 1 {
        lemma_field_round_trip(s, i, a[0]);
        assert(seq![a[0]] =~= a);
    } else {
        let rest = a.drop_first();
        lemma_show_columns_front(a, a.len() as int);
        let tail = show_columns(rest, rest.len() as int);
        lemma_holds_both(s, i, first + seq![44u8, 32u8], tail);
        lemma_holds_both(s, i, first, seq![44u8, 32u8]);
        let e = i + first.len();
        lemma_holds(s, e, seq![44u8, 32u8]);
        assert(s[e + 0] == seq![44u8, 32u8][0]);
        assert(space(s, e) is None);
        lemma_field_round_trip(s, i, a[0]);
        assert(canon_columns(rest)) by {
            assert forall|k: int| 0 <= k < rest.len() implies canon_column(#[trigger] rest[k]) by {
                assert(rest[k] == a[k + 1]);
            }
        }
        lemma_column_begins(rest[0]);
        if rest.len() > 1 {
            lemma_show_columns_front(rest, rest.len() as int);
        }
        lemma_holds(s, e + 2, tail);
        assert(s[e + 2 + 0] == tail[0]);
        lemma_separator(s, e);
        lemma_fields_round_trip(s, e + 2, rest);
        assert(seq![a[0]] + rest =~= a);
    }
}

} // verus!
