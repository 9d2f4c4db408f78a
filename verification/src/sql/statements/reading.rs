use crate::sql::format::{show_columns, show_items, show_paths, show_sort_keys, show_value};
use crate::sql::grammar::after_word;
use crate::sql::lexer::{is_space, space};
use crate::sql::parser::Hit;
use crate::sql::roundtrip::{
    breaks, canon_columns, canon_paths, canon_sort_keys, canon_value, canon_values, closes,
    ends_digits, holds, lemma_before_end, lemma_before_word, lemma_column_begins,
    lemma_decimal_digits, lemma_fields_round_trip, lemma_holds, lemma_holds_both,
    lemma_idioms_round_trip, lemma_keyword_differs, lemma_keyword_found, lemma_one_space,
    lemma_path_begins, lemma_show_begins, lemma_show_columns_front, lemma_show_items_front,
    lemma_show_paths_front, lemma_show_sort_keys_front, lemma_sort_key_begins,
    lemma_sort_keys_round_trip, lemma_sources_round_trip, lemma_uint_round_trip,
    lemma_value_round_trip, stops,
};
use crate::sql::statements::select::{
    clause_at, optional, parse_cond, parse_count, parse_fetch, parse_group, parse_head,
    parse_order, parse_select, parse_split, parse_timeout, parse_version, show_cond, show_count,
    show_head, show_order, show_path_clause, show_query, show_timeout, words_group, words_split,
    Head, Query,
};
use crate::sql::text::decimal;
use crate::sql::value::Val;
use crate::sql::words::{
    word_by, word_fetch, word_from, word_group, word_limit, word_ms, word_on, word_order,
    word_select, word_split, word_start, word_timeout, word_version, word_where,
};
use vstd::prelude::*;

verus! {

/// Whether a statement is written in a way that is read back as it is:
/// it has fields and sources, its lists are not empty, every value, path and
/// field is written in such a way, and its numbers fit.
pub open spec fn canon_query(q: Query) -> bool {
    &&& q.expr.len() > 0
    &&& canon_columns(q.expr)
    &&& q.what.len() > 0
    &&& canon_values(q.what, true)
    &&& q.cond matches Some(v) ==> canon_value(v, false)
    &&& q.split matches Some(p) ==> p.len() > 0 && canon_paths(p)
    &&& q.group matches Some(p) ==> p.len() > 0 && canon_paths(p)
    &&& q.order matches Some(k) ==> k.len() > 0 && canon_sort_keys(k)
    &&& q.limit matches Some(n) ==> 0 <= n <= usize::MAX
    &&& q.start matches Some(n) ==> 0 <= n <= usize::MAX
    &&& q.fetch matches Some(p) ==> p.len() > 0 && canon_paths(p)
    &&& q.version matches Some(n) ==> 0 <= n <= u64::MAX
    &&& q.timeout matches Some(n) ==> 0 <= n <= u64::MAX
}

/// The first word of the `k`-th clause, in the order in which clauses are
/// written.
pub open spec fn first_word(k: int) -> Seq<u8> {
    if k == 1 {
        word_where()
    } else if k == 2 {
        word_split()
    } else if k == 3 {
        word_group()
    } else if k == 4 {
        word_order()
    } else if k == 5 {
        word_limit()
    } else if k == 6 {
        word_start()
    } else if k == 7 {
        word_fetch()
    } else if k == 8 {
        word_version()
    } else {
        word_timeout()
    }
}

/// Whether the statement has its `k`-th clause.
pub open spec fn present(q: Query, k: int) -> bool {
    if k == 1 {
        q.cond is Some
    } else if k == 2 {
        q.split is Some
    } else if k == 3 {
        q.group is Some
    } else if k == 4 {
        q.order is Some
    } else if k == 5 {
        q.limit is Some
    } else if k == 6 {
        q.start is Some
    } else if k == 7 {
        q.fetch is Some
    } else if k == 8 {
        q.version is Some
    } else {
        q.timeout is Some
    }
}

/// What the `k`-th clause holds behind its first word and a space.
pub open spec fn clause_rest(q: Query, k: int) -> Seq<u8> {
    if k == 1 {
        show_value(q.cond->0)
    } else if k == 2 {
        word_on() + seq![32u8] + show_paths(q.split->0, q.split->0.len() as int)
    } else if k == 3 {
        word_by() + seq![32u8] + show_paths(q.group->0, q.group->0.len() as int)
    } else if k == 4 {
        word_by() + seq![32u8] + show_sort_keys(q.order->0, q.order->0.len() as int)
    } else if k == 5 {
        decimal(q.limit->0)
    } else if k == 6 {
        decimal(q.start->0)
    } else if k == 7 {
        show_paths(q.fetch->0, q.fetch->0.len() as int)
    } else if k == 8 {
        decimal(q.version->0)
    } else {
        decimal(q.timeout->0) + word_ms()
    }
}

/// The text of the `k`-th clause: nothing where the statement has none, and
/// else a space, the first word, a space and the rest.
pub open spec fn clause_text(q: Query, k: int) -> Seq<u8> {
    if present(q, k) {
        seq![32u8] + first_word(k) + seq![32u8] + clause_rest(q, k)
    } else {
        Seq::empty()
    }
}

/// The text of the clauses from the `k`-th on.
pub open spec fn tail(q: Query, k: int) -> Seq<u8>
    decreases 10 - k,
{
    if k < 1 || k > 9 {
        Seq::empty()
    } else {
        clause_text(q, k) + tail(q, k + 1)
    }
}

/// Whether the `j`-th clause begins at `e`.
pub open spec fn starts_clause(s: Seq<u8>, e: int, j: int) -> bool {
    holds(s, e, seq![32u8] + first_word(j) + seq![32u8])
}

/// Whether the text ends at `e` or one of the clauses from the `k`-th on
/// begins there.
pub open spec fn boundary(s: Seq<u8>, e: int, k: int) -> bool {
    e >= s.len() || exists|j: int| k <= j <= 9 && #[trigger] starts_clause(s, e, j)
}

/// The text of each clause, as the statement writes it.
pub proof fn lemma_clause_texts(q: Query)
    ensures
        clause_text(q, 1) == show_cond(q.cond),
        clause_text(q, 2) == show_path_clause(words_split(), q.split),
        clause_text(q, 3) == show_path_clause(words_group(), q.group),
        clause_text(q, 4) == show_order(q.order),
        clause_text(q, 5) == show_count(word_limit(), q.limit),
        clause_text(q, 6) == show_count(word_start(), q.start),
        clause_text(q, 7) == show_path_clause(word_fetch(), q.fetch),
        clause_text(q, 8) == show_count(word_version(), q.version),
        clause_text(q, 9) == show_timeout(q.timeout),
{
    assert(clause_text(q, 1) =~= show_cond(q.cond));
    assert(clause_text(q, 2) =~= show_path_clause(words_split(), q.split));
    assert(clause_text(q, 3) =~= show_path_clause(words_group(), q.group));
    assert(clause_text(q, 4) =~= show_order(q.order));
    assert(clause_text(q, 5) =~= show_count(word_limit(), q.limit));
    assert(clause_text(q, 6) =~= show_count(word_start(), q.start));
    assert(clause_text(q, 7) =~= show_path_clause(word_fetch(), q.fetch));
    assert(clause_text(q, 8) =~= show_count(word_version(), q.version));
    assert(clause_text(q, 9) =~= show_timeout(q.timeout));
}

/// Text put behind text put behind text is text put behind both.
proof fn lemma_join(a: Seq<u8>, b: Seq<u8>, c: Seq<u8>)
    ensures
        (a + b) + c == a + (b + c),
{
    assert((a + b) + c =~= a + (b + c));
}

/// The text of a statement is the text of its beginning and of its clauses.
pub proof fn lemma_show_query(q: Query)
    ensures
        show_query(q) == show_head(q.expr, q.what) + tail(q, 1),
{
    lemma_clause_texts(q);
    let h = show_head(q.expr, q.what);
    let p1 = h + clause_text(q, 1);
    let p2 = p1 + clause_text(q, 2);
    let p3 = p2 + clause_text(q, 3);
    let p4 = p3 + clause_text(q, 4);
    let p5 = p4 + clause_text(q, 5);
    let p6 = p5 + clause_text(q, 6);
    let p7 = p6 + clause_text(q, 7);
    let p8 = p7 + clause_text(q, 8);
    let p9 = p8 + clause_text(q, 9);
    assert(show_query(q) == p9);
    assert(tail(q, 10) == Seq::<u8>::empty());
    assert(tail(q, 9) == clause_text(q, 9) + tail(q, 10));
    assert(tail(q, 9) =~= clause_text(q, 9));
    assert(tail(q, 8) == clause_text(q, 8) + tail(q, 9));
    assert(tail(q, 7) == clause_text(q, 7) + tail(q, 8));
    assert(tail(q, 6) == clause_text(q, 6) + tail(q, 7));
    assert(tail(q, 5) == clause_text(q, 5) + tail(q, 6));
    assert(tail(q, 4) == clause_text(q, 4) + tail(q, 5));
    assert(tail(q, 3) == clause_text(q, 3) + tail(q, 4));
    assert(tail(q, 2) == clause_text(q, 2) + tail(q, 3));
    assert(tail(q, 1) == clause_text(q, 1) + tail(q, 2));
    assert(p9 == p8 + tail(q, 9));
    lemma_join(p7, clause_text(q, 8), tail(q, 9));
    lemma_join(p6, clause_text(q, 7), tail(q, 8));
    lemma_join(p5, clause_text(q, 6), tail(q, 7));
    lemma_join(p4, clause_text(q, 5), tail(q, 6));
    lemma_join(p3, clause_text(q, 4), tail(q, 5));
    lemma_join(p2, clause_text(q, 3), tail(q, 4));
    lemma_join(p1, clause_text(q, 2), tail(q, 3));
    lemma_join(h, clause_text(q, 1), tail(q, 2));
}

/// Where the clauses from the `k`-th on stand up to the end of the text, the
/// text ends or one of them begins.
pub proof fn lemma_boundary(s: Seq<u8>, e: int, q: Query, k: int)
    requires
        1 <= k <= 10,
        holds(s, e, tail(q, k)),
        e + tail(q, k).len() == s.len(),
    ensures
        boundary(s, e, k),
    decreases 10 - k,
{
    if k <= 9 {
        let text = clause_text(q, k);
        lemma_holds_both(s, e, text, tail(q, k + 1));
        if present(q, k) {
            let mark = seq![32u8] + first_word(k) + seq![32u8];
            lemma_holds_both(s, e, mark, clause_rest(q, k));
            assert(starts_clause(s, e, k));
        } else {
            lemma_boundary(s, e, q, k + 1);
            if e < s.len() {
                let j = choose|j: int| k + 1 <= j <= 9 && #[trigger] starts_clause(s, e, j);
                assert(starts_clause(s, e, j));
            }
        }
    }
}

/// What comes before the end of the text or a clause ends there: a value and
/// a list end, and neither an operation nor a direction of a sort key goes
/// on.
pub proof fn lemma_at_boundary(s: Seq<u8>, e: int, k: int)
    requires
        1 <= k,
        boundary(s, e, k),
    ensures
        stops(s, e),
        breaks(s, e),
        closes(s, e),
        ends_digits(s, e),
        crate::sql::grammar::parse_direction(s, e) is None,
{
    if e >= s.len() {
        lemma_before_end(s, e);
    } else {
        let j = choose|j: int| k <= j <= 9 && #[trigger] starts_clause(s, e, j);
        lemma_holds_both(s, e, seq![32u8] + first_word(j), seq![32u8]);
        lemma_before_word(s, e, first_word(j));
    }
}

/// A clause that the statement does not have is not read where the text ends
/// or a later clause begins.
pub proof fn lemma_absent(s: Seq<u8>, e: int, k: int)
    requires
        1 <= k <= 9,
        0 <= e,
        boundary(s, e, k + 1),
    ensures
        after_word(s, clause_at(s, e), first_word(k)) is None,
{
    if e >= s.len() {
        lemma_before_end(s, e);
    } else {
        let j = choose|j: int| k + 1 <= j <= 9 && #[trigger] starts_clause(s, e, j);
        let word = first_word(j);
        lemma_holds_both(s, e, seq![32u8] + word, seq![32u8]);
        lemma_before_word(s, e, word);
        lemma_holds_both(s, e, seq![32u8], word);
        lemma_holds(s, e + 1, word);
        assert(s[e + 1 + 0] == word[0]);
        assert(s[e + 1 + 1] == word[1]);
        let at = if k == 2 && j == 6 {
            1int
        } else {
            0int
        };
        lemma_keyword_differs(s, e + 1, first_word(k), at);
    }
}

/// The first word of a clause that was written is read, and what follows it
/// begins behind one space.
pub proof fn lemma_clause_begins(s: Seq<u8>, e: int, k: int, rest: Seq<u8>)
    requires
        1 <= k <= 9,
        holds(s, e, seq![32u8] + first_word(k) + seq![32u8] + rest),
        rest.len() > 0,
        !is_space(rest[0]),
    ensures
        clause_at(s, e) == e + 1,
        after_word(s, e + 1, first_word(k)) == Some(e + first_word(k).len() + 2),
        holds(s, e + first_word(k).len() + 2, rest),
{
    let word = first_word(k);
    lemma_holds_both(s, e, seq![32u8] + word + seq![32u8], rest);
    lemma_holds_both(s, e, seq![32u8] + word, seq![32u8]);
    lemma_holds_both(s, e, seq![32u8], word);
    lemma_holds(s, e, seq![32u8]);
    assert(s[e + 0] == seq![32u8][0]);
    lemma_holds(s, e + 1, word);
    assert(s[e + 1 + 0] == word[0]);
    lemma_holds(s, e + 1 + word.len(), seq![32u8]);
    assert(s[e + 1 + word.len() + 0] == seq![32u8][0]);
    lemma_holds(s, e + word.len() + 2, rest);
    assert(s[e + word.len() + 2 + 0] == rest[0]);
    lemma_one_space(s, e);
    lemma_keyword_found(s, e + 1, word);
    lemma_one_space(s, e + 1 + word.len());
}

/// The second word of a clause that was written is read, and what follows it
/// begins behind one space.
pub proof fn lemma_second_word(s: Seq<u8>, a: int, word: Seq<u8>, rest: Seq<u8>)
    requires
        holds(s, a, word + seq![32u8] + rest),
        rest.len() > 0,
        !is_space(rest[0]),
    ensures
        after_word(s, a, word) == Some(a + word.len() + 1),
        holds(s, a + word.len() + 1, rest),
{
    lemma_holds_both(s, a, word + seq![32u8], rest);
    lemma_holds_both(s, a, word, seq![32u8]);
    lemma_holds(s, a + word.len(), seq![32u8]);
    assert(s[a + word.len() + 0] == seq![32u8][0]);
    lemma_holds(s, a + word.len() + 1, rest);
    assert(s[a + word.len() + 1 + 0] == rest[0]);
    lemma_keyword_found(s, a, word);
    lemma_one_space(s, a + word.len());
}

/// The text of a list of paths that are read back is not empty and does not
/// begin with white space.
pub proof fn lemma_paths_begin(a: Seq<Seq<Seq<u8>>>)
    requires
        a.len() > 0,
        canon_paths(a),
    ensures
        show_paths(a, a.len() as int).len() > 0,
        !is_space(show_paths(a, a.len() as int)[0]),
{
    lemma_path_begins(a[0]);
    if a.len() > 1 {
        lemma_show_paths_front(a, a.len() as int);
    }
}

/// A condition that was written is read back, and one that the statement
/// does not have is not read.
pub proof fn lemma_cond_round_trip(s: Seq<u8>, e: int, q: Query)
    requires
        canon_query(q),
        0 <= e,
        holds(s, e, clause_text(q, 1)),
        boundary(s, e + clause_text(q, 1).len(), 2),
    ensures
        optional(e, parse_cond(s, clause_at(s, e))) == (Hit {
            value: q.cond,
            end: e + clause_text(q, 1).len(),
        }),
{
    if let Some(v) = q.cond {
        lemma_show_begins(v, false);
        lemma_clause_begins(s, e, 1, show_value(v));
        lemma_at_boundary(s, e + clause_text(q, 1).len(), 2);
        lemma_value_round_trip(s, e + first_word(1).len() + 2, v, false);
    } else {
        lemma_absent(s, e, 1);
    }
}

/// A clause of two words and paths that was written is read back, and one
/// that the statement does not have is not read.
pub proof fn lemma_paths_round_trip(s: Seq<u8>, e: int, q: Query, k: int)
    requires
        canon_query(q),
        0 <= e,
        k == 2 || k == 3,
        holds(s, e, clause_text(q, k)),
        boundary(s, e + clause_text(q, k).len(), k + 1),
    ensures
        optional(
            e,
            if k == 2 {
                parse_split(s, clause_at(s, e))
            } else {
                parse_group(s, clause_at(s, e))
            },
        ) == (Hit {
            value: if k == 2 {
                q.split
            } else {
                q.group
            },
            end: e + clause_text(q, k).len(),
        }),
{
    let clause = if k == 2 {
        q.split
    } else {
        q.group
    };
    let second = if k == 2 {
        word_on()
    } else {
        word_by()
    };
    if let Some(p) = clause {
        let list = show_paths(p, p.len() as int);
        lemma_paths_begin(p);
        let rest = second + seq![32u8] + list;
        assert(clause_rest(q, k) == rest);
        assert(rest[0] == second[0]);
        lemma_clause_begins(s, e, k, rest);
        let a = e + first_word(k).len() + 2;
        lemma_second_word(s, a, second, list);
        lemma_at_boundary(s, e + clause_text(q, k).len(), k + 1);
        lemma_idioms_round_trip(s, a + second.len() + 1, p);
    } else {
        lemma_absent(s, e, k);
    }
}

/// Sort keys that were written are read back, and a clause that the
/// statement does not have is not read.
pub proof fn lemma_order_round_trip(s: Seq<u8>, e: int, q: Query)
    requires
        canon_query(q),
        0 <= e,
        holds(s, e, clause_text(q, 4)),
        boundary(s, e + clause_text(q, 4).len(), 5),
    ensures
        optional(e, parse_order(s, clause_at(s, e))) == (Hit {
            value: q.order,
            end: e + clause_text(q, 4).len(),
        }),
{
    if let Some(keys) = q.order {
        let list = show_sort_keys(keys, keys.len() as int);
        lemma_sort_key_begins(keys[0]);
        if keys.len() > 1 {
            lemma_show_sort_keys_front(keys, keys.len() as int);
        }
        let rest = word_by() + seq![32u8] + list;
        assert(rest[0] == word_by()[0]);
        lemma_clause_begins(s, e, 4, rest);
        let a = e + first_word(4).len() + 2;
        lemma_second_word(s, a, word_by(), list);
        lemma_at_boundary(s, e + clause_text(q, 4).len(), 5);
        lemma_sort_keys_round_trip(s, a + word_by().len() + 1, keys);
    } else {
        lemma_absent(s, e, 4);
    }
}

/// A clause of one count that was written is read back, and one that the
/// statement does not have is not read.
pub proof fn lemma_count_round_trip(s: Seq<u8>, e: int, q: Query, k: int)
    requires
        canon_query(q),
        0 <= e,
        k == 5 || k == 6,
        holds(s, e, clause_text(q, k)),
        boundary(s, e + clause_text(q, k).len(), k + 1),
    ensures
        optional(e, parse_count(s, clause_at(s, e), first_word(k))) == (Hit {
            value: if k == 5 {
                q.limit
            } else {
                q.start
            },
            end: e + clause_text(q, k).len(),
        }),
{
    let clause = if k == 5 {
        q.limit
    } else {
        q.start
    };
    if let Some(n) = clause {
        lemma_decimal_digits(n);
        lemma_clause_begins(s, e, k, decimal(n));
        lemma_at_boundary(s, e + clause_text(q, k).len(), k + 1);
        lemma_uint_round_trip(s, e + first_word(k).len() + 2, n);
    } else {
        lemma_absent(s, e, k);
    }
}

/// Paths to fetch that were written are read back, and a clause that the
/// statement does not have is not read.
pub proof fn lemma_fetch_round_trip(s: Seq<u8>, e: int, q: Query)
    requires
        canon_query(q),
        0 <= e,
        holds(s, e, clause_text(q, 7)),
        boundary(s, e + clause_text(q, 7).len(), 8),
    ensures
        optional(e, parse_fetch(s, clause_at(s, e))) == (Hit {
            value: q.fetch,
            end: e + clause_text(q, 7).len(),
        }),
{
    if let Some(p) = q.fetch {
        lemma_paths_begin(p);
        lemma_clause_begins(s, e, 7, show_paths(p, p.len() as int));
        lemma_at_boundary(s, e + clause_text(q, 7).len(), 8);
        lemma_idioms_round_trip(s, e + first_word(7).len() + 2, p);
    } else {
        lemma_absent(s, e, 7);
    }
}

/// A version that was written is read back, and one that the statement does
/// not have is not read.
pub proof fn lemma_version_round_trip(s: Seq<u8>, e: int, q: Query)
    requires
        canon_query(q),
        0 <= e,
        holds(s, e, clause_text(q, 8)),
        boundary(s, e + clause_text(q, 8).len(), 9),
    ensures
        optional(e, parse_version(s, clause_at(s, e))) == (Hit {
            value: q.version,
            end: e + clause_text(q, 8).len(),
        }),
{
    if let Some(n) = q.version {
        lemma_decimal_digits(n);
        lemma_clause_begins(s, e, 8, decimal(n));
        lemma_at_boundary(s, e + clause_text(q, 8).len(), 9);
        lemma_uint_round_trip(s, e + first_word(8).len() + 2, n);
    } else {
        lemma_absent(s, e, 8);
    }
}

/// A timeout that was written is read back, and one that the statement does
/// not have is not read.
pub proof fn lemma_timeout_round_trip(s: Seq<u8>, e: int, q: Query)
    requires
        canon_query(q),
        0 <= e,
        holds(s, e, clause_text(q, 9)),
        boundary(s, e + clause_text(q, 9).len(), 10),
    ensures
        optional(e, parse_timeout(s, clause_at(s, e))) == (Hit {
            value: q.timeout,
            end: e + clause_text(q, 9).len(),
        }),
{
    if let Some(n) = q.timeout {
        let digits = decimal(n);
        lemma_decimal_digits(n);
        let rest = digits + word_ms();
        assert(rest[0] == digits[0]);
        lemma_clause_begins(s, e, 9, rest);
        let a = e + first_word(9).len() + 2;
        lemma_holds_both(s, a, digits, word_ms());
        lemma_holds(s, a + digits.len(), word_ms());
        assert(s[a + digits.len() + 0] == word_ms()[0]);
        lemma_uint_round_trip(s, a, n);
        lemma_keyword_found(s, a + digits.len(), word_ms());
    } else {
        lemma_absent(s, e, 9);
    }
}

/// The beginning of a statement that was written is read back.
pub proof fn lemma_head_round_trip(s: Seq<u8>, q: Query)
    requires
        canon_query(q),
        holds(s, 0, show_head(q.expr, q.what)),
        boundary(s, show_head(q.expr, q.what).len() as int, 1),
    ensures
        parse_head(s) == Some(
            Hit {
                value: Head { expr: q.expr, what: q.what },
                end: show_head(q.expr, q.what).len() as int,
            },
        ),
{
    let fields = show_columns(q.expr, q.expr.len() as int);
    let sources = show_items(q.what, q.what.len() as int);
    let head = show_head(q.expr, q.what);
    lemma_column_begins(q.expr[0]);
    if q.expr.len() > 1 {
        lemma_show_columns_front(q.expr, q.expr.len() as int);
    }
    lemma_show_begins(q.what[0], true);
    if q.what.len() > 1 {
        lemma_show_items_front(q.what, q.what.len() as int);
    }
    let w: int = word_select().len() as int;
    let a: int = w + 1;
    let b: int = a + fields.len();
    let c: int = b + 1 + word_from().len() + 1;
    assert(head =~= word_select() + seq![32u8] + fields + (seq![32u8] + word_from()) + seq![32u8]
        + sources);
    lemma_holds_both(
        s,
        0,
        word_select() + seq![32u8] + fields + (seq![32u8] + word_from()) + seq![32u8],
        sources,
    );
    lemma_holds_both(
        s,
        0,
        word_select() + seq![32u8] + fields + (seq![32u8] + word_from()),
        seq![32u8],
    );
    lemma_holds_both(s, 0, word_select() + seq![32u8] + fields, seq![32u8] + word_from());
    lemma_holds_both(s, 0, word_select() + seq![32u8], fields);
    lemma_holds_both(s, 0, word_select(), seq![32u8]);
    lemma_holds(s, w, seq![32u8]);
    assert(s[w + 0] == seq![32u8][0]);
    lemma_holds(s, a, fields);
    assert(s[a + 0] == fields[0]);
    lemma_keyword_found(s, 0, word_select());
    lemma_one_space(s, w);
    lemma_before_word(s, b, word_from());
    lemma_fields_round_trip(s, a, q.expr);
    lemma_holds_both(s, b, seq![32u8], word_from());
    lemma_holds(s, c - 1, seq![32u8]);
    assert(s[c - 1 + 0] == seq![32u8][0]);
    lemma_holds(s, c, sources);
    assert(s[c + 0] == sources[0]);
    lemma_keyword_found(s, b + 1, word_from());
    lemma_one_space(s, c - 1);
    lemma_at_boundary(s, head.len() as int, 1);
    lemma_sources_round_trip(s, c, q.what);
}

/// Where the `k`-th clause begins in the text of a statement.
pub open spec fn offset(q: Query, k: int) -> int
    decreases k,
{
    if k <= 1 {
        show_head(q.expr, q.what).len() as int
    } else {
        offset(q, k - 1) + clause_text(q, k - 1).len()
    }
}

/// The clauses from the `k`-th on stand at their place in the text of a
/// statement, up to its end.
proof fn lemma_layout(q: Query, k: int)
    requires
        1 <= k <= 10,
    ensures
        holds(show_query(q), offset(q, k), tail(q, k)),
        offset(q, k) + tail(q, k).len() == show_query(q).len(),
    decreases k,
{
    let s = show_query(q);
    lemma_show_query(q);
    if k == 1 {
        assert(s.subrange(0, s.len() as int) =~= s);
        lemma_holds_both(s, 0, show_head(q.expr, q.what), tail(q, 1));
    } else {
        lemma_layout(q, k - 1);
        lemma_holds_both(s, offset(q, k - 1), clause_text(q, k - 1), tail(q, k));
    }
}

/// The `k`-th clause stands at its place in the text of a statement, and
/// behind it the text ends or a later clause begins.
proof fn lemma_place(q: Query, k: int)
    requires
        1 <= k <= 9,
    ensures
        0 <= offset(q, k),
        holds(show_query(q), offset(q, k), clause_text(q, k)),
        offset(q, k + 1) == offset(q, k) + clause_text(q, k).len(),
        boundary(show_query(q), offset(q, k + 1), k + 1),
        boundary(show_query(q), offset(q, k), k),
{
    let s = show_query(q);
    lemma_layout(q, k);
    lemma_layout(q, k + 1);
    lemma_holds_both(s, offset(q, k), clause_text(q, k), tail(q, k + 1));
    lemma_boundary(s, offset(q, k + 1), q, k + 1);
    lemma_boundary(s, offset(q, k), q, k);
}

/// The clauses that are read first.
pub struct Early {
    pub cond: Option<Val>,
    pub split: Option<Seq<Seq<Seq<u8>>>>,
    pub group: Option<Seq<Seq<Seq<u8>>>>,
    pub order: Option<Seq<crate::sql::clause::SortKey>>,
}

/// The clauses that are read last.
pub struct Late {
    pub limit: Option<int>,
    pub start: Option<int>,
    pub fetch: Option<Seq<Seq<Seq<u8>>>>,
    pub version: Option<int>,
    pub timeout: Option<int>,
}

/// The first four clauses behind `e`, each where it is there, and where they
/// end.
pub open spec fn read_early(s: Seq<u8>, e: int) -> Hit<Early> {
    let cond = optional(e, parse_cond(s, clause_at(s, e)));
    let split = optional(cond.end, parse_split(s, clause_at(s, cond.end)));
    let group = optional(split.end, parse_group(s, clause_at(s, split.end)));
    let order = optional(group.end, parse_order(s, clause_at(s, group.end)));
    Hit {
        value: Early {
            cond: cond.value,
            split: split.value,
            group: group.value,
            order: order.value,
        },
        end: order.end,
    }
}

/// The last five clauses behind `e`, each where it is there, and where they
/// end.
pub open spec fn read_late(s: Seq<u8>, e: int) -> Hit<Late> {
    let limit = optional(e, parse_count(s, clause_at(s, e), word_limit()));
    let start = optional(limit.end, parse_count(s, clause_at(s, limit.end), word_start()));
    let fetch = optional(start.end, parse_fetch(s, clause_at(s, start.end)));
    let version = optional(fetch.end, parse_version(s, clause_at(s, fetch.end)));
    let timeout = optional(version.end, parse_timeout(s, clause_at(s, version.end)));
    Hit {
        value: Late {
            limit: limit.value,
            start: start.value,
            fetch: fetch.value,
            version: version.value,
            timeout: timeout.value,
        },
        end: timeout.end,
    }
}

/// A statement is read in three steps: its beginning, the first four clauses
/// and the last five.
pub open spec fn read_in_steps(s: Seq<u8>) -> Option<Hit<Query>> {
    match parse_head(s) {
        None => None,
        Some(head) => {
            let early = read_early(s, head.end);
            let late = read_late(s, early.end);
            Some(
                Hit {
                    value: Query {
                        expr: head.value.expr,
                        what: head.value.what,
                        cond: early.value.cond,
                        split: early.value.split,
                        group: early.value.group,
                        order: early.value.order,
                        limit: late.value.limit,
                        start: late.value.start,
                        fetch: late.value.fetch,
                        version: late.value.version,
                        timeout: late.value.timeout,
                    },
                    end: late.end,
                },
            )
        },
    }
}

/// Reading in steps is reading.
proof fn lemma_read_in_steps(s: Seq<u8>)
    ensures
        parse_select(s) == read_in_steps(s),
{
}

/// The first four clauses of a statement that was written are read back.
proof fn lemma_early_round_trip(q: Query)
    requires
        canon_query(q),
    ensures
        read_early(show_query(q), offset(q, 1)) == (Hit {
            value: Early { cond: q.cond, split: q.split, group: q.group, order: q.order },
            end: offset(q, 5),
        }),
{
    let s = show_query(q);
    lemma_place(q, 1);
    lemma_place(q, 2);
    lemma_place(q, 3);
    lemma_place(q, 4);
    lemma_cond_round_trip(s, offset(q, 1), q);
    lemma_paths_round_trip(s, offset(q, 2), q, 2);
    lemma_paths_round_trip(s, offset(q, 3), q, 3);
    lemma_order_round_trip(s, offset(q, 4), q);
}

/// The last five clauses of a statement that was written are read back.
proof fn lemma_late_round_trip(q: Query)
    requires
        canon_query(q),
    ensures
        read_late(show_query(q), offset(q, 5)) == (Hit {
            value: Late {
                limit: q.limit,
                start: q.start,
                fetch: q.fetch,
                version: q.version,
                timeout: q.timeout,
            },
            end: show_query(q).len() as int,
        }),
{
    let s = show_query(q);
    lemma_place(q, 5);
    lemma_place(q, 6);
    lemma_place(q, 7);
    lemma_place(q, 8);
    lemma_place(q, 9);
    lemma_layout(q, 10);
    assert(tail(q, 10).len() == 0);
    lemma_count_round_trip(s, offset(q, 5), q, 5);
    lemma_count_round_trip(s, offset(q, 6), q, 6);
    lemma_fetch_round_trip(s, offset(q, 7), q);
    lemma_version_round_trip(s, offset(q, 8), q);
    lemma_timeout_round_trip(s, offset(q, 9), q);
}

/// The beginning of a statement stands at the beginning of its text.
proof fn lemma_head_stands(s: Seq<u8>, head: Seq<u8>, rest: Seq<u8>)
    requires
        s == head + rest,
    ensures
        holds(s, 0, head),
{
    assert(s.subrange(0, head.len() as int) =~= head);
}

/// The beginning of a statement that was written is read back from its text.
proof fn lemma_head_of_query(q: Query)
    requires
        canon_query(q),
    ensures
        parse_head(show_query(q)) == Some(
            Hit { value: Head { expr: q.expr, what: q.what }, end: offset(q, 1) },
        ),
{
    let s = show_query(q);
    lemma_place(q, 1);
    lemma_show_query(q);
    lemma_head_stands(s, show_head(q.expr, q.what), tail(q, 1));
    lemma_head_round_trip(s, q);
}

/// A statement that was written is read back: reading the text of a
/// statement that is written in the way that is read back gives the statement
/// and leaves nothing of the text.
pub proof fn lemma_select_round_trip(q: Query)
    requires
        canon_query(q),
    ensures
        parse_select(show_query(q)) == Some(
            Hit { value: q, end: show_query(q).len() as int },
        ),
{
    let s = show_query(q);
    lemma_read_in_steps(s);
    lemma_head_of_query(q);
    lemma_early_round_trip(q);
    lemma_late_round_trip(q);
}

/// Reading and writing again changes nothing: the text of a statement that
/// is written in the way that is read back is read as a statement whose text
/// is that text, clause by clause and byte by byte.
pub proof fn lemma_text_round_trip(q: Query)
    requires
        canon_query(q),
    ensures
        match parse_select(show_query(q)) {
            Some(h) => show_query(h.value) == show_query(q) && h.end == show_query(q).len(),
            None => false,
        },
{
    lemma_select_round_trip(q);
}

} // verus!
