use crate::sql::clause::{paths, sort_keys, Field, Order, SortKey};
use crate::sql::lexer::{
    at, byte_at, digits_value, keyword, lemma_skip_digits, match_keyword, match_space, read_digits,
    scan_digits, scan_space, skip_digits, skip_space, space,
};
use crate::sql::parser::{end_of, idiom, parse_idiom, parse_value, path_hit, value, Hit};
use crate::sql::value::{views, Idiom, Val, Value};
use crate::sql::words::{text_as, text_asc, text_desc, word_as, word_asc, word_desc};
use vstd::prelude::*;

verus! {

/// The content of a [`Field`].
pub enum Column {
    All,
    Alone(Val),
    Alias(Val, Seq<Seq<u8>>),
}

impl View for Field {
    type V = Column;

    open spec fn view(&self) -> Column {
        match self {
            Field::All => Column::All,
            Field::Alone(v) => Column::Alone(v@),
            Field::Alias(v, path) => Column::Alias(v@, path@),
        }
    }
}

/// The contents of a list of fields.
pub open spec fn columns(s: Seq<Field>) -> Seq<Column> {
    Seq::new(s.len(), |i: int| s[i]@)
}

/// A number written in digits that fits in 64 bits.
pub open spec fn parse_uint(s: Seq<u8>, i: int) -> Option<Hit<int>> {
    if 0 <= i && skip_digits(s, i) > i && digits_value(s, i, skip_digits(s, i)) <= u64::MAX {
        Some(Hit { value: digits_value(s, i, skip_digits(s, i)), end: skip_digits(s, i) })
    } else {
        None
    }
}

/// Where the next item of a list begins: behind a comma and any white space.
pub open spec fn separator(s: Seq<u8>, i: int) -> Option<int> {
    if at(s, i, 44) {
        Some(skip_space(s, i + 1))
    } else {
        None
    }
}

/// The name that an expression is given: ` AS name`.
pub open spec fn parse_alias(s: Seq<u8>, i: int) -> Option<Hit<Seq<Seq<u8>>>> {
    match space(s, i) {
        None => None,
        Some(a) => match keyword(s, a, word_as()) {
            None => None,
            Some(b) => match space(s, b) {
                None => None,
                Some(c) => parse_idiom(s, c),
            },
        },
    }
}

/// One field: `*`, or an expression with or without a name.
pub open spec fn parse_field(s: Seq<u8>, i: int) -> Option<Hit<Column>> {
    if at(s, i, 42) {
        Some(Hit { value: Column::All, end: i + 1 })
    } else {
        match parse_value(s, i, false) {
            None => None,
            Some(v) => match parse_alias(s, v.end) {
                Some(a) => Some(Hit { value: Column::Alias(v.value, a.value), end: a.end }),
                None => Some(Hit { value: Column::Alone(v.value), end: v.end }),
            },
        }
    }
}

/// One or more fields with commas between them.
pub open spec fn parse_fields(s: Seq<u8>, i: int) -> Option<Hit<Seq<Column>>>
    decreases s.len() - i,
{
    match parse_field(s, i) {
        None => None,
        Some(f) => match separator(s, f.end) {
            Some(j) => if i < j <= s.len() {
                match parse_fields(s, j) {
                    Some(rest) => Some(Hit { value: seq![f.value] + rest.value, end: rest.end }),
                    None => Some(Hit { value: seq![f.value], end: f.end }),
                }
            } else {
                Some(Hit { value: seq![f.value], end: f.end })
            },
            None => Some(Hit { value: seq![f.value], end: f.end }),
        },
    }
}

/// One or more sources with commas between them.
pub open spec fn parse_sources(s: Seq<u8>, i: int) -> Option<Hit<Seq<Val>>>
    decreases s.len() - i,
{
    match parse_value(s, i, true) {
        None => None,
        Some(f) => match separator(s, f.end) {
            Some(j) => if i < j <= s.len() {
                match parse_sources(s, j) {
                    Some(rest) => Some(Hit { value: seq![f.value] + rest.value, end: rest.end }),
                    None => Some(Hit { value: seq![f.value], end: f.end }),
                }
            } else {
                Some(Hit { value: seq![f.value], end: f.end })
            },
            None => Some(Hit { value: seq![f.value], end: f.end }),
        },
    }
}

/// One or more paths with commas between them.
pub open spec fn parse_idioms(s: Seq<u8>, i: int) -> Option<Hit<Seq<Seq<Seq<u8>>>>>
    decreases s.len() - i,
{
    match parse_idiom(s, i) {
        None => None,
        Some(f) => match separator(s, f.end) {
            Some(j) => if i < j <= s.len() {
                match parse_idioms(s, j) {
                    Some(rest) => Some(Hit { value: seq![f.value] + rest.value, end: rest.end }),
                    None => Some(Hit { value: seq![f.value], end: f.end }),
                }
            } else {
                Some(Hit { value: seq![f.value], end: f.end })
            },
            None => Some(Hit { value: seq![f.value], end: f.end }),
        },
    }
}

/// The direction behind a sort key: ` ASC` or ` DESC`.
pub open spec fn parse_direction(s: Seq<u8>, i: int) -> Option<Hit<bool>> {
    match space(s, i) {
        None => None,
        Some(a) => match keyword(s, a, word_asc()) {
            Some(e) => Some(Hit { value: true, end: e }),
            None => match keyword(s, a, word_desc()) {
                Some(e) => Some(Hit { value: false, end: e }),
                None => None,
            },
        },
    }
}

/// One sort key: a path, ascending unless `DESC` follows.
pub open spec fn parse_sort_key(s: Seq<u8>, i: int) -> Option<Hit<SortKey>> {
    match parse_idiom(s, i) {
        None => None,
        Some(p) => match parse_direction(s, p.end) {
            Some(d) => Some(Hit { value: SortKey { path: p.value, ascending: d.value }, end: d.end }),
            None => Some(Hit { value: SortKey { path: p.value, ascending: true }, end: p.end }),
        },
    }
}

/// One or more sort keys with commas between them.
pub open spec fn parse_sort_keys(s: Seq<u8>, i: int) -> Option<Hit<Seq<SortKey>>>
    decreases s.len() - i,
{
    match parse_sort_key(s, i) {
        None => None,
        Some(f) => match separator(s, f.end) {
            Some(j) => if i < j <= s.len() {
                match parse_sort_keys(s, j) {
                    Some(rest) => Some(Hit { value: seq![f.value] + rest.value, end: rest.end }),
                    None => Some(Hit { value: seq![f.value], end: f.end }),
                }
            } else {
                Some(Hit { value: seq![f.value], end: f.end })
            },
            None => Some(Hit { value: seq![f.value], end: f.end }),
        },
    }
}

/// Where what follows a keyword begins: behind the keyword and white space.
pub open spec fn after_word(s: Seq<u8>, i: int, word: Seq<u8>) -> Option<int> {
    match keyword(s, i, word) {
        None => None,
        Some(a) => space(s, a),
    }
}

/// Where what follows two keywords begins: behind the keywords, each with
/// white space behind it.
pub open spec fn after_words(s: Seq<u8>, i: int, first: Seq<u8>, second: Seq<u8>) -> Option<int> {
    match after_word(s, i, first) {
        None => None,
        Some(a) => after_word(s, a, second),
    }
}

/// A number written in digits at `i`.
pub(crate) fn uint(s: &[u8], i: usize) -> (r: Option<(u64, usize)>)
    requires
        i <= s.len(),
    ensures
        match r {
            Some((n, e)) => parse_uint(s@, i as int) == Some(Hit { value: n as int, end: e as int })
                && i < e <= s.len(),
            None => parse_uint(s@, i as int) is None,
        },
{
    let e = scan_digits(s, i);
    if e <= i {
        return None;
    }
    proof {
        lemma_skip_digits(s@, i as int);
    }
    match read_digits(s, i, e) {
        Some(n) => Some((n, e)),
        None => None,
    }
}

/// Where the next item of a list begins.
pub(crate) fn next_item(s: &[u8], i: usize) -> (r: Option<usize>)
    requires
        i <= s.len(),
    ensures
        match r {
            Some(e) => separator(s@, i as int) == Some(e as int) && i < e <= s.len(),
            None => separator(s@, i as int) is None,
        },
{
    if byte_at(s, i, 44) {
        Some(scan_space(s, i + 1))
    } else {
        None
    }
}

/// Where what follows the keyword `word` begins.
pub(crate) fn skip_keyword(s: &[u8], i: usize, word: &Vec<u8>) -> (r: Option<usize>)
    requires
        i <= s.len(),
    ensures
        match r {
            Some(e) => after_word(s@, i as int, word@) == Some(e as int) && i < e <= s.len(),
            None => after_word(s@, i as int, word@) is None,
        },
{
    match match_keyword(s, i, word) {
        None => None,
        Some(a) => match_space(s, a),
    }
}

/// Where what follows the keywords `first` and `second` begins.
pub(crate) fn skip_keywords(s: &[u8], i: usize, first: &Vec<u8>, second: &Vec<u8>) -> (r: Option<usize>)
    requires
        i <= s.len(),
    ensures
        match r {
            Some(e) => after_words(s@, i as int, first@, second@) == Some(e as int) && i < e
                <= s.len(),
            None => after_words(s@, i as int, first@, second@) is None,
        },
{
    match skip_keyword(s, i, first) {
        None => None,
        Some(a) => skip_keyword(s, a, second),
    }
}

/// The name that an expression is given, behind the expression.
pub(crate) fn alias(s: &[u8], i: usize) -> (r: Option<(Idiom, usize)>)
    requires
        i <= s.len(),
    ensures
        path_hit(r) == parse_alias(s@, i as int),
        r is Some ==> i < end_of(r) <= s.len(),
{
    match match_space(s, i) {
        None => None,
        Some(a) => match match_keyword(s, a, &text_as()) {
            None => None,
            Some(b) => match match_space(s, b) {
                None => None,
                Some(c) => idiom(s, c),
            },
        },
    }
}

/// One field at `i`.
pub(crate) fn field(s: &[u8], i: usize) -> (r: Option<(Field, usize)>)
    requires
        i <= s.len(),
    ensures
        match r {
            Some((f, e)) => parse_field(s@, i as int) == Some(Hit { value: f@, end: e as int }) && i
                < e <= s.len(),
            None => parse_field(s@, i as int) is None,
        },
{
    if byte_at(s, i, 42) {
        return Some((Field::All, i + 1));
    }
    match value(s, i, false) {
        None => None,
        Some((v, e)) => match alias(s, e) {
            Some((name, end)) => Some((Field::Alias(v, name), end)),
            None => Some((Field::Alone(v), e)),
        },
    }
}

/// One or more fields at `i`.
pub(crate) fn fields(s: &[u8], i: usize) -> (r: Option<(Vec<Field>, usize)>)
    requires
        i <= s.len(),
    ensures
        match r {
            Some((f, e)) => parse_fields(s@, i as int) == Some(
                Hit { value: columns(f@), end: e as int },
            ) && i < e <= s.len(),
            None => parse_fields(s@, i as int) is None,
        },
    decreases s.len() - i,
{
    match field(s, i) {
        None => None,
        Some((f, e)) => {
            let ghost head = f@;
            let more = match next_item(s, e) {
                Some(j) => fields(s, j),
                None => None,
            };
            match more {
                Some((rest, end)) => {
                    let mut list = rest;
                    let ghost tail = columns(list@);
                    list.insert(0, f);
                    assert(columns(list@) =~= seq![head] + tail);
                    Some((list, end))
                },
                None => {
                    let mut list: Vec<Field> = Vec::new();
                    list.push(f);
                    assert(columns(list@) =~= seq![head]);
                    Some((list, e))
                },
            }
        },
    }
}

/// One or more sources at `i`.
pub(crate) fn sources(s: &[u8], i: usize) -> (r: Option<(Vec<Value>, usize)>)
    requires
        i <= s.len(),
    ensures
        match r {
            Some((f, e)) => parse_sources(s@, i as int) == Some(
                Hit { value: views(f@), end: e as int },
            ) && i < e <= s.len(),
            None => parse_sources(s@, i as int) is None,
        },
    decreases s.len() - i,
{
    match value(s, i, true) {
        None => None,
        Some((f, e)) => {
            let ghost head = f@;
            let more = match next_item(s, e) {
                Some(j) => sources(s, j),
                None => None,
            };
            match more {
                Some((rest, end)) => {
                    let mut list = rest;
                    let ghost tail = views(list@);
                    list.insert(0, f);
                    assert(views(list@) =~= seq![head] + tail);
                    Some((list, end))
                },
                None => {
                    let mut list: Vec<Value> = Vec::new();
                    list.push(f);
                    assert(views(list@) =~= seq![head]);
                    Some((list, e))
                },
            }
        },
    }
}

/// One or more paths at `i`.
pub(crate) fn idioms(s: &[u8], i: usize) -> (r: Option<(Vec<Idiom>, usize)>)
    requires
        i <= s.len(),
    ensures
        match r {
            Some((f, e)) => parse_idioms(s@, i as int) == Some(
                Hit { value: paths(f@), end: e as int },
            ) && i < e <= s.len(),
            None => parse_idioms(s@, i as int) is None,
        },
    decreases s.len() - i,
{
    match idiom(s, i) {
        None => None,
        Some((f, e)) => {
            let ghost head = f@;
            let more = match next_item(s, e) {
                Some(j) => idioms(s, j),
                None => None,
            };
            match more {
                Some((rest, end)) => {
                    let mut list = rest;
                    let ghost tail = paths(list@);
                    list.insert(0, f);
                    assert(paths(list@) =~= seq![head] + tail);
                    Some((list, end))
                },
                None => {
                    let mut list: Vec<Idiom> = Vec::new();
                    list.push(f);
                    assert(paths(list@) =~= seq![head]);
                    Some((list, e))
                },
            }
        },
    }
}

/// The direction behind a sort key.
pub(crate) fn direction(s: &[u8], i: usize) -> (r: Option<(bool, usize)>)
    requires
        i <= s.len(),
    ensures
        match r {
            Some((d, e)) => parse_direction(s@, i as int) == Some(Hit { value: d, end: e as int })
                && i < e <= s.len(),
            None => parse_direction(s@, i as int) is None,
        },
{
    match match_space(s, i) {
        None => None,
        Some(a) => match match_keyword(s, a, &text_asc()) {
            Some(e) => Some((true, e)),
            None => match match_keyword(s, a, &text_desc()) {
                Some(e) => Some((false, e)),
                None => None,
            },
        },
    }
}

/// One sort key at `i`.
pub(crate) fn sort_key(s: &[u8], i: usize) -> (r: Option<(Order, usize)>)
    requires
        i <= s.len(),
    ensures
        match r {
            Some((o, e)) => parse_sort_key(s@, i as int) == Some(
                Hit { value: SortKey { path: o.order@, ascending: o.direction }, end: e as int },
            ) && i < e <= s.len(),
            None => parse_sort_key(s@, i as int) is None,
        },
{
    match idiom(s, i) {
        None => None,
        Some((path, e)) => match direction(s, e) {
            Some((d, end)) => Some((Order { order: path, direction: d }, end)),
            None => Some((Order { order: path, direction: true }, e)),
        },
    }
}

/// One or more sort keys at `i`.
pub(crate) fn sort_key_list(s: &[u8], i: usize) -> (r: Option<(Vec<Order>, usize)>)
    requires
        i <= s.len(),
    ensures
        match r {
            Some((f, e)) => parse_sort_keys(s@, i as int) == Some(
                Hit { value: sort_keys(f@), end: e as int },
            ) && i < e <= s.len(),
            None => parse_sort_keys(s@, i as int) is None,
        },
    decreases s.len() - i,
{
    match sort_key(s, i) {
        None => None,
        Some((f, e)) => {
            let ghost head = SortKey { path: f.order@, ascending: f.direction };
            let more = match next_item(s, e) {
                Some(j) => sort_key_list(s, j),
                None => None,
            };
            match more {
                Some((rest, end)) => {
                    let mut list = rest;
                    let ghost tail = sort_keys(list@);
                    list.insert(0, f);
                    assert(sort_keys(list@) =~= seq![head] + tail);
                    Some((list, end))
                },
                None => {
                    let mut list: Vec<Order> = Vec::new();
                    list.push(f);
                    assert(sort_keys(list@) =~= seq![head]);
                    Some((list, e))
                },
            }
        },
    }
}

} // verus!
