use crate::dbs::iterator::{failure_of, resolved_rows, shapes, Iterator, Plan, Treatment};
use crate::dbs::options::{Level, Options};
use crate::dbs::runtime::Runtime;
use crate::dbs::statement::Statement;
use crate::dbs::transaction::Transaction;
use crate::err::{Error, ParseError};
use crate::sql::clause::{
    paths, sort_keys, Cond, Fetchs, Fields, Groups, Limit, Orders, SortKey, Splits, Start, Timeout,
    Values, Version,
};
use crate::sql::evaluate::{doc_view, eval_items, lemma_items_error, scope_of, Scope};
use crate::sql::format::{
    push_all, show_columns, show_items, show_paths, show_sort_keys, show_value, write_fields,
    write_paths, write_sort_keys, write_value, write_values,
};
use crate::sql::grammar::{
    after_word, after_words, columns, fields, idioms, parse_fields, parse_idioms, parse_sort_keys,
    parse_sources, parse_uint, skip_keyword, skip_keywords, sort_key_list, sources, uint, Column,
};
use crate::sql::lexer::{keyword, match_keyword, match_space, space};
use crate::sql::parser::{parse_value, value, Hit};
use crate::sql::text::{decimal, push_decimal};
use crate::sql::value::{views, Val, Value};
use crate::sql::words::{
    text_by, text_fetch, text_from, text_group, text_limit, text_ms, text_on, text_order,
    text_select, text_split, text_start, text_timeout, text_version, text_where, word_by,
    word_fetch, word_from, word_group, word_limit, word_ms, word_on, word_order, word_select,
    word_split, word_start, word_timeout, word_version, word_where,
};
use vstd::prelude::*;
use vstd::slice::slice_subrange;
use vstd::string::StringSliceAdditionalSpecFns;
use vstd::utf8::{decode_utf8, valid_utf8};

verus! {

/// A `SELECT` statement: what to return, from which sources, and the clauses
/// that shape the result.
#[derive(Clone, Debug, PartialEq, Eq)]
pub struct SelectStatement {
    pub expr: Fields,
    pub what: Values,
    pub cond: Option<Cond>,
    pub split: Option<Splits>,
    pub group: Option<Groups>,
    pub order: Option<Orders>,
    pub limit: Option<Limit>,
    pub start: Option<Start>,
    pub fetch: Option<Fetchs>,
    pub version: Option<Version>,
    pub timeout: Option<Timeout>,
}

impl Default for SelectStatement {
    /// A statement without fields, sources and clauses.
    fn default() -> (r: SelectStatement)
        ensures
            r.expr.0@.len() == 0,
            r.what.0@.len() == 0,
            r.cond is None,
            r.split is None,
            r.group is None,
            r.order is None,
            r.limit is None,
            r.start is None,
            r.fetch is None,
            r.version is None,
            r.timeout is None,
    {
        SelectStatement {
            expr: Fields(Vec::new()),
            what: Values(Vec::new()),
            cond: None,
            split: None,
            group: None,
            order: None,
            limit: None,
            start: None,
            fetch: None,
            version: None,
            timeout: None,
        }
    }
}

impl SelectStatement {
    /// The number of rows asked for; zero where there is no limit.
    pub open spec fn spec_limit(&self) -> usize {
        match self.limit {
            Some(Limit(v)) => v,
            None => 0,
        }
    }

    /// The number of rows to pass over; zero where none are.
    pub open spec fn spec_start(&self) -> usize {
        match self.start {
            Some(Start(v)) => v,
            None => 0,
        }
    }

    /// The number of rows asked for; zero where there is no limit.
    pub fn limit(&self) -> (r: usize)
        ensures
            r == self.spec_limit(),
    {
        match self.limit {
            Some(Limit(v)) => v,
            None => 0,
        }
    }

    /// The number of rows to pass over; zero where none are.
    pub fn start(&self) -> (r: usize)
        ensures
            r == self.spec_start(),
    {
        match self.start {
            Some(Start(v)) => v,
            None => 0,
        }
    }
}

impl SelectStatement {
    /// How the statement shapes its rows.
    pub open spec fn plan(&self) -> Plan {
        Plan {
            split: match self.split {
                Some(s) => paths(s.0@),
                None => Seq::empty(),
            },
            group: match self.group {
                Some(g) => Some(paths(g.0@)),
                None => None,
            },
            order: match self.order {
                Some(o) => Some(sort_keys(o.0@)),
                None => None,
            },
            start: self.spec_start() as int,
            limit: self.spec_limit() as int,
            fetch: match self.fetch {
                Some(f) => paths(f.0@),
                None => Seq::empty(),
            },
        }
    }

    /// The scope in which the statement is evaluated: futures are computed,
    /// and the time allowed is that of the runtime, cut to the statement's own
    /// timeout where it has one.
    pub open spec fn scope(&self, ctx: &Runtime, opt: &Options) -> Scope {
        Scope {
            done: if ctx.cancelled {
                Some(Error::Cancelled)
            } else {
                let deadline = match self.timeout {
                    Some(t) => Some(Runtime::earlier(ctx.deadline, Runtime::after(ctx.now, t.0))),
                    None => ctx.deadline,
                };
                if deadline is Some && ctx.now >= deadline->0 {
                    Some(Error::Timeout)
                } else {
                    None
                }
            },
            futures: true,
            params: ctx.params(),
        }
    }

    /// What a `SELECT` makes of what its sources resolve to: it changes nothing
    /// and keeps the documents that meet its condition.
    pub open spec fn treatment(&self) -> Treatment {
        Treatment {
            mutates: false,
            clause: None,
            cond: match self.cond {
                Some(c) => Some(c.0@),
                None => None,
            },
        }
    }

    /// The computed sources of the statement, in their order.
    pub open spec fn targets(&self, ctx: &Runtime, opt: &Options, doc: Option<Val>) -> Result<
        Seq<Val>,
        Error,
    > {
        eval_items(views(self.what.0@), self.scope(ctx, opt), doc, self.what.0.len() as int)
    }

    /// The rows of the statement before shaping.
    pub open spec fn rows(
        &self,
        ctx: &Runtime,
        opt: &Options,
        txn: &Transaction,
        doc: Option<Val>,
    ) -> Result<Seq<Val>, Error> {
        match self.targets(ctx, opt, doc) {
            Err(e) => Err(e),
            Ok(targets) => resolved_rows(
                txn.rows(),
                targets,
                self.treatment(),
                self.scope(ctx, opt),
            ),
        }
    }

    /// Why the statement fails, if it does: the caller may not run it, the
    /// runtime says to stop, a source cannot be computed, the transaction is
    /// over, or a document cannot be treated; the first of these that holds.
    pub open spec fn failure(
        &self,
        ctx: &Runtime,
        opt: &Options,
        txn: &Transaction,
        doc: Option<Val>,
    ) -> Option<Error> {
        if !opt.allows(Level::No) {
            Some(Error::Permission)
        } else if self.scope(ctx, opt).done is Some {
            self.scope(ctx, opt).done
        } else {
            match self.targets(ctx, opt, doc) {
                Err(e) => Some(e),
                Ok(_) => failure_of(None, txn.read_error(), self.rows(ctx, opt, txn, doc)),
            }
        }
    }

    /// Runs the statement: checks that the caller may run it, computes the
    /// sources, resolves them against the transaction, keeps the documents
    /// that meet the condition, and shapes the rows. The result is the array
    /// of the rows; on an error nothing is returned.
    #[verifier::loop_isolation(false)]
    pub fn compute(
        &self,
        ctx: &Runtime,
        opt: &Options,
        txn: &Transaction,
        doc: Option<&Value>,
    ) -> (r: Result<Value, Error>)
        ensures
            match r {
                Ok(v) => self.failure(ctx, opt, txn, doc_view(doc)) is None && v@ is Array
                    && shapes(
                    self.rows(ctx, opt, txn, doc_view(doc))->Ok_0,
                    self.plan(),
                    txn.rows(),
                    v@->Array_0,
                ),
                Err(e) => self.failure(ctx, opt, txn, doc_view(doc)) == Some(e),
            },
    {
        // Anyone may read.
        match opt.check(Level::No) {
            Err(e) => {
                return Err(e);
            },
            Ok(_) => {},
        }
        let mut i = Iterator::new(Statement::Select(self));
        // The iterator shapes the rows by the clauses of the statement.
        i.split = self.split.as_ref();
        i.group = self.group.as_ref();
        i.order = self.order.as_ref();
        i.limit = self.limit.as_ref();
        i.start = self.start.as_ref();
        i.fetch = self.fetch.as_ref();
        // A statement at the top computes its futures.
        let opt = opt.futures(true);
        // The statement's own timeout can only shorten the time allowed.
        let run = match self.timeout {
            Some(t) => ctx.with_timeout(t.0),
            None => Runtime {
                cancelled: ctx.cancelled,
                now: ctx.now,
                deadline: ctx.deadline,
                vars: ctx.vars.duplicate(),
            },
        };
        let ghost scope = scope_of(&run, &opt);
        let ghost sources = views(self.what.0@);
        assert(scope == self.scope(ctx, &opt));
        // Each source is computed first and prepared as a target.
        let mut n: usize = 0;
        while n < self.what.0.len()
            invariant
                n <= self.what.0.len(),
                eval_items(sources, scope, doc_view(doc), n as int) == Ok::<Seq<Val>, Error>(
                    i.targets(),
                ),
                i.stmt == Statement::Select(self),
                i.plan() == self.plan(),
            decreases self.what.0.len() - n,
        {
            match self.what.0[n].compute(&run, &opt, doc) {
                Ok(v) => {
                    i.prepare(v);
                },
                Err(e) => {
                    proof {
                        assert(eval_items(sources, scope, doc_view(doc), n + 1) == Err::<
                            Seq<Val>,
                            Error,
                        >(e));
                        lemma_items_error(
                            sources,
                            scope,
                            doc_view(doc),
                            n + 1,
                            self.what.0.len() as int,
                        );
                    }
                    return Err(e);
                },
            }
            n += 1;
        }
        i.output(&run, &opt, txn)
    }
}

/// The content of a [`SelectStatement`].
pub struct Query {
    pub expr: Seq<Column>,
    pub what: Seq<Val>,
    pub cond: Option<Val>,
    pub split: Option<Seq<Seq<Seq<u8>>>>,
    pub group: Option<Seq<Seq<Seq<u8>>>>,
    pub order: Option<Seq<SortKey>>,
    pub limit: Option<int>,
    pub start: Option<int>,
    pub fetch: Option<Seq<Seq<Seq<u8>>>>,
    pub version: Option<int>,
    pub timeout: Option<int>,
}

impl View for SelectStatement {
    type V = Query;

    open spec fn view(&self) -> Query {
        Query {
            expr: columns(self.expr.0@),
            what: views(self.what.0@),
            cond: match self.cond {
                Some(c) => Some(c.0@),
                None => None,
            },
            split: match self.split {
                Some(c) => Some(paths(c.0@)),
                None => None,
            },
            group: match self.group {
                Some(c) => Some(paths(c.0@)),
                None => None,
            },
            order: match self.order {
                Some(c) => Some(sort_keys(c.0@)),
                None => None,
            },
            limit: match self.limit {
                Some(c) => Some(c.0 as int),
                None => None,
            },
            start: match self.start {
                Some(c) => Some(c.0 as int),
                None => None,
            },
            fetch: match self.fetch {
                Some(c) => Some(paths(c.0@)),
                None => None,
            },
            version: match self.version {
                Some(c) => Some(c.0 as int),
                None => None,
            },
            timeout: match self.timeout {
                Some(c) => Some(c.0 as int),
                None => None,
            },
        }
    }
}

/// What an optional clause gives: what was read where the clause is there,
/// and nothing, with nothing read behind `i`, where it is not.
pub open spec fn optional<T>(i: int, h: Option<Hit<T>>) -> Hit<Option<T>> {
    match h {
        Some(h) => Hit { value: Some(h.value), end: h.end },
        None => Hit { value: None, end: i },
    }
}

/// `WHERE expr`
pub open spec fn parse_cond(s: Seq<u8>, i: int) -> Option<Hit<Val>> {
    match after_word(s, i, word_where()) {
        Some(a) => parse_value(s, a, false),
        None => None,
    }
}

/// `SPLIT ON a, b`
pub open spec fn parse_split(s: Seq<u8>, i: int) -> Option<Hit<Seq<Seq<Seq<u8>>>>> {
    match after_words(s, i, word_split(), word_on()) {
        Some(a) => parse_idioms(s, a),
        None => None,
    }
}

/// `GROUP BY a, b`
pub open spec fn parse_group(s: Seq<u8>, i: int) -> Option<Hit<Seq<Seq<Seq<u8>>>>> {
    match after_words(s, i, word_group(), word_by()) {
        Some(a) => parse_idioms(s, a),
        None => None,
    }
}

/// `ORDER BY a, b DESC`
pub open spec fn parse_order(s: Seq<u8>, i: int) -> Option<Hit<Seq<SortKey>>> {
    match after_words(s, i, word_order(), word_by()) {
        Some(a) => parse_sort_keys(s, a),
        None => None,
    }
}

/// A keyword and a number that fits in a machine word: `LIMIT n`, `START n`.
pub open spec fn parse_count(s: Seq<u8>, i: int, word: Seq<u8>) -> Option<Hit<int>> {
    match after_word(s, i, word) {
        Some(a) => match parse_uint(s, a) {
            Some(h) => if h.value <= usize::MAX {
                Some(h)
            } else {
                None
            },
            None => None,
        },
        None => None,
    }
}

/// `FETCH a, b`
pub open spec fn parse_fetch(s: Seq<u8>, i: int) -> Option<Hit<Seq<Seq<Seq<u8>>>>> {
    match after_word(s, i, word_fetch()) {
        Some(a) => parse_idioms(s, a),
        None => None,
    }
}

/// `VERSION n`
pub open spec fn parse_version(s: Seq<u8>, i: int) -> Option<Hit<int>> {
    match after_word(s, i, word_version()) {
        Some(a) => parse_uint(s, a),
        None => None,
    }
}

/// `TIMEOUT nms`
pub open spec fn parse_timeout(s: Seq<u8>, i: int) -> Option<Hit<int>> {
    match after_word(s, i, word_timeout()) {
        Some(a) => match parse_uint(s, a) {
            Some(h) => match keyword(s, h.end, word_ms()) {
                Some(e) => Some(Hit { value: h.value, end: e }),
                None => None,
            },
            None => None,
        },
        None => None,
    }
}

/// Where a clause begins that follows at `i`: behind white space.
pub open spec fn clause_at(s: Seq<u8>, i: int) -> int {
    match space(s, i) {
        Some(j) => j,
        None => -1,
    }
}

/// The fields and the sources of a statement.
pub struct Head {
    pub expr: Seq<Column>,
    pub what: Seq<Val>,
}

/// The beginning of a statement: `SELECT`, the fields, `FROM` and the
/// sources.
pub open spec fn parse_head(s: Seq<u8>) -> Option<Hit<Head>> {
    match after_word(s, 0, word_select()) {
        None => None,
        Some(a) => match parse_fields(s, a) {
            None => None,
            Some(expr) => match space(s, expr.end) {
                None => None,
                Some(b) => match after_word(s, b, word_from()) {
                    None => None,
                    Some(c) => match parse_sources(s, c) {
                        None => None,
                        Some(what) => Some(
                            Hit { value: Head { expr: expr.value, what: what.value }, end: what.end },
                        ),
                    },
                },
            },
        },
    }
}

/// The statement that the beginning of `s` spells, and where it ends:
/// `SELECT`, the fields, `FROM`, the sources, and then each clause that is
/// there, in the order `WHERE`, `SPLIT ON`, `GROUP BY`, `ORDER BY`, `LIMIT`,
/// `START`, `FETCH`, `VERSION`, `TIMEOUT`. Keywords are read in any case, and
/// white space of any length stands between the parts.
pub open spec fn parse_select(s: Seq<u8>) -> Option<Hit<Query>> {
    match parse_head(s) {
        None => None,
        Some(head) => {
            let cond = optional(head.end, parse_cond(s, clause_at(s, head.end)));
            let split = optional(cond.end, parse_split(s, clause_at(s, cond.end)));
            let group = optional(split.end, parse_group(s, clause_at(s, split.end)));
            let order = optional(group.end, parse_order(s, clause_at(s, group.end)));
            let limit = optional(order.end, parse_count(s, clause_at(s, order.end), word_limit()));
            let start = optional(limit.end, parse_count(s, clause_at(s, limit.end), word_start()));
            let fetch = optional(start.end, parse_fetch(s, clause_at(s, start.end)));
            let version = optional(fetch.end, parse_version(s, clause_at(s, fetch.end)));
            let timeout = optional(version.end, parse_timeout(s, clause_at(s, version.end)));
            Some(
                Hit {
                    value: Query {
                        expr: head.value.expr,
                        what: head.value.what,
                        cond: cond.value,
                        split: split.value,
                        group: group.value,
                        order: order.value,
                        limit: limit.value,
                        start: start.value,
                        fetch: fetch.value,
                        version: version.value,
                        timeout: timeout.value,
                    },
                    end: timeout.end,
                },
            )
        },
    }
}

/// The text `SPLIT ON`.
pub open spec fn words_split() -> Seq<u8> {
    word_split() + seq![32u8] + word_on()
}

/// The text `GROUP BY`.
pub open spec fn words_group() -> Seq<u8> {
    word_group() + seq![32u8] + word_by()
}

/// The text `ORDER BY`.
pub open spec fn words_order() -> Seq<u8> {
    word_order() + seq![32u8] + word_by()
}

/// How the beginning of a statement is written: `SELECT`, the fields, `FROM`
/// and the sources.
pub open spec fn show_head(expr: Seq<Column>, what: Seq<Val>) -> Seq<u8> {
    word_select() + seq![32u8] + show_columns(expr, expr.len() as int) + seq![32u8] + word_from()
        + seq![32u8] + show_items(what, what.len() as int)
}

/// How a condition is written, where there is one.
pub open spec fn show_cond(c: Option<Val>) -> Seq<u8> {
    match c {
        Some(v) => seq![32u8] + word_where() + seq![32u8] + show_value(v),
        None => Seq::empty(),
    }
}

/// How a clause of paths is written, where there is one.
pub open spec fn show_path_clause(word: Seq<u8>, c: Option<Seq<Seq<Seq<u8>>>>) -> Seq<u8> {
    match c {
        Some(p) => seq![32u8] + word + seq![32u8] + show_paths(p, p.len() as int),
        None => Seq::empty(),
    }
}

/// How the sort keys are written, where there are any.
pub open spec fn show_order(c: Option<Seq<SortKey>>) -> Seq<u8> {
    match c {
        Some(k) => seq![32u8] + words_order() + seq![32u8] + show_sort_keys(k, k.len() as int),
        None => Seq::empty(),
    }
}

/// How a clause of one number is written, where there is one.
pub open spec fn show_count(word: Seq<u8>, c: Option<int>) -> Seq<u8> {
    match c {
        Some(n) => seq![32u8] + word + seq![32u8] + decimal(n),
        None => Seq::empty(),
    }
}

/// How a timeout is written, where there is one.
pub open spec fn show_timeout(c: Option<int>) -> Seq<u8> {
    match c {
        Some(n) => seq![32u8] + word_timeout() + seq![32u8] + decimal(n) + word_ms(),
        None => Seq::empty(),
    }
}

/// How a statement is written: `SELECT`, the fields, `FROM`, the sources,
/// and each clause that is there, in the order in which they are read, with
/// one space between the parts.
pub open spec fn show_query(q: Query) -> Seq<u8> {
    show_head(q.expr, q.what) + show_cond(q.cond) + show_path_clause(words_split(), q.split)
        + show_path_clause(words_group(), q.group) + show_order(q.order) + show_count(
        word_limit(),
        q.limit,
    ) + show_count(word_start(), q.start) + show_path_clause(word_fetch(), q.fetch) + show_count(
        word_version(),
        q.version,
    ) + show_timeout(q.timeout)
}

/// `String::from_utf8_lossy`, made into an owned string: bytes that are valid
/// UTF-8 give the text that they encode. Of other bytes nothing is claimed.
#[verifier::external_body]
fn text_from_utf8(bytes: &[u8]) -> (r: String)
    ensures
        valid_utf8(bytes@) ==> r@ == decode_utf8(bytes@),
{
    String::from_utf8_lossy(bytes).into_owned()
}

/// Where the clause begins that follows at `i`.
fn clause_start(s: &[u8], i: usize) -> (r: Option<usize>)
    requires
        i <= s.len(),
    ensures
        match r {
            Some(j) => clause_at(s@, i as int) == j && i < j <= s.len(),
            None => clause_at(s@, i as int) == -1,
        },
{
    match_space(s, i)
}

/// A keyword and a number that fits in a machine word, at `i`.
fn count(s: &[u8], i: usize, word: &Vec<u8>) -> (r: Option<(usize, usize)>)
    requires
        i <= s.len(),
    ensures
        match r {
            Some((n, e)) => parse_count(s@, i as int, word@) == Some(
                Hit { value: n as int, end: e as int },
            ) && i < e <= s.len(),
            None => parse_count(s@, i as int, word@) is None,
        },
{
    match skip_keyword(s, i, word) {
        None => None,
        Some(a) => match uint(s, a) {
            None => None,
            Some((n, e)) => {
                if n <= usize::MAX as u64 {
                    Some((n as usize, e))
                } else {
                    None
                }
            },
        },
    }
}

/// The condition behind `i`, where there is one.
fn read_cond(s: &[u8], i: usize) -> (r: (Option<Cond>, usize))
    requires
        i <= s.len(),
    ensures
        i <= r.1 <= s.len(),
        optional(i as int, parse_cond(s@, clause_at(s@, i as int))) == (Hit {
            value: match r.0 {
                Some(c) => Some(c.0@),
                None => None,
            },
            end: r.1 as int,
        }),
{
    match clause_start(s, i) {
        Some(j) => match skip_keyword(s, j, &text_where()) {
            Some(k) => match value(s, k, false) {
                Some((v, e)) => (Some(Cond(v)), e),
                None => (None, i),
            },
            None => (None, i),
        },
        None => (None, i),
    }
}

/// The paths of the clause `first second` behind `i`, where there is one.
fn read_paths(s: &[u8], i: usize, first: &Vec<u8>, second: &Vec<u8>) -> (r: (
    Option<Vec<crate::sql::value::Idiom>>,
    usize,
))
    requires
        i <= s.len(),
    ensures
        i <= r.1 <= s.len(),
        optional(
            i as int,
            match after_words(s@, clause_at(s@, i as int), first@, second@) {
                Some(a) => parse_idioms(s@, a),
                None => None,
            },
        ) == (Hit {
            value: match r.0 {
                Some(c) => Some(paths(c@)),
                None => None,
            },
            end: r.1 as int,
        }),
{
    match clause_start(s, i) {
        Some(j) => match skip_keywords(s, j, first, second) {
            Some(k) => match idioms(s, k) {
                Some((v, e)) => (Some(v), e),
                None => (None, i),
            },
            None => (None, i),
        },
        None => (None, i),
    }
}

/// The sort keys behind `i`, where there are any.
fn read_order(s: &[u8], i: usize) -> (r: (Option<Orders>, usize))
    requires
        i <= s.len(),
    ensures
        i <= r.1 <= s.len(),
        optional(i as int, parse_order(s@, clause_at(s@, i as int))) == (Hit {
            value: match r.0 {
                Some(c) => Some(sort_keys(c.0@)),
                None => None,
            },
            end: r.1 as int,
        }),
{
    match clause_start(s, i) {
        Some(j) => match skip_keywords(s, j, &text_order(), &text_by()) {
            Some(k) => match sort_key_list(s, k) {
                Some((v, e)) => (Some(Orders(v)), e),
                None => (None, i),
            },
            None => (None, i),
        },
        None => (None, i),
    }
}

/// The number of the clause `word` behind `i`, where there is one.
fn read_count(s: &[u8], i: usize, word: &Vec<u8>) -> (r: (Option<usize>, usize))
    requires
        i <= s.len(),
    ensures
        i <= r.1 <= s.len(),
        optional(i as int, parse_count(s@, clause_at(s@, i as int), word@)) == (Hit {
            value: match r.0 {
                Some(n) => Some(n as int),
                None => None,
            },
            end: r.1 as int,
        }),
{
    match clause_start(s, i) {
        Some(j) => match count(s, j, word) {
            Some((n, e)) => (Some(n), e),
            None => (None, i),
        },
        None => (None, i),
    }
}

/// The paths to fetch behind `i`, where there are any.
fn read_fetch(s: &[u8], i: usize) -> (r: (Option<Fetchs>, usize))
    requires
        i <= s.len(),
    ensures
        i <= r.1 <= s.len(),
        optional(i as int, parse_fetch(s@, clause_at(s@, i as int))) == (Hit {
            value: match r.0 {
                Some(c) => Some(paths(c.0@)),
                None => None,
            },
            end: r.1 as int,
        }),
{
    match clause_start(s, i) {
        Some(j) => match skip_keyword(s, j, &text_fetch()) {
            Some(k) => match idioms(s, k) {
                Some((v, e)) => (Some(Fetchs(v)), e),
                None => (None, i),
            },
            None => (None, i),
        },
        None => (None, i),
    }
}

/// The version behind `i`, where there is one.
fn read_version(s: &[u8], i: usize) -> (r: (Option<Version>, usize))
    requires
        i <= s.len(),
    ensures
        i <= r.1 <= s.len(),
        optional(i as int, parse_version(s@, clause_at(s@, i as int))) == (Hit {
            value: match r.0 {
                Some(c) => Some(c.0 as int),
                None => None,
            },
            end: r.1 as int,
        }),
{
    match clause_start(s, i) {
        Some(j) => match skip_keyword(s, j, &text_version()) {
            Some(k) => match uint(s, k) {
                Some((n, e)) => (Some(Version(n)), e),
                None => (None, i),
            },
            None => (None, i),
        },
        None => (None, i),
    }
}

/// The timeout behind `i`, where there is one.
fn read_timeout(s: &[u8], i: usize) -> (r: (Option<Timeout>, usize))
    requires
        i <= s.len(),
    ensures
        i <= r.1 <= s.len(),
        optional(i as int, parse_timeout(s@, clause_at(s@, i as int))) == (Hit {
            value: match r.0 {
                Some(c) => Some(c.0 as int),
                None => None,
            },
            end: r.1 as int,
        }),
{
    match clause_start(s, i) {
        Some(j) => match skip_keyword(s, j, &text_timeout()) {
            Some(k) => match uint(s, k) {
                Some((n, e)) => match match_keyword(s, e, &text_ms()) {
                    Some(e) => (Some(Timeout(n)), e),
                    None => (None, i),
                },
                None => (None, i),
            },
            None => (None, i),
        },
        None => (None, i),
    }
}

/// The fields and the sources of the statement at the beginning of `s`.
fn read_head(s: &[u8]) -> (r: Option<(Vec<crate::sql::clause::Field>, Vec<Value>, usize)>)
    ensures
        match r {
            Some((expr, what, e)) => parse_head(s@) == Some(
                Hit { value: Head { expr: columns(expr@), what: views(what@) }, end: e as int },
            ) && e <= s.len(),
            None => parse_head(s@) is None,
        },
{
    let a = match skip_keyword(s, 0, &text_select()) {
        Some(a) => a,
        None => {
            return None;
        },
    };
    let (expr, e) = match fields(s, a) {
        Some(h) => h,
        None => {
            return None;
        },
    };
    let b = match match_space(s, e) {
        Some(b) => b,
        None => {
            return None;
        },
    };
    let c = match skip_keyword(s, b, &text_from()) {
        Some(c) => c,
        None => {
            return None;
        },
    };
    match sources(s, c) {
        Some((what, e)) => Some((expr, what, e)),
        None => None,
    }
}

/// Adds a space, the text `word` and a space to `out`.
fn write_word(out: &mut Vec<u8>, word: &Vec<u8>)
    ensures
        final(out)@ == old(out)@ + (seq![32u8] + word@ + seq![32u8]),
{
    out.push(32);
    push_all(out, word);
    out.push(32);
    assert(out@ =~= old(out)@ + (seq![32u8] + word@ + seq![32u8]));
}

/// Adds a clause of paths to `out`, where there is one.
fn write_path_clause(out: &mut Vec<u8>, word: &Vec<u8>, c: Option<&Vec<crate::sql::value::Idiom>>)
    ensures
        final(out)@ == old(out)@ + show_path_clause(
            word@,
            match c {
                Some(p) => Some(paths(p@)),
                None => None,
            },
        ),
{
    match c {
        Some(p) => {
            write_word(out, word);
            write_paths(out, p);
            assert(out@ =~= old(out)@ + show_path_clause(word@, Some(paths(p@))));
        },
        None => {
            assert(out@ =~= old(out)@ + Seq::<u8>::empty());
        },
    }
}

/// Adds a clause of one number to `out`, where there is one.
fn write_count(out: &mut Vec<u8>, word: &Vec<u8>, c: Option<u64>)
    ensures
        final(out)@ == old(out)@ + show_count(
            word@,
            match c {
                Some(n) => Some(n as int),
                None => None,
            },
        ),
{
    match c {
        Some(n) => {
            write_word(out, word);
            push_decimal(out, n);
            assert(out@ =~= old(out)@ + show_count(word@, Some(n as int)));
        },
        None => {
            assert(out@ =~= old(out)@ + Seq::<u8>::empty());
        },
    }
}

/// The text of two words with a space between them.
fn two_words(first: Vec<u8>, second: &Vec<u8>) -> (r: Vec<u8>)
    ensures
        r@ == first@ + seq![32u8] + second@,
{
    let mut out = first;
    out.push(32);
    push_all(&mut out, second);
    out
}

impl SelectStatement {
    /// Adds the beginning of the statement to `out`.
    fn write_head(&self, out: &mut Vec<u8>)
        ensures
            final(out)@ == old(out)@ + show_head(self@.expr, self@.what),
    {
        push_all(out, &text_select());
        out.push(32);
        write_fields(out, &self.expr.0);
        out.push(32);
        push_all(out, &text_from());
        out.push(32);
        write_values(out, &self.what.0);
        assert(out@ =~= old(out)@ + show_head(self@.expr, self@.what));
    }

    /// Adds the condition to `out`, where there is one.
    fn write_cond(&self, out: &mut Vec<u8>)
        ensures
            final(out)@ == old(out)@ + show_cond(self@.cond),
    {
        match &self.cond {
            Some(v) => {
                write_word(out, &text_where());
                write_value(out, &v.0);
                assert(out@ =~= old(out)@ + show_cond(self@.cond));
            },
            None => {
                assert(out@ =~= old(out)@ + Seq::<u8>::empty());
            },
        }
    }

    /// Adds the sort keys to `out`, where there are any.
    fn write_order(&self, out: &mut Vec<u8>)
        ensures
            final(out)@ == old(out)@ + show_order(self@.order),
    {
        match &self.order {
            Some(v) => {
                write_word(out, &two_words(text_order(), &text_by()));
                write_sort_keys(out, &v.0);
                assert(out@ =~= old(out)@ + show_order(self@.order));
            },
            None => {
                assert(out@ =~= old(out)@ + Seq::<u8>::empty());
            },
        }
    }

    /// Adds the timeout to `out`, where there is one.
    fn write_timeout(&self, out: &mut Vec<u8>)
        ensures
            final(out)@ == old(out)@ + show_timeout(self@.timeout),
    {
        match self.timeout {
            Some(v) => {
                write_word(out, &text_timeout());
                push_decimal(out, v.0);
                push_all(out, &text_ms());
                assert(out@ =~= old(out)@ + show_timeout(self@.timeout));
            },
            None => {
                assert(out@ =~= old(out)@ + Seq::<u8>::empty());
            },
        }
    }

    /// The statement as text, in bytes.
    pub fn to_bytes(&self) -> (r: Vec<u8>)
        ensures
            r@ == show_query(self@),
    {
        let mut out: Vec<u8> = Vec::new();
        self.write_head(&mut out);
        assert(out@ =~= show_head(self@.expr, self@.what));
        self.write_cond(&mut out);
        write_path_clause(
            &mut out,
            &two_words(text_split(), &text_on()),
            match &self.split {
                Some(c) => Some(&c.0),
                None => None,
            },
        );
        write_path_clause(
            &mut out,
            &two_words(text_group(), &text_by()),
            match &self.group {
                Some(c) => Some(&c.0),
                None => None,
            },
        );
        self.write_order(&mut out);
        write_count(
            &mut out,
            &text_limit(),
            match self.limit {
                Some(c) => Some(c.0 as u64),
                None => None,
            },
        );
        write_count(
            &mut out,
            &text_start(),
            match self.start {
                Some(c) => Some(c.0 as u64),
                None => None,
            },
        );
        write_path_clause(
            &mut out,
            &text_fetch(),
            match &self.fetch {
                Some(c) => Some(&c.0),
                None => None,
            },
        );
        write_count(
            &mut out,
            &text_version(),
            match self.version {
                Some(c) => Some(c.0),
                None => None,
            },
        );
        self.write_timeout(&mut out);
        out
    }

    /// The statement as text. Where the bytes of the statement are valid
    /// UTF-8, this is the text that they encode.
    pub fn to_string(&self) -> (r: String)
        ensures
            valid_utf8(show_query(self@)) ==> r@ == decode_utf8(show_query(self@)),
    {
        let bytes = self.to_bytes();
        text_from_utf8(bytes.as_slice())
    }
}

/// Reads a `SELECT` statement from the beginning of `i`. Returns the
/// statement and what of the text is left behind it, or an error where the
/// text does not begin with a statement.
pub fn select(i: &str) -> (r: Result<(&[u8], SelectStatement), ParseError>)
    ensures
        match r {
            Ok((rest, stm)) => match parse_select(i.spec_bytes()) {
                Some(h) => h.value == stm@ && rest@ == i.spec_bytes().subrange(
                    h.end,
                    i.spec_bytes().len() as int,
                ),
                None => false,
            },
            Err(_) => parse_select(i.spec_bytes()) is None,
        },
{
    let s = i.as_bytes();
    let (expr, what, e) = match read_head(s) {
        Some(h) => h,
        None => {
            return Err(ParseError {  });
        },
    };
    let (cond, e) = read_cond(s, e);
    let (split, e) = read_paths(s, e, &text_split(), &text_on());
    let (group, e) = read_paths(s, e, &text_group(), &text_by());
    let (order, e) = read_order(s, e);
    let (limit, e) = read_count(s, e, &text_limit());
    let (start, e) = read_count(s, e, &text_start());
    let (fetch, e) = read_fetch(s, e);
    let (version, e) = read_version(s, e);
    let (timeout, e) = read_timeout(s, e);
    let stm = SelectStatement {
        expr: Fields(expr),
        what: Values(what),
        cond,
        split: match split {
            Some(v) => Some(Splits(v)),
            None => None,
        },
        group: match group {
            Some(v) => Some(Groups(v)),
            None => None,
        },
        order,
        limit: match limit {
            Some(n) => Some(Limit(n)),
            None => None,
        },
        start: match start {
            Some(n) => Some(Start(n)),
            None => None,
        },
        fetch,
        version,
        timeout,
    };
    let rest = slice_subrange(s, e, s.len());
    Ok((rest, stm))
}

} // verus!
