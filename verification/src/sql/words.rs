use vstd::prelude::*;

verus! {

/// The text `SELECT`.
pub open spec fn word_select() -> Seq<u8> {
    seq![83u8, 69u8, 76u8, 69u8, 67u8, 84u8]
}

/// The text `SELECT`.
pub fn text_select() -> (r: Vec<u8>)
    ensures
        r@ == word_select(),
{
    let r: Vec<u8> = vec![83u8, 69u8, 76u8, 69u8, 67u8, 84u8];
    assert(r@ =~= word_select());
    r
}

/// The text `FROM`.
pub open spec fn word_from() -> Seq<u8> {
    seq![70u8, 82u8, 79u8, 77u8]
}

/// The text `FROM`.
pub fn text_from() -> (r: Vec<u8>)
    ensures
        r@ == word_from(),
{
    let r: Vec<u8> = vec![70u8, 82u8, 79u8, 77u8];
    assert(r@ =~= word_from());
    r
}

/// The text `WHERE`.
pub open spec fn word_where() -> Seq<u8> {
    seq![87u8, 72u8, 69u8, 82u8, 69u8]
}

/// The text `WHERE`.
pub fn text_where() -> (r: Vec<u8>)
    ensures
        r@ == word_where(),
{
    let r: Vec<u8> = vec![87u8, 72u8, 69u8, 82u8, 69u8];
    assert(r@ =~= word_where());
    r
}

/// The text `SPLIT`.
pub open spec fn word_split() -> Seq<u8> {
    seq![83u8, 80u8, 76u8, 73u8, 84u8]
}

/// The text `SPLIT`.
pub fn text_split() -> (r: Vec<u8>)
    ensures
        r@ == word_split(),
{
    let r: Vec<u8> = vec![83u8, 80u8, 76u8, 73u8, 84u8];
    assert(r@ =~= word_split());
    r
}

/// The text `ON`.
pub open spec fn word_on() -> Seq<u8> {
    seq![79u8, 78u8]
}

/// The text `ON`.
pub fn text_on() -> (r: Vec<u8>)
    ensures
        r@ == word_on(),
{
    let r: Vec<u8> = vec![79u8, 78u8];
    assert(r@ =~= word_on());
    r
}

/// The text `GROUP`.
pub open spec fn word_group() -> Seq<u8> {
    seq![71u8, 82u8, 79u8, 85u8, 80u8]
}

/// The text `GROUP`.
pub fn text_group() -> (r: Vec<u8>)
    ensures
        r@ == word_group(),
{
    let r: Vec<u8> = vec![71u8, 82u8, 79u8, 85u8, 80u8];
    assert(r@ =~= word_group());
    r
}

/// The text `BY`.
pub open spec fn word_by() -> Seq<u8> {
    seq![66u8, 89u8]
}

/// The text `BY`.
pub fn text_by() -> (r: Vec<u8>)
    ensures
        r@ == word_by(),
{
    let r: Vec<u8> = vec![66u8, 89u8];
    assert(r@ =~= word_by());
    r
}

/// The text `ORDER`.
pub open spec fn word_order() -> Seq<u8> {
    seq![79u8, 82u8, 68u8, 69u8, 82u8]
}

/// The text `ORDER`.
pub fn text_order() -> (r: Vec<u8>)
    ensures
        r@ == word_order(),
{
    let r: Vec<u8> = vec![79u8, 82u8, 68u8, 69u8, 82u8];
    assert(r@ =~= word_order());
    r
}

/// The text `ASC`.
pub open spec fn word_asc() -> Seq<u8> {
    seq![65u8, 83u8, 67u8]
}

/// The text `ASC`.
pub fn text_asc() -> (r: Vec<u8>)
    ensures
        r@ == word_asc(),
{
    let r: Vec<u8> = vec![65u8, 83u8, 67u8];
    assert(r@ =~= word_asc());
    r
}

/// The text `DESC`.
pub open spec fn word_desc() -> Seq<u8> {
    seq![68u8, 69u8, 83u8, 67u8]
}

/// The text `DESC`.
pub fn text_desc() -> (r: Vec<u8>)
    ensures
        r@ == word_desc(),
{
    let r: Vec<u8> = vec![68u8, 69u8, 83u8, 67u8];
    assert(r@ =~= word_desc());
    r
}

/// The text `LIMIT`.
pub open spec fn word_limit() -> Seq<u8> {
    seq![76u8, 73u8, 77u8, 73u8, 84u8]
}

/// The text `LIMIT`.
pub fn text_limit() -> (r: Vec<u8>)
    ensures
        r@ == word_limit(),
{
    let r: Vec<u8> = vec![76u8, 73u8, 77u8, 73u8, 84u8];
    assert(r@ =~= word_limit());
    r
}

/// The text `START`.
pub open spec fn word_start() -> Seq<u8> {
    seq![83u8, 84u8, 65u8, 82u8, 84u8]
}

/// The text `START`.
pub fn text_start() -> (r: Vec<u8>)
    ensures
        r@ == word_start(),
{
    let r: Vec<u8> = vec![83u8, 84u8, 65u8, 82u8, 84u8];
    assert(r@ =~= word_start());
    r
}

/// The text `FETCH`.
pub open spec fn word_fetch() -> Seq<u8> {
    seq![70u8, 69u8, 84u8, 67u8, 72u8]
}

/// The text `FETCH`.
pub fn text_fetch() -> (r: Vec<u8>)
    ensures
        r@ == word_fetch(),
{
    let r: Vec<u8> = vec![70u8, 69u8, 84u8, 67u8, 72u8];
    assert(r@ =~= word_fetch());
    r
}

/// The text `VERSION`.
pub open spec fn word_version() -> Seq<u8> {
    seq![86u8, 69u8, 82u8, 83u8, 73u8, 79u8, 78u8]
}

/// The text `VERSION`.
pub fn text_version() -> (r: Vec<u8>)
    ensures
        r@ == word_version(),
{
    let r: Vec<u8> = vec![86u8, 69u8, 82u8, 83u8, 73u8, 79u8, 78u8];
    assert(r@ =~= word_version());
    r
}

/// The text `TIMEOUT`.
pub open spec fn word_timeout() -> Seq<u8> {
    seq![84u8, 73u8, 77u8, 69u8, 79u8, 85u8, 84u8]
}

/// The text `TIMEOUT`.
pub fn text_timeout() -> (r: Vec<u8>)
    ensures
        r@ == word_timeout(),
{
    let r: Vec<u8> = vec![84u8, 73u8, 77u8, 69u8, 79u8, 85u8, 84u8];
    assert(r@ =~= word_timeout());
    r
}

/// The text `AS`.
pub open spec fn word_as() -> Seq<u8> {
    seq![65u8, 83u8]
}

/// The text `AS`.
pub fn text_as() -> (r: Vec<u8>)
    ensures
        r@ == word_as(),
{
    let r: Vec<u8> = vec![65u8, 83u8];
    assert(r@ =~= word_as());
    r
}

/// The text `AND`.
pub open spec fn word_and() -> Seq<u8> {
    seq![65u8, 78u8, 68u8]
}

/// The text `AND`.
pub fn text_and() -> (r: Vec<u8>)
    ensures
        r@ == word_and(),
{
    let r: Vec<u8> = vec![65u8, 78u8, 68u8];
    assert(r@ =~= word_and());
    r
}

/// The text `OR`.
pub open spec fn word_or() -> Seq<u8> {
    seq![79u8, 82u8]
}

/// The text `OR`.
pub fn text_or() -> (r: Vec<u8>)
    ensures
        r@ == word_or(),
{
    let r: Vec<u8> = vec![79u8, 82u8];
    assert(r@ =~= word_or());
    r
}

/// The text `true`.
pub open spec fn word_true() -> Seq<u8> {
    seq![116u8, 114u8, 117u8, 101u8]
}

/// The text `true`.
pub fn text_true() -> (r: Vec<u8>)
    ensures
        r@ == word_true(),
{
    let r: Vec<u8> = vec![116u8, 114u8, 117u8, 101u8];
    assert(r@ =~= word_true());
    r
}

/// The text `false`.
pub open spec fn word_false() -> Seq<u8> {
    seq![102u8, 97u8, 108u8, 115u8, 101u8]
}

/// The text `false`.
pub fn text_false() -> (r: Vec<u8>)
    ensures
        r@ == word_false(),
{
    let r: Vec<u8> = vec![102u8, 97u8, 108u8, 115u8, 101u8];
    assert(r@ =~= word_false());
    r
}

/// The text `NULL`.
pub open spec fn word_null() -> Seq<u8> {
    seq![78u8, 85u8, 76u8, 76u8]
}

/// The text `NULL`.
pub fn text_null() -> (r: Vec<u8>)
    ensures
        r@ == word_null(),
{
    let r: Vec<u8> = vec![78u8, 85u8, 76u8, 76u8];
    assert(r@ =~= word_null());
    r
}

/// The text `VOID`.
pub open spec fn word_void() -> Seq<u8> {
    seq![86u8, 79u8, 73u8, 68u8]
}

/// The text `VOID`.
pub fn text_void() -> (r: Vec<u8>)
    ensures
        r@ == word_void(),
{
    let r: Vec<u8> = vec![86u8, 79u8, 73u8, 68u8];
    assert(r@ =~= word_void());
    r
}

/// The text `ms`.
pub open spec fn word_ms() -> Seq<u8> {
    seq![109u8, 115u8]
}

/// The text `ms`.
pub fn text_ms() -> (r: Vec<u8>)
    ensures
        r@ == word_ms(),
{
    let r: Vec<u8> = vec![109u8, 115u8];
    assert(r@ =~= word_ms());
    r
}

/// The text `<future>`.
pub open spec fn word_future() -> Seq<u8> {
    seq![60u8, 102u8, 117u8, 116u8, 117u8, 114u8, 101u8, 62u8]
}

/// The text `<future>`.
pub fn text_future() -> (r: Vec<u8>)
    ensures
        r@ == word_future(),
{
    let r: Vec<u8> = vec![60u8, 102u8, 117u8, 116u8, 117u8, 114u8, 101u8, 62u8];
    assert(r@ =~= word_future());
    r
}

} // verus!
