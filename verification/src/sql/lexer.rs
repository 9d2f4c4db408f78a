use vstd::prelude::*;
use vstd::slice::slice_subrange;

verus! {

/// A byte with an upper-case ASCII letter turned into its lower-case form.
pub open spec fn lower(b: u8) -> u8 {
    if 65 <= b <= 90 {
        (b + 32) as u8
    } else {
        b
    }
}

/// Whether `input` begins with `tag`, the case of ASCII letters set aside.
pub open spec fn begins_no_case(input: Seq<u8>, tag: Seq<u8>) -> bool {
    tag.len() <= input.len() && forall|k: int| 0 <= k < tag.len() ==> lower(input[k]) == lower(tag[k])
}

/// `nom::bytes::complete::tag_no_case` on byte slices: the parser succeeds
/// exactly where the input is at least as long as the tag and agrees with it
/// byte by byte once ASCII upper-case letters are lowered.
#[verifier::external_body]
fn tag_no_case(tag: &[u8], input: &[u8]) -> (r: bool)
    ensures
        r == begins_no_case(input@, tag@),
{
    nom::bytes::complete::tag_no_case::<&[u8], &[u8], nom::error::Error<&[u8]>>(tag)(input).is_ok()
}

/// Where the keyword `tag` ends if it stands at `i`.
pub open spec fn keyword(s: Seq<u8>, i: int, tag: Seq<u8>) -> Option<int> {
    if 0 <= i <= s.len() && begins_no_case(s.subrange(i, s.len() as int), tag) {
        Some(i + tag.len())
    } else {
        None
    }
}

/// Where the keyword `tag` ends if it stands at `i`.
pub(crate) fn match_keyword(s: &[u8], i: usize, tag: &Vec<u8>) -> (r: Option<usize>)
    requires
        i <= s.len(),
    ensures
        match r {
            Some(e) => keyword(s@, i as int, tag@) == Some(e as int) && i <= e <= s.len(),
            None => keyword(s@, i as int, tag@) is None,
        },
{
    let rest = slice_subrange(s, i, s.len());
    if tag_no_case(tag.as_slice(), rest) {
        Some(i + tag.len())
    } else {
        None
    }
}

/// Whether a byte is white space: a space, a tab, or the end of a line.
pub open spec fn is_space(b: u8) -> bool {
    b == 32 || b == 9 || b == 10 || b == 13
}

/// Whether a byte is a decimal digit.
pub open spec fn is_digit(b: u8) -> bool {
    48 <= b <= 57
}

/// Whether a byte can stand in a name: a letter, a digit or an underscore.
pub open spec fn is_word(b: u8) -> bool {
    is_digit(b) || 65 <= b <= 90 || 97 <= b <= 122 || b == 95
}

/// The first position from `i` on that holds no white space.
pub open spec fn skip_space(s: Seq<u8>, i: int) -> int
    decreases s.len() - i,
{
    if 0 <= i < s.len() && is_space(s[i]) {
        skip_space(s, i + 1)
    } else {
        i
    }
}

/// The first position from `i` on that holds no digit.
pub open spec fn skip_digits(s: Seq<u8>, i: int) -> int
    decreases s.len() - i,
{
    if 0 <= i < s.len() && is_digit(s[i]) {
        skip_digits(s, i + 1)
    } else {
        i
    }
}

/// The first position from `i` on that holds no byte of a name.
pub open spec fn skip_word(s: Seq<u8>, i: int) -> int
    decreases s.len() - i,
{
    if 0 <= i < s.len() && is_word(s[i]) {
        skip_word(s, i + 1)
    } else {
        i
    }
}

/// The first position from `i` on that holds a double quote, or the end.
pub open spec fn skip_quoted(s: Seq<u8>, i: int) -> int
    decreases s.len() - i,
{
    if 0 <= i < s.len() && s[i] != 34 {
        skip_quoted(s, i + 1)
    } else {
        i
    }
}

/// Where white space that begins at `i` ends; there has to be some.
pub open spec fn space(s: Seq<u8>, i: int) -> Option<int> {
    if skip_space(s, i) > i {
        Some(skip_space(s, i))
    } else {
        None
    }
}

/// Whether the byte `b` stands at `i`.
pub open spec fn at(s: Seq<u8>, i: int, b: u8) -> bool {
    0 <= i < s.len() && s[i] == b
}

/// Whether a byte is white space.
pub(crate) fn space_byte(b: u8) -> (r: bool)
    ensures
        r == is_space(b),
{
    b == 32 || b == 9 || b == 10 || b == 13
}

/// Whether a byte is a decimal digit.
pub(crate) fn digit_byte(b: u8) -> (r: bool)
    ensures
        r == is_digit(b),
{
    48 <= b && b <= 57
}

/// Whether a byte can stand in a name.
pub(crate) fn word_byte(b: u8) -> (r: bool)
    ensures
        r == is_word(b),
{
    (48 <= b && b <= 57) || (65 <= b && b <= 90) || (97 <= b && b <= 122) || b == 95
}

/// The first position from `i` on that holds no white space.
#[verifier::loop_isolation(false)]
pub(crate) fn scan_space(s: &[u8], i: usize) -> (e: usize)
    requires
        i <= s.len(),
    ensures
        e == skip_space(s@, i as int),
        i <= e <= s.len(),
{
    let mut e = i;
    while e < s.len() && space_byte(s[e])
        invariant
            i <= e <= s.len(),
            skip_space(s@, i as int) == skip_space(s@, e as int),
        decreases s.len() - e,
    {
        e += 1;
    }
    e
}

/// The first position from `i` on that holds no digit.
#[verifier::loop_isolation(false)]
pub(crate) fn scan_digits(s: &[u8], i: usize) -> (e: usize)
    requires
        i <= s.len(),
    ensures
        e == skip_digits(s@, i as int),
        i <= e <= s.len(),
{
    let mut e = i;
    while e < s.len() && digit_byte(s[e])
        invariant
            i <= e <= s.len(),
            skip_digits(s@, i as int) == skip_digits(s@, e as int),
        decreases s.len() - e,
    {
        e += 1;
    }
    e
}

/// The first position from `i` on that holds no byte of a name.
#[verifier::loop_isolation(false)]
pub(crate) fn scan_word(s: &[u8], i: usize) -> (e: usize)
    requires
        i <= s.len(),
    ensures
        e == skip_word(s@, i as int),
        i <= e <= s.len(),
{
    let mut e = i;
    while e < s.len() && word_byte(s[e])
        invariant
            i <= e <= s.len(),
            skip_word(s@, i as int) == skip_word(s@, e as int),
        decreases s.len() - e,
    {
        e += 1;
    }
    e
}

/// The first position from `i` on that holds a double quote, or the end.
#[verifier::loop_isolation(false)]
pub(crate) fn scan_quoted(s: &[u8], i: usize) -> (e: usize)
    requires
        i <= s.len(),
    ensures
        e == skip_quoted(s@, i as int),
        i <= e <= s.len(),
{
    let mut e = i;
    while e < s.len() && s[e] != 34
        invariant
            i <= e <= s.len(),
            skip_quoted(s@, i as int) == skip_quoted(s@, e as int),
        decreases s.len() - e,
    {
        e += 1;
    }
    e
}

/// Where white space that begins at `i` ends; there has to be some.
pub(crate) fn match_space(s: &[u8], i: usize) -> (r: Option<usize>)
    requires
        i <= s.len(),
    ensures
        match r {
            Some(e) => space(s@, i as int) == Some(e as int) && i < e <= s.len(),
            None => space(s@, i as int) is None,
        },
{
    let e = scan_space(s, i);
    if e > i {
        Some(e)
    } else {
        None
    }
}

/// Whether the byte `b` stands at `i`.
pub(crate) fn byte_at(s: &[u8], i: usize, b: u8) -> (r: bool)
    ensures
        r == at(s@, i as int, b),
{
    i < s.len() && s[i] == b
}

/// A copy of the bytes from `from` up to `to`.
#[verifier::loop_isolation(false)]
pub(crate) fn take_text(s: &[u8], from: usize, to: usize) -> (r: Vec<u8>)
    requires
        from <= to <= s.len(),
    ensures
        r@ == s@.subrange(from as int, to as int),
{
    let mut out: Vec<u8> = Vec::new();
    let mut i = from;
    while i < to
        invariant
            from <= i <= to,
            out@ == s@.subrange(from as int, i as int),
        decreases to - i,
    {
        out.push(s[i]);
        assert(s@.subrange(from as int, i + 1) =~= s@.subrange(from as int, i as int).push(
            s@[i as int],
        ));
        i += 1;
    }
    out
}

/// The number that the digits from `from` up to `to` spell.
pub open spec fn digits_value(s: Seq<u8>, from: int, to: int) -> int
    decreases to - from,
{
    if to <= from || to > s.len() || from < 0 {
        0
    } else {
        digits_value(s, from, to - 1) * 10 + (s[to - 1] - 48)
    }
}

/// The digits from `from` up to `to` spell no less than any prefix of them.
pub proof fn lemma_digits_grow(s: Seq<u8>, from: int, mid: int, to: int)
    requires
        0 <= from <= mid <= to <= s.len(),
        forall|k: int| from <= k < to ==> is_digit(s[k]),
    ensures
        0 <= digits_value(s, from, mid) <= digits_value(s, from, to),
    decreases to - mid,
{
    if mid < to {
        lemma_digits_grow(s, from, mid, to - 1);
    } else {
        lemma_digits_nonnegative(s, from, mid);
    }
}

/// Digits spell a number that is not negative.
pub proof fn lemma_digits_nonnegative(s: Seq<u8>, from: int, to: int)
    requires
        0 <= from <= to <= s.len(),
        forall|k: int| from <= k < to ==> is_digit(s[k]),
    ensures
        0 <= digits_value(s, from, to),
    decreases to - from,
{
    if from < to {
        lemma_digits_nonnegative(s, from, to - 1);
    }
}

/// The digits between two positions found by `skip_digits` are digits.
pub proof fn lemma_skip_digits(s: Seq<u8>, i: int)
    requires
        0 <= i <= s.len(),
    ensures
        i <= skip_digits(s, i) <= s.len(),
        forall|k: int| i <= k < skip_digits(s, i) ==> is_digit(s[k]),
    decreases s.len() - i,
{
    if i < s.len() && is_digit(s[i]) {
        lemma_skip_digits(s, i + 1);
    }
}

/// The number that the digits from `from` up to `to` spell, where it fits in
/// 64 bits.
#[verifier::loop_isolation(false)]
pub(crate) fn read_digits(s: &[u8], from: usize, to: usize) -> (r: Option<u64>)
    requires
        from <= to <= s.len(),
        forall|k: int| from <= k < to ==> is_digit(s@[k]),
    ensures
        match r {
            Some(n) => digits_value(s@, from as int, to as int) == n,
            None => digits_value(s@, from as int, to as int) > u64::MAX,
        },
{
    let mut n: u64 = 0;
    let mut i = from;
    while i < to
        invariant
            from <= i <= to,
            n == digits_value(s@, from as int, i as int),
        decreases to - i,
    {
        let d: u64 = (s[i] - 48) as u64;
        let next = match n.checked_mul(10) {
            Some(m) => m.checked_add(d),
            None => None,
        };
        match next {
            Some(m) => {
                n = m;
            },
            None => {
                proof {
                    assert(digits_value(s@, from as int, i + 1) > u64::MAX);
                    lemma_digits_grow(s@, from as int, i + 1, to as int);
                }
                return None;
            },
        }
        i += 1;
    }
    Some(n)
}

} // verus!
