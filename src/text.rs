use vstd::prelude::*;

verus! {

/// The Unicode `White_Space` property, which is what `char::is_whitespace` tests.
pub open spec fn is_space(c: char) -> bool {
    ||| ('\u{9}' <= c && c <= '\u{d}')
    ||| c == ' '
    ||| c == '\u{85}'
    ||| c == '\u{a0}'
    ||| c == '\u{1680}'
    ||| ('\u{2000}' <= c && c <= '\u{200a}')
    ||| c == '\u{2028}'
    ||| c == '\u{2029}'
    ||| c == '\u{202f}'
    ||| c == '\u{205f}'
    ||| c == '\u{3000}'
}

/// Whether `c` is a whitespace character.
pub fn is_space_char(c: char) -> (r: bool)
    ensures
        r == is_space(c),
{
    ('\u{9}' <= c && c <= '\u{d}') || c == ' ' || c == '\u{85}' || c == '\u{a0}' || c == '\u{1680}'
        || ('\u{2000}' <= c && c <= '\u{200a}') || c == '\u{2028}' || c == '\u{2029}' || c
        == '\u{202f}' || c == '\u{205f}' || c == '\u{3000}'
}

} // verus!

verus! {

/// Appends one character to a string.
/// Relies on `String::push`: the character is added at the end.
#[verifier::external_body]
pub(crate) fn push_char(s: &mut String, c: char)
    ensures
        final(s)@ == old(s)@.push(c),
{
    s.push(c);
}

/// The characters of `s`, in order.
pub fn chars_of(s: &str) -> (r: Vec<char>)
    ensures
        r@ == s@,
{
    let mut r: Vec<char> = Vec::new();
    for c in it: s.chars()
        invariant
            it.seq() == s@,
            r@ == it.seq().subrange(0, it.index() as int),
    {
        r.push(c);
        assert(r@ =~= it.seq().subrange(0, it.index() + 1));
    }
    assert(r@ =~= s@);
    r
}

/// The string whose characters are `cs`.
pub fn string_of(cs: &[char]) -> (r: String)
    ensures
        r@ == cs@,
{
    let mut r = String::new();
    let mut i: usize = 0;
    while i < cs.len()
        invariant
            i <= cs@.len(),
            r@ == cs@.subrange(0, i as int),
        decreases cs@.len() - i,
    {
        push_char(&mut r, cs[i]);
        i += 1;
        assert(r@ =~= cs@.subrange(0, i as int));
    }
    assert(cs@.subrange(0, i as int) =~= cs@);
    r
}

} // verus!

verus! {

/// Moving left from `i`, the position after the run of whitespace that ends at `i`.
pub open spec fn skip_space_left(s: Seq<char>, i: int) -> int
    decreases i,
{
    if 0 < i <= s.len() && is_space(s[i - 1]) {
        skip_space_left(s, i - 1)
    } else {
        i
    }
}

/// Moving left from `i`, the position after the run of non-whitespace that ends at `i`.
pub open spec fn skip_word_left(s: Seq<char>, i: int) -> int
    decreases i,
{
    if 0 < i <= s.len() && !is_space(s[i - 1]) {
        skip_word_left(s, i - 1)
    } else {
        i
    }
}

/// Moving right from `i`, the position after the run of whitespace that starts at `i`.
pub open spec fn skip_space_right(s: Seq<char>, i: int) -> int
    decreases s.len() - i,
{
    if 0 <= i < s.len() && is_space(s[i]) {
        skip_space_right(s, i + 1)
    } else {
        i
    }
}

/// Moving right from `i`, the position after the run of non-whitespace that starts at `i`.
pub open spec fn skip_word_right(s: Seq<char>, i: int) -> int
    decreases s.len() - i,
{
    if 0 <= i < s.len() && !is_space(s[i]) {
        skip_word_right(s, i + 1)
    } else {
        i
    }
}

/// The previous word boundary: whitespace left of `i` is passed over, then the word before it.
pub open spec fn word_boundary_left(s: Seq<char>, i: int) -> int {
    skip_word_left(s, skip_space_left(s, i))
}

/// The next word boundary: whitespace right of `i` is passed over, then the word after it.
pub open spec fn word_boundary_right(s: Seq<char>, i: int) -> int {
    skip_word_right(s, skip_space_right(s, i))
}

pub proof fn lemma_skip_left_bounds(s: Seq<char>, i: int)
    requires
        0 <= i <= s.len(),
    ensures
        0 <= skip_space_left(s, i) <= i,
        0 <= skip_word_left(s, i) <= i,
    decreases i,
{
    if i > 0 {
        lemma_skip_left_bounds(s, i - 1);
    }
}

pub proof fn lemma_skip_right_bounds(s: Seq<char>, i: int)
    requires
        0 <= i <= s.len(),
    ensures
        i <= skip_space_right(s, i) <= s.len(),
        i <= skip_word_right(s, i) <= s.len(),
    decreases s.len() - i,
{
    if i < s.len() {
        lemma_skip_right_bounds(s, i + 1);
    }
}

/// A word boundary lies between the start of `s` and `i`, or between `i` and the end.
pub proof fn lemma_word_boundary_bounds(s: Seq<char>, i: int)
    requires
        0 <= i <= s.len(),
    ensures
        0 <= word_boundary_left(s, i) <= i,
        i <= word_boundary_right(s, i) <= s.len(),
{
    lemma_skip_left_bounds(s, i);
    lemma_skip_left_bounds(s, skip_space_left(s, i));
    lemma_skip_right_bounds(s, i);
    lemma_skip_right_bounds(s, skip_space_right(s, i));
}

/// The previous word boundary of position `i` in `s`.
pub fn word_left(s: &[char], i: usize) -> (r: usize)
    requires
        i <= s@.len(),
    ensures
        r == word_boundary_left(s@, i as int),
        r <= i,
{
    proof {
        lemma_word_boundary_bounds(s@, i as int);
    }
    let mut j = i;
    while j > 0 && is_space_char(s[j - 1])
        invariant
            j <= i <= s@.len(),
            skip_space_left(s@, j as int) == skip_space_left(s@, i as int),
        decreases j,
    {
        j -= 1;
    }
    let ghost mid = j;
    while j > 0 && !is_space_char(s[j - 1])
        invariant
            j <= mid <= s@.len(),
            skip_word_left(s@, j as int) == skip_word_left(s@, mid as int),
            mid == skip_space_left(s@, i as int),
        decreases j,
    {
        j -= 1;
    }
    j
}

/// The next word boundary of position `i` in `s`.
pub fn word_right(s: &[char], i: usize) -> (r: usize)
    requires
        i <= s@.len(),
    ensures
        r == word_boundary_right(s@, i as int),
        i <= r <= s@.len(),
{
    proof {
        lemma_word_boundary_bounds(s@, i as int);
    }
    let mut j = i;
    while j < s.len() && is_space_char(s[j])
        invariant
            i <= j <= s@.len(),
            skip_space_right(s@, j as int) == skip_space_right(s@, i as int),
        decreases s@.len() - j,
    {
        j += 1;
    }
    let ghost mid = j;
    while j < s.len() && !is_space_char(s[j])
        invariant
            mid <= j <= s@.len(),
            skip_word_right(s@, j as int) == skip_word_right(s@, mid as int),
            mid == skip_space_right(s@, i as int),
        decreases s@.len() - j,
    {
        j += 1;
    }
    j
}

} // verus!
