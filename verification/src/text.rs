//! Character-level helpers: Unicode white space, trimming, and moving
//! between strings and character vectors.

use vstd::prelude::*;

verus! {

/// The Unicode `White_Space` property, which `char::is_whitespace` tests.
pub open spec fn spec_is_white_space(c: char) -> bool {
    ||| '\u{9}' <= c <= '\u{d}'
    ||| c == ' '
    ||| c == '\u{85}'
    ||| c == '\u{a0}'
    ||| c == '\u{1680}'
    ||| '\u{2000}' <= c <= '\u{200a}'
    ||| c == '\u{2028}'
    ||| c == '\u{2029}'
    ||| c == '\u{202f}'
    ||| c == '\u{205f}'
    ||| c == '\u{3000}'
}

/// Whether `c` has the Unicode `White_Space` property.
pub fn is_white_space(c: char) -> (r: bool)
    ensures
        r == spec_is_white_space(c),
{
    ('\u{9}' <= c && c <= '\u{d}') || c == ' ' || c == '\u{85}' || c == '\u{a0}' || c == '\u{1680}'
        || ('\u{2000}' <= c && c <= '\u{200a}') || c == '\u{2028}' || c == '\u{2029}' || c
        == '\u{202f}' || c == '\u{205f}' || c == '\u{3000}'
}

/// `s` without its leading white space.
pub open spec fn trim_start(s: Seq<char>) -> Seq<char>
    decreases s.len(),
{
    if s.len() > 0 && spec_is_white_space(s[0]) {
        trim_start(s.drop_first())
    } else {
        s
    }
}

/// `s` without its trailing white space.
pub open spec fn trim_end(s: Seq<char>) -> Seq<char>
    decreases s.len(),
{
    if s.len() > 0 && spec_is_white_space(s.last()) {
        trim_end(s.drop_last())
    } else {
        s
    }
}

/// `s` without its leading and trailing white space, as `str::trim` gives it.
pub open spec fn trim(s: Seq<char>) -> Seq<char> {
    trim_end(trim_start(s))
}

proof fn lemma_trim_start_skip(s: Seq<char>, i: int)
    requires
        0 <= i <= s.len(),
        forall|j: int| 0 <= j < i ==> spec_is_white_space(#[trigger] s[j]),
    ensures
        trim_start(s) == trim_start(s.skip(i)),
    decreases i,
{
    if i > 0 {
        assert(s.skip(i - 1).drop_first() =~= s.skip(i));
        lemma_trim_start_skip(s, i - 1);
    } else {
        assert(s.skip(0) =~= s);
    }
}

proof fn lemma_trim_end_take(s: Seq<char>, i: int)
    requires
        0 <= i <= s.len(),
        forall|j: int| i <= j < s.len() ==> spec_is_white_space(#[trigger] s[j]),
    ensures
        trim_end(s) == trim_end(s.take(i)),
    decreases s.len() - i,
{
    if i < s.len() {
        assert(s.take(i + 1).drop_last() =~= s.take(i));
        lemma_trim_end_take(s, i + 1);
    } else {
        assert(s.take(i) =~= s);
    }
}

/// Trimming never lengthens a sequence and only removes from its ends.
pub proof fn lemma_trim_shrinks(s: Seq<char>)
    ensures
        trim_start(s).len() <= s.len(),
        trim_end(s).len() <= s.len(),
        trim(s).len() <= s.len(),
    decreases s.len(),
{
    if s.len() > 0 {
        lemma_trim_shrinks(s.drop_first());
        lemma_trim_shrinks(s.drop_last());
    }
    lemma_trim_end_shrinks(trim_start(s));
}

/// `trim_start` leaves a sequence that is empty or starts with a character
/// other than white space; `trim_end` drops only a suffix, and leaves a
/// sequence that is empty or ends with such a character.
proof fn lemma_trim_shapes(s: Seq<char>)
    ensures
        trim_start(s).len() > 0 ==> !spec_is_white_space(trim_start(s)[0]),
        trim_end(s).len() <= s.len(),
        trim_end(s) == s.take(trim_end(s).len() as int),
        trim_end(s).len() > 0 ==> !spec_is_white_space(trim_end(s).last()),
    decreases s.len(),
{
    if s.len() > 0 {
        lemma_trim_shapes(s.drop_first());
        lemma_trim_shapes(s.drop_last());
        if spec_is_white_space(s.last()) {
            let k = trim_end(s.drop_last()).len() as int;
            assert(s.drop_last().take(k) =~= s.take(k));
        }
    }
    if trim_end(s) == s {
        assert(s.take(s.len() as int) =~= s);
    }
}

/// Trimming twice trims as much as trimming once.
pub proof fn lemma_trim_idempotent(s: Seq<char>)
    ensures
        trim(trim(s)) == trim(s),
{
    let u = trim_start(s);
    lemma_trim_shapes(s);
    lemma_trim_shapes(u);
    let v = trim_end(u);
    if v.len() > 0 {
        assert(v[0] == u[0]);
    }
    assert(trim_start(v) == v);
    lemma_trim_shapes(v);
    assert(trim_end(v) == v);
}

proof fn lemma_trim_end_shrinks(s: Seq<char>)
    ensures
        trim_end(s).len() <= s.len(),
    decreases s.len(),
{
    if s.len() > 0 {
        lemma_trim_end_shrinks(s.drop_last());
    }
}

/// The elements `lo..hi` of `s`, copied.
pub fn sub_vec(s: &Vec<char>, lo: usize, hi: usize) -> (r: Vec<char>)
    requires
        lo <= hi <= s.len(),
    ensures
        r@ == s@.subrange(lo as int, hi as int),
{
    let mut r: Vec<char> = Vec::new();
    let mut i = lo;
    while i < hi
        invariant
            lo <= i <= hi <= s.len(),
            r@ == s@.subrange(lo as int, i as int),
        decreases hi - i,
    {
        r.push(s[i]);
        i += 1;
    }
    r
}

/// The bounds `(lo, hi)` of `s` without leading and trailing white space.
pub fn trim_bounds(s: &Vec<char>) -> (r: (usize, usize))
    ensures
        r.0 <= r.1 <= s.len(),
        s@.subrange(r.0 as int, r.1 as int) == trim(s@),
{
    let mut lo: usize = 0;
    while lo < s.len() && is_white_space(s[lo])
        invariant
            lo <= s.len(),
            forall|j: int| 0 <= j < lo ==> spec_is_white_space(#[trigger] s@[j]),
        decreases s.len() - lo,
    {
        lo += 1;
    }
    proof {
        lemma_trim_start_skip(s@, lo as int);
        if lo < s.len() {
            assert(!spec_is_white_space(s@.skip(lo as int)[0]));
        }
        assert(trim_start(s@) == s@.skip(lo as int));
    }
    let ghost t = s@.skip(lo as int);
    let mut hi: usize = s.len();
    while hi > lo && is_white_space(s[hi - 1])
        invariant
            lo <= hi <= s.len(),
            t == s@.skip(lo as int),
            forall|j: int| hi - lo <= j < t.len() ==> spec_is_white_space(#[trigger] t[j]),
        decreases hi,
    {
        hi -= 1;
    }
    proof {
        lemma_trim_end_take(t, hi - lo);
        if hi > lo {
            assert(!spec_is_white_space(t.take(hi - lo).last()));
        }
        assert(trim_end(t) == t.take(hi - lo));
        assert(t.take(hi - lo) =~= s@.subrange(lo as int, hi as int));
    }
    (lo, hi)
}

/// `s` without leading and trailing white space.
pub fn trim_chars(s: &Vec<char>) -> (r: Vec<char>)
    ensures
        r@ == trim(s@),
{
    let (lo, hi) = trim_bounds(s);
    sub_vec(s, lo, hi)
}

/// The characters of a string.
pub fn chars_of(s: &str) -> (v: Vec<char>)
    ensures
        v@ == s@,
{
    broadcast use vstd::string::group_string_axioms;
    let mut v: Vec<char> = Vec::new();
    for c in it: s.chars()
        invariant
            v@ == it.seq().take(it.index() as int),
    {
        v.push(c);
    }
    v
}

/// `Iterator::collect` of the characters `lo..hi` of `v` into a `String`:
/// the string holds exactly those characters, in order.
#[verifier::external_body]
pub fn string_of(v: &Vec<char>, lo: usize, hi: usize) -> (s: String)
    requires
        lo <= hi <= v.len(),
    ensures
        s@ == v@.subrange(lo as int, hi as int),
{
    v[lo..hi].iter().collect()
}

} // verus!
