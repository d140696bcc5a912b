use vstd::prelude::*;

verus! {

/// The characters with the Unicode property `White_Space`.
pub open spec fn is_space(c: char) -> bool {
    ||| '\u{9}' <= c <= '\u{d}'
    ||| c == ' '
    ||| c == '\u{85}'
    ||| c == '\u{a0}'
    ||| c == '\u{1680}'
    ||| '\u{2000}' <= c <= '\u{200a}'
    ||| c == '\u{2028}'
    ||| c == '\u{2029}'
    ||| c == '\u{202f}'
    ||| c == '\u{205f}'
    ||| c == '\u{3000}'
}

/// Every character of `s` is whitespace.
pub open spec fn all_space(s: Seq<char>) -> bool {
    forall|i: int| 0 <= i < s.len() ==> is_space(#[trigger] s[i])
}

/// `s` without its leading whitespace.
pub open spec fn trim_start(s: Seq<char>) -> Seq<char>
    decreases s.len(),
{
    if s.len() > 0 && is_space(s.first()) {
        trim_start(s.drop_first())
    } else {
        s
    }
}

/// `s` without its trailing whitespace.
pub open spec fn trim_end(s: Seq<char>) -> Seq<char>
    decreases s.len(),
{
    if s.len() > 0 && is_space(s.last()) {
        trim_end(s.drop_last())
    } else {
        s
    }
}

/// `s` without its leading and trailing whitespace.
pub open spec fn trim(s: Seq<char>) -> Seq<char> {
    trim_end(trim_start(s))
}

/// The characters of `s`, in order.
pub fn chars_of(s: &str) -> (v: Vec<char>)
    ensures
        v@ == s@,
{
    let mut v: Vec<char> = Vec::new();
    for c in it: s.chars()
        invariant
            v@ == it.seq().take(it.index() as int),
            it.seq() == s@,
    {
        v.push(c);
    }
    v
}

/// Whether `c` is whitespace.
pub fn is_space_char(c: char) -> (b: bool)
    ensures
        b == is_space(c),
{
    ('\u{9}' <= c && c <= '\u{d}') || c == ' ' || c == '\u{85}' || c == '\u{a0}' || c == '\u{1680}'
        || ('\u{2000}' <= c && c <= '\u{200a}') || c == '\u{2028}' || c == '\u{2029}' || c
        == '\u{202f}' || c == '\u{205f}' || c == '\u{3000}'
}

/// The bounds of `s` without its leading and trailing whitespace.
pub fn trim_bounds(s: &[char]) -> (r: (usize, usize))
    ensures
        r.0 <= r.1 <= s@.len(),
        s@.subrange(r.0 as int, r.1 as int) == trim(s@),
{
    let n: usize = s.len();
    let mut lo: usize = 0;
    assert(s@.skip(0) == s@);
    while lo < n && is_space_char(s[lo])
        invariant
            lo <= n == s@.len(),
            trim_start(s@) == trim_start(s@.skip(lo as int)),
        decreases n - lo,
    {
        assert(s@.skip(lo as int).drop_first() == s@.skip(lo as int + 1));
        lo = lo + 1;
    }
    let mut hi: usize = n;
    while hi > lo && is_space_char(s[hi - 1])
        invariant
            lo <= hi <= n == s@.len(),
            trim_start(s@) == s@.skip(lo as int),
            trim(s@) == trim_end(s@.subrange(lo as int, hi as int)),
        decreases hi - lo,
    {
        assert(s@.subrange(lo as int, hi as int).drop_last() == s@.subrange(
            lo as int,
            hi as int - 1,
        ));
        hi = hi - 1;
    }
    (lo, hi)
}

/// Whether `s` begins with `prefix`.
pub fn has_prefix(s: &[char], prefix: &[char]) -> (b: bool)
    ensures
        b == prefix@.is_prefix_of(s@),
{
    if prefix.len() > s.len() {
        return false;
    }
    let mut i: usize = 0;
    while i < prefix.len()
        invariant
            i <= prefix@.len() <= s@.len(),
            forall|j: int| 0 <= j < i ==> prefix@[j] == s@[j],
        decreases prefix@.len() - i,
    {
        if prefix[i] != s[i] {
            assert(s@.subrange(0, prefix@.len() as int)[i as int] != prefix@[i as int]);
            return false;
        }
        i = i + 1;
    }
    assert(prefix@ =~= s@.subrange(0, prefix@.len() as int));
    true
}

/// Whitespace around a text does not change what trimming leaves of it.
pub proof fn lemma_trim_surrounded(before: Seq<char>, s: Seq<char>, after: Seq<char>)
    requires
        all_space(before),
        all_space(after),
    ensures
        trim(before + s + after) == trim(s),
{
    lemma_trim_start_skips(before, s + after);
    assert(before + s + after == before + (s + after));
    if all_space(s) {
        lemma_trim_start_skips(s, after);
        lemma_trim_start_skips(after, Seq::empty());
        assert(after + Seq::<char>::empty() == after);
        lemma_trim_start_skips(s, Seq::empty());
        assert(s + Seq::<char>::empty() == s);
    } else {
        lemma_trim_start_keeps(s, after);
        lemma_trim_end_skips(trim_start(s), after);
    }
}

/// Leading whitespace is removed whatever follows it.
proof fn lemma_trim_start_skips(before: Seq<char>, s: Seq<char>)
    requires
        all_space(before),
    ensures
        trim_start(before + s) == trim_start(s),
    decreases before.len(),
{
    if before.len() == 0 {
        assert(before + s == s);
    } else {
        assert((before + s).first() == before[0]);
        assert((before + s).drop_first() == before.drop_first() + s);
        lemma_trim_start_skips(before.drop_first(), s);
    }
}

/// Trailing whitespace is removed whatever precedes it.
proof fn lemma_trim_end_skips(s: Seq<char>, after: Seq<char>)
    requires
        all_space(after),
    ensures
        trim_end(s + after) == trim_end(s),
    decreases after.len(),
{
    if after.len() == 0 {
        assert(s + after == s);
    } else {
        assert((s + after).last() == after.last());
        assert((s + after).drop_last() == s + after.drop_last());
        lemma_trim_end_skips(s, after.drop_last());
    }
}

/// Trimming the start of a text that is not all whitespace leaves what
/// follows the text untouched.
proof fn lemma_trim_start_keeps(s: Seq<char>, after: Seq<char>)
    requires
        !all_space(s),
    ensures
        trim_start(s + after) == trim_start(s) + after,
    decreases s.len(),
{
    if is_space(s.first()) {
        assert((s + after).first() == s[0]);
        assert((s + after).drop_first() == s.drop_first() + after);
        let i = choose|i: int| 0 <= i < s.len() && !is_space(#[trigger] s[i]);
        assert(!is_space(s.drop_first()[i - 1]));
        lemma_trim_start_keeps(s.drop_first(), after);
    } else {
        assert((s + after).first() == s[0]);
    }
}

} // verus!
