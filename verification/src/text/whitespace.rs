//! White space: what it is, and texts without it at their ends.
use crate::text::{chars_of, string_of};
use vstd::prelude::*;

verus! {

/// The Unicode property White_Space, which `str::trim` of std strips.
pub open spec fn is_whitespace(c: char) -> bool {
    let n = c as u32;
    ||| 0x09 <= n <= 0x0d
    ||| n == 0x20
    ||| n == 0x85
    ||| n == 0xa0
    ||| n == 0x1680
    ||| 0x2000 <= n <= 0x200a
    ||| n == 0x2028
    ||| n == 0x2029
    ||| n == 0x202f
    ||| n == 0x205f
    ||| n == 0x3000
}

/// Whether `c` is white space.
pub fn char_is_whitespace(c: char) -> (b: bool)
    ensures
        b == is_whitespace(c),
{
    let n: u32 = c as u32;
    (0x09 <= n && n <= 0x0d) || n == 0x20 || n == 0x85 || n == 0xa0 || n == 0x1680 || (0x2000 <= n
        && n <= 0x200a) || n == 0x2028 || n == 0x2029 || n == 0x202f || n == 0x205f || n == 0x3000
}

/// Where the trimmed part of `s` starts: the index of the first character
/// that is no white space, or the length.
pub open spec fn trim_start_index(s: Seq<char>) -> int
    decreases s.len(),
{
    if s.len() == 0 || !is_whitespace(s[0]) {
        0
    } else {
        1 + trim_start_index(s.skip(1))
    }
}

/// Where the trimmed part of `s` ends, counted from `lo`: one past the last
/// character at or after `lo` that is no white space, or `lo`.
pub open spec fn trim_end_index(s: Seq<char>, lo: int) -> int
    decreases s.len(),
{
    if s.len() <= lo || s.len() == 0 || !is_whitespace(s.last()) {
        s.len() as int
    } else {
        trim_end_index(s.drop_last(), lo)
    }
}

/// `s` without the white space at both ends.
pub open spec fn trimmed(s: Seq<char>) -> Seq<char> {
    let lo = trim_start_index(s);
    s.subrange(lo, trim_end_index(s, lo))
}

/// Before the start of the trimmed part there is only white space, and
/// none at it.
pub proof fn lemma_trim_start_index(s: Seq<char>)
    ensures
        0 <= trim_start_index(s) <= s.len(),
        forall|i: int| 0 <= i < trim_start_index(s) ==> is_whitespace(#[trigger] s[i]),
        trim_start_index(s) < s.len() ==> !is_whitespace(s[trim_start_index(s)]),
    decreases s.len(),
{
    if s.len() == 0 || !is_whitespace(s[0]) {
    } else {
        lemma_trim_start_index(s.skip(1));
        assert forall|i: int| 0 <= i < trim_start_index(s) implies is_whitespace(#[trigger] s[i]) by {
            if i > 0 {
                assert(s[i] == s.skip(1)[i - 1]);
            }
        }
    }
}

/// From the end of the trimmed part on there is only white space, and
/// none right before it.
pub proof fn lemma_trim_end_index(s: Seq<char>, lo: int)
    requires
        0 <= lo <= s.len(),
    ensures
        lo <= trim_end_index(s, lo) <= s.len(),
        forall|i: int| trim_end_index(s, lo) <= i < s.len() ==> is_whitespace(#[trigger] s[i]),
        lo < trim_end_index(s, lo) ==> !is_whitespace(s[trim_end_index(s, lo) - 1]),
    decreases s.len(),
{
    if s.len() <= lo || s.len() == 0 || !is_whitespace(s.last()) {
    } else {
        lemma_trim_end_index(s.drop_last(), lo);
        assert forall|i: int| trim_end_index(s, lo) <= i < s.len() implies is_whitespace(
            #[trigger] s[i],
        ) by {
            if i < s.len() - 1 {
                assert(s[i] == s.drop_last()[i]);
            }
        }
    }
}

/// The first index `i` with white space before it and none at it, by search.
pub proof fn lemma_trim_start_unique(s: Seq<char>, i: int)
    requires
        0 <= i <= s.len(),
        forall|k: int| 0 <= k < i ==> is_whitespace(#[trigger] s[k]),
        i < s.len() ==> !is_whitespace(s[i]),
    ensures
        trim_start_index(s) == i,
{
    lemma_trim_start_index(s);
    let t = trim_start_index(s);
    if t < i {
        assert(is_whitespace(s[t]));
    } else if t > i {
        assert(is_whitespace(s[i]));
    }
}

/// The end of the trimmed part, by search from the end.
pub proof fn lemma_trim_end_unique(s: Seq<char>, lo: int, j: int)
    requires
        0 <= lo <= j <= s.len(),
        forall|k: int| j <= k < s.len() ==> is_whitespace(#[trigger] s[k]),
        lo < j ==> !is_whitespace(s[j - 1]),
    ensures
        trim_end_index(s, lo) == j,
{
    lemma_trim_end_index(s, lo);
    let t = trim_end_index(s, lo);
    if t < j {
        assert(is_whitespace(s[j - 1]));
    } else if t > j {
        assert(is_whitespace(s[t - 1]));
    }
}

/// The bounds of the trimmed part of `v[from..to]`, as indices into `v`.
pub fn trim_range(v: &Vec<char>, from: usize, to: usize) -> (r: (usize, usize))
    requires
        from <= to <= v.len(),
    ensures
        from <= r.0 <= r.1 <= to,
        v@.subrange(r.0 as int, r.1 as int) == trimmed(v@.subrange(from as int, to as int)),
{
    let ghost s = v@.subrange(from as int, to as int);
    let mut lo: usize = from;
    while lo < to && char_is_whitespace(v[lo])
        invariant
            from <= lo <= to <= v.len(),
            s == v@.subrange(from as int, to as int),
            forall|k: int| 0 <= k < lo - from ==> is_whitespace(#[trigger] s[k]),
        decreases to - lo,
    {
        lo += 1;
    }
    let mut hi: usize = to;
    while lo < hi && char_is_whitespace(v[hi - 1])
        invariant
            from <= lo <= hi <= to <= v.len(),
            s == v@.subrange(from as int, to as int),
            forall|k: int| hi - from <= k < s.len() ==> is_whitespace(#[trigger] s[k]),
        decreases hi - lo,
    {
        hi -= 1;
    }
    proof {
        lemma_trim_start_unique(s, lo - from);
        lemma_trim_end_unique(s, lo - from, hi - from);
        assert(v@.subrange(lo as int, hi as int) =~= s.subrange(lo - from, hi - from));
    }
    (lo, hi)
}

/// `s` without the white space at its end.
pub open spec fn trimmed_end(s: Seq<char>) -> Seq<char> {
    s.subrange(0, trim_end_index(s, 0))
}

/// `s` without the white space at its end.
pub fn trim_end(s: &str) -> (r: String)
    ensures
        r@ == trimmed_end(s@),
{
    let v = chars_of(s);
    let mut hi: usize = v.len();
    while 0 < hi && char_is_whitespace(v[hi - 1])
        invariant
            0 <= hi <= v.len(),
            forall|k: int| hi <= k < v.len() ==> is_whitespace(#[trigger] v@[k]),
        decreases hi,
    {
        hi -= 1;
    }
    proof {
        lemma_trim_end_unique(v@, 0, hi as int);
    }
    string_of(&v, 0, hi)
}

/// `s` without the white space at both ends.
pub fn trim(s: &str) -> (r: String)
    ensures
        r@ == trimmed(s@),
{
    let v = chars_of(s);
    assert(v@.subrange(0, v.len() as int) =~= v@);
    let (lo, hi) = trim_range(&v, 0, v.len());
    string_of(&v, lo, hi)
}

/// The index of the first white space in `s`, or the length of `s`.
pub open spec fn first_space(s: Seq<char>) -> int
    decreases s.len(),
{
    if s.len() == 0 || is_whitespace(s[0]) {
        0
    } else {
        1 + first_space(s.skip(1))
    }
}

/// The first white space, by search.
pub proof fn lemma_first_space_unique(s: Seq<char>, i: int)
    requires
        0 <= i <= s.len(),
        forall|k: int| 0 <= k < i ==> !is_whitespace(#[trigger] s[k]),
        i < s.len() ==> is_whitespace(s[i]),
    ensures
        first_space(s) == i,
    decreases s.len(),
{
    if s.len() == 0 || is_whitespace(s[0]) {
        if i > 0 {
            assert(!is_whitespace(s[0]));
        }
    } else {
        assert forall|k: int| 0 <= k < i - 1 implies !is_whitespace(#[trigger] s.skip(1)[k]) by {
            assert(s.skip(1)[k] == s[k + 1]);
        }
        lemma_first_space_unique(s.skip(1), i - 1);
    }
}

/// The index in `v` of the first white space in `v[from..to]`, or `to`.
pub fn find_space(v: &Vec<char>, from: usize, to: usize) -> (r: usize)
    requires
        from <= to <= v.len(),
    ensures
        from <= r <= to,
        r - from == first_space(v@.subrange(from as int, to as int)),
{
    let ghost s = v@.subrange(from as int, to as int);
    let mut i: usize = from;
    while i < to && !char_is_whitespace(v[i])
        invariant
            from <= i <= to <= v.len(),
            s == v@.subrange(from as int, to as int),
            forall|k: int| 0 <= k < i - from ==> !is_whitespace(#[trigger] s[k]),
        decreases to - i,
    {
        i += 1;
    }
    proof {
        lemma_first_space_unique(s, i - from);
    }
    i
}

/// One past the index of the last white space in `s`, or 0.
pub open spec fn after_last_space(s: Seq<char>) -> int
    decreases s.len(),
{
    if s.len() == 0 {
        0
    } else if is_whitespace(s.last()) {
        s.len() as int
    } else {
        after_last_space(s.drop_last())
    }
}

/// One past the index in `v` of the last white space in `v[from..to]`, or
/// `from`.
pub fn find_after_last_space(v: &Vec<char>, from: usize, to: usize) -> (r: usize)
    requires
        from <= to <= v.len(),
    ensures
        from <= r <= to,
        r - from == after_last_space(v@.subrange(from as int, to as int)),
{
    let mut hi: usize = to;
    while hi > from && !char_is_whitespace(v[hi - 1])
        invariant
            from <= hi <= to <= v.len(),
            after_last_space(v@.subrange(from as int, to as int)) == after_last_space(
                v@.subrange(from as int, hi as int),
            ),
        decreases hi,
    {
        assert(v@.subrange(from as int, hi as int).drop_last() =~= v@.subrange(
            from as int,
            hi - 1,
        ));
        hi -= 1;
    }
    hi
}

} // verus!
