//! Texts cut into lines and into pieces.
use crate::text::{chars_of, string_of};
use crate::text::search::{find_char, first_index, lemma_first_index};
use vstd::prelude::*;

verus! {

/// The views of the strings of `v`.
pub open spec fn strings_view(v: Seq<String>) -> Seq<Seq<char>> {
    v.map_values(|s: String| s@)
}

/// `l` without a carriage return at its end.
pub open spec fn strip_cr(l: Seq<char>) -> Seq<char> {
    if l.len() > 0 && l.last() == '\r' {
        l.drop_last()
    } else {
        l
    }
}

/// The lines of `s`, as `str::lines` of std gives them: a line ends at a
/// newline, which is dropped together with a carriage return before it; what
/// follows the last newline is a line unless it is empty.
pub open spec fn lines_of(s: Seq<char>) -> Seq<Seq<char>>
    decreases s.len(),
{
    if s.len() == 0 {
        Seq::empty()
    } else {
        let i = first_index(s, '\n');
        if i < 0 || i >= s.len() {
            seq![s]
        } else {
            seq![strip_cr(s.subrange(0, i))] + lines_of(s.skip(i + 1))
        }
    }
}

/// The lines of `s`.
pub fn lines(s: &str) -> (r: Vec<String>)
    ensures
        strings_view(r@) == lines_of(s@),
{
    let v = chars_of(s);
    let mut r: Vec<String> = Vec::new();
    let mut pos: usize = 0;
    assert(v@.skip(0) =~= v@);
    assert(strings_view(r@) + lines_of(v@.skip(0)) =~= lines_of(v@));
    while pos < v.len()
        invariant
            0 <= pos <= v.len(),
            v@ == s@,
            lines_of(v@) == strings_view(r@) + lines_of(v@.skip(pos as int)),
        decreases v.len() - pos,
    {
        let ghost rest = v@.skip(pos as int);
        let ghost done = strings_view(r@);
        assert(rest =~= v@.subrange(pos as int, v.len() as int));
        let end = find_char(&v, pos, v.len(), '\n');
        proof {
            lemma_first_index(rest, '\n');
        }
        if end >= v.len() {
            let line = string_of(&v, pos, v.len());
            r.push(line);
            assert(strings_view(r@) =~= done.push(rest));
            assert(lines_of(v@.skip(v.len() as int)) =~= Seq::<Seq<char>>::empty());
            assert(done + seq![rest] =~= done.push(rest) + Seq::<Seq<char>>::empty());
            pos = v.len();
        } else {
            let stop = if end > pos && v[end - 1] == '\r' {
                end - 1
            } else {
                end
            };
            let line = string_of(&v, pos, stop);
            let ghost cut = rest.subrange(0, end - pos);
            assert(cut =~= v@.subrange(pos as int, end as int));
            assert(line@ =~= strip_cr(cut));
            r.push(line);
            assert(strings_view(r@) =~= done.push(strip_cr(cut)));
            assert(rest.skip(end - pos + 1) =~= v@.skip(end + 1));
            assert(done + (seq![strip_cr(cut)] + lines_of(v@.skip(end + 1))) =~= done.push(
                strip_cr(cut),
            ) + lines_of(v@.skip(end + 1)));
            pos = end + 1;
        }
    }
    assert(lines_of(v@.skip(pos as int)) =~= Seq::<Seq<char>>::empty());
    assert(strings_view(r@) + Seq::<Seq<char>>::empty() =~= strings_view(r@));
    r
}

/// The pieces of `s` between the occurrences of `c`, as `str::split` of
/// std gives them: one more than there are occurrences.
pub open spec fn split_on(s: Seq<char>, c: char) -> Seq<Seq<char>>
    decreases s.len(),
{
    let i = first_index(s, c);
    if i < 0 || i >= s.len() {
        seq![s]
    } else {
        seq![s.subrange(0, i)] + split_on(s.skip(i + 1), c)
    }
}

/// A text has at least one piece.
pub proof fn lemma_split_not_empty(s: Seq<char>, c: char)
    ensures
        split_on(s, c).len() >= 1,
    decreases s.len(),
{
    let i = first_index(s, c);
    if i < 0 || i >= s.len() {
    } else {
        lemma_split_not_empty(s.skip(i + 1), c);
    }
}

/// The pieces of `s` between the occurrences of `c`.
pub fn split(s: &str, c: char) -> (r: Vec<String>)
    ensures
        strings_view(r@) == split_on(s@, c),
{
    let v = chars_of(s);
    let mut r: Vec<String> = Vec::new();
    let mut pos: usize = 0;
    assert(v@.skip(0) =~= v@);
    assert(strings_view(r@) + split_on(v@.skip(0), c) =~= split_on(v@, c));
    loop
        invariant_except_break
            0 <= pos <= v.len(),
            v@ == s@,
            split_on(v@, c) == strings_view(r@) + split_on(v@.skip(pos as int), c),
        ensures
            strings_view(r@) == split_on(s@, c),
        decreases v.len() - pos,
    {
        let ghost rest = v@.skip(pos as int);
        let ghost done = strings_view(r@);
        assert(rest =~= v@.subrange(pos as int, v.len() as int));
        let end = find_char(&v, pos, v.len(), c);
        proof {
            lemma_first_index(rest, c);
        }
        let piece = string_of(&v, pos, end);
        r.push(piece);
        if end >= v.len() {
            assert(strings_view(r@) =~= done.push(rest));
            assert(done + seq![rest] =~= done.push(rest));
            break ;
        }
        let ghost cut = rest.subrange(0, end - pos);
        assert(cut =~= v@.subrange(pos as int, end as int));
        assert(strings_view(r@) =~= done.push(cut));
        assert(rest.skip(end - pos + 1) =~= v@.skip(end + 1));
        assert(done + (seq![cut] + split_on(v@.skip(end + 1), c)) =~= done.push(cut) + split_on(
            v@.skip(end + 1),
            c,
        ));
        pos = end + 1;
    }
    r
}

} // verus!
