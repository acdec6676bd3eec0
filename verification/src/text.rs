//! Strings as sequences of characters: conversion, slicing, trimming and
//! decimal numbers.
pub mod lines;
pub mod numbers;
pub mod search;
pub mod whitespace;

pub use crate::text::lines::{
    lemma_split_not_empty, lines, lines_of, split, split_on, strings_view, strip_cr,
};
pub use crate::text::numbers::{
    decimal, digit_char, digits_value, is_digit, is_digits, parse_i64, parse_signed, parse_u64,
    parse_unsigned, parse_usize, push_decimal, push_signed_decimal, read_digits, read_i64, read_u64,
    read_usize, signed_decimal, usize_to_string,
};
pub use crate::text::search::{
    after_last, find_after_last, find_char, first_index, has_prefix, lemma_first_index,
    lemma_first_index_unique, range_eq_str, range_starts_with, str_eq,
};
pub use crate::text::whitespace::{
    after_last_space, char_is_whitespace, find_after_last_space, find_space, first_space,
    is_whitespace, lemma_first_space_unique, lemma_trim_end_index, lemma_trim_end_unique,
    lemma_trim_start_index, lemma_trim_start_unique, trim, trim_end, trim_end_index, trim_range,
    trim_start_index, trimmed, trimmed_end,
};
use vstd::prelude::*;

verus! {

/// `String::push` of std: the character is appended to the string.
#[verifier::external_body]
pub(crate) fn push_char(s: &mut String, c: char)
    ensures
        final(s)@ == old(s)@.push(c),
{
    s.push(c)
}

/// The characters of `s`, in order.
pub fn chars_of(s: &str) -> (v: Vec<char>)
    ensures
        v@ == s@,
{
    let mut v: Vec<char> = Vec::new();
    for c in it: s.chars()
        invariant
            v@ == it.seq().take(it.index() as int),
            it.seq() == s@,
    {
        v.push(c);
        assert(it.seq().take(it.index() + 1) =~= it.seq().take(it.index() as int).push(c));
    }
    assert(v@ =~= s@);
    v
}

/// The string made of `v[from..to]`.
pub fn string_of(v: &Vec<char>, from: usize, to: usize) -> (s: String)
    requires
        from <= to <= v.len(),
    ensures
        s@ == v@.subrange(from as int, to as int),
{
    let mut s = String::new();
    let mut i: usize = from;
    while i < to
        invariant
            from <= i <= to <= v.len(),
            s@ == v@.subrange(from as int, i as int),
        decreases to - i,
    {
        push_char(&mut s, v[i]);
        assert(v@.subrange(from as int, i + 1) =~= v@.subrange(from as int, i as int).push(v@[i as int]));
        i += 1;
    }
    s
}

/// What `str::to_lowercase` of std makes of a text.
pub uninterp spec fn lowercase(s: Seq<char>) -> Seq<char>;

/// `str::to_lowercase` of std: the text in lower case, as Unicode has it.
#[verifier::external_body]
pub(crate) fn to_lowercase(s: &str) -> (r: String)
    ensures
        r@ == lowercase(s@),
{
    s.to_lowercase()
}

/// `str::from_utf8` of std: the text that the bytes encode, where they are
/// well-formed UTF-8, and nothing where they are not.
#[verifier::external_body]
pub(crate) fn str_from_utf8(bytes: &[u8]) -> (r: Option<&str>)
    ensures
        match r {
            Some(s) => vstd::utf8::valid_utf8(bytes@) && s@ == vstd::utf8::decode_utf8(bytes@),
            None => !vstd::utf8::valid_utf8(bytes@),
        },
{
    std::str::from_utf8(bytes).ok()
}

} // verus!
