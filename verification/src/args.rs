//! What the command line can say beyond paths and numbers.
use crate::assoc::{get, get_pair, pairs_view, put, put_pair};
use crate::text::{chars_of, find_char, first_index, split, split_on, string_of, strings_view};
use vstd::prelude::*;

verus! {

/// How the solvers write their solutions.
#[derive(Debug, Clone, Copy, PartialEq, Eq, Structural)]
pub enum OutputMode {
    Dzn,
}

impl OutputMode {
    /// The name of the mode on a command line.
    pub fn as_str(&self) -> (s: &'static str)
        ensures
            s@ == "dzn"@,
    {
        "dzn"
    }
}

/// How much is reported, from nothing to everything.
#[derive(Debug, Clone, Copy, PartialEq, Eq, PartialOrd, Ord, Structural)]
pub enum DebugVerbosityLevel {
    Quiet,
    Error,
    Warning,
    Info,
}

/// The place of `level` in the order.
pub open spec fn level_of(level: DebugVerbosityLevel) -> u8 {
    match level {
        DebugVerbosityLevel::Quiet => 0,
        DebugVerbosityLevel::Error => 1,
        DebugVerbosityLevel::Warning => 2,
        DebugVerbosityLevel::Info => 3,
    }
}

impl DebugVerbosityLevel {
    /// The place of this level in the order.
    pub fn level(&self) -> (n: u8)
        ensures
            n == level_of(*self),
    {
        match self {
            DebugVerbosityLevel::Quiet => 0,
            DebugVerbosityLevel::Error => 1,
            DebugVerbosityLevel::Warning => 2,
            DebugVerbosityLevel::Info => 3,
        }
    }

    /// Whether a message of the level `message` is reported at this level.
    pub fn reports(&self, message: DebugVerbosityLevel) -> (b: bool)
        ensures
            b == (level_of(*self) >= level_of(message)),
    {
        self.level() >= message.level()
    }
}

/// Which advisor proposes the portfolios.
#[derive(Debug, Clone, Copy, PartialEq, Eq, Structural)]
pub enum Ai {
    Simple,
    CommandLine,
}

/// A part of the advisor's configuration that is no `<key>=<value>`.
#[derive(Debug, Clone, PartialEq, Eq)]
pub struct AiConfigError {
    pub key_value: String,
}

/// The key and the value of `pair`: what stands before and after its first `=`.
pub open spec fn key_value_of(pair: Seq<char>) -> Option<(Seq<char>, Seq<char>)> {
    let i = first_index(pair, '=');
    if 0 <= i < pair.len() {
        Some((pair.subrange(0, i), pair.skip(i + 1)))
    } else {
        None
    }
}

/// The configuration that `pairs` write, a later value for a key in the
/// place of an earlier one, or the first part that is no pair.
pub open spec fn config_of(pairs: Seq<Seq<char>>) -> Result<Seq<(Seq<char>, Seq<char>)>, Seq<char>>
    decreases pairs.len(),
{
    if pairs.len() == 0 {
        Ok(Seq::empty())
    } else {
        match config_of(pairs.drop_last()) {
            Err(e) => Err(e),
            Ok(before) => match key_value_of(pairs.last()) {
                Some((key, value)) => Ok(put(before, key, value)),
                None => Err(pairs.last()),
            },
        }
    }
}

proof fn lemma_config_error_stays(pairs: Seq<Seq<char>>, k: int)
    requires
        0 <= k <= pairs.len(),
        config_of(pairs.take(k)) is Err,
    ensures
        config_of(pairs) == config_of(pairs.take(k)),
    decreases pairs.len() - k,
{
    if k < pairs.len() {
        assert(pairs.take(k + 1).drop_last() =~= pairs.take(k));
        lemma_config_error_stays(pairs, k + 1);
    } else {
        assert(pairs.take(k) =~= pairs);
    }
}

/// Reads the advisor's configuration, `<key1>=<value1>,<key2>=<value2>,...`.
/// No text reads as the empty text, which is one part and no pair.
pub fn parse_ai_config(config: Option<&str>) -> (r: Result<Vec<(String, String)>, AiConfigError>)
    ensures
        match config_of(
            split_on(
                match config {
                    Some(text) => text@,
                    None => Seq::empty(),
                },
                ',',
            ),
        ) {
            Ok(c) => r matches Ok(x) && pairs_view(x@) == c,
            Err(e) => r matches Err(x) && x.key_value@ == e,
        },
{
    let text = match config {
        Some(text) => text,
        None => "",
    };
    proof {
        reveal_strlit("");
        assert(""@ =~= Seq::<char>::empty());
    }
    let parts = split(text, ',');
    let ghost pv = strings_view(parts@);
    let ghost whole = split_on(
        match config {
            Some(text) => text@,
            None => Seq::empty(),
        },
        ',',
    );
    let mut out: Vec<(String, String)> = Vec::new();
    let mut k: usize = 0;
    assert(pairs_view(out@) =~= Seq::<(Seq<char>, Seq<char>)>::empty());
    while k < parts.len()
        invariant
            0 <= k <= parts.len(),
            pv == strings_view(parts@),
            pv == whole,
            whole == split_on(
                match config {
                    Some(text) => text@,
                    None => Seq::empty(),
                },
                ',',
            ),
            config_of(pv.take(k as int)) == Ok::<Seq<(Seq<char>, Seq<char>)>, Seq<char>>(
                pairs_view(out@),
            ),
        decreases parts.len() - k,
    {
        assert(pv.take(k + 1).drop_last() =~= pv.take(k as int));
        assert(pv[k as int] == parts@[k as int]@);
        let v = chars_of(parts[k].as_str());
        assert(v@.subrange(0, v.len() as int) =~= v@);
        let at = find_char(&v, 0, v.len(), '=');
        if at >= v.len() {
            proof {
                assert(key_value_of(pv[k as int]).is_none());
                assert(pv.take(k + 1).last() == pv[k as int]);
                lemma_config_error_stays(pv, k + 1);
            }
            return Err(AiConfigError { key_value: parts[k].clone() });
        }
        let key = string_of(&v, 0, at);
        let value = string_of(&v, at + 1, v.len());
        assert(value@ =~= v@.skip(at + 1));
        put_pair(&mut out, key, value);
        k += 1;
    }
    assert(pv.take(k as int) =~= pv);
    Ok(out)
}

/// What the configuration holds under `key`.
pub fn config_value<'a>(config: &'a Vec<(String, String)>, key: &str) -> (r: Option<&'a String>)
    ensures
        match r {
            Some(v) => get(pairs_view(config@), key@) == Some(v@),
            None => get(pairs_view(config@), key@).is_none(),
        },
{
    get_pair(config, key)
}

} // verus!
