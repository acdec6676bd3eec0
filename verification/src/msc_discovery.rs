//! What the flattener and the solver configuration files say of the
//! solvers: where the files are searched, which names a solver goes by,
//! and what a file states.
use crate::assoc::{pairs_view, put, put_pair};
use crate::text::{
    after_last, chars_of, find_after_last, find_char, find_space, first_index, first_space, lines,
    lines_of, lowercase, range_eq_str, split, split_on, string_of, strings_view, to_lowercase, trim,
    trim_range, trimmed,
};
use vstd::prelude::*;
use vstd::string::StringExecFns;

verus! {

/// What a solver reads and how it is called.
#[derive(Debug, Clone, PartialEq, Eq)]
pub struct SolverMetadata {
    pub input_type: String,
    pub executable: Option<String>,
}

/// The model of [`SolverMetadata`].
pub struct SolverMetadataView {
    pub input_type: Seq<char>,
    pub executable: Option<Seq<char>>,
}

impl View for SolverMetadata {
    type V = SolverMetadataView;

    open spec fn view(&self) -> SolverMetadataView {
        SolverMetadataView {
            input_type: self.input_type@,
            executable: match self.executable {
                Some(e) => Some(e@),
                None => None,
            },
        }
    }
}

/// Why nothing could be made of what was read.
#[derive(Debug, Clone, PartialEq, Eq)]
pub enum MscDiscoveryError {
    ParseError(String),
}

impl View for MscDiscoveryError {
    type V = Seq<char>;

    open spec fn view(&self) -> Seq<char> {
        match self {
            MscDiscoveryError::ParseError(s) => s@,
        }
    }
}

pub const SEARCH_PATH_HEADER: &'static str = "Search path for solver configurations:";

pub const SOLVERS_HEADER: &'static str = "Available solver configurations:";

/// How far a scan of the flattener's list is.
#[derive(Debug, Clone, Copy, PartialEq, Eq, Structural)]
pub enum Scan {
    /// The header has not come.
    Before,
    /// The lines under the header are being read.
    Inside,
    /// The part under the header is over.
    Done,
}

/// The scan for search paths after `line`: every line under the header
/// that holds a `/` is a path; an empty line ends the part, and so does a
/// line without `/` once there is a path.
pub open spec fn path_step(state: (Scan, Seq<Seq<char>>), line: Seq<char>) -> (
    Scan,
    Seq<Seq<char>>,
) {
    let t = trimmed(line);
    if state.0 == Scan::Done {
        state
    } else if t == SEARCH_PATH_HEADER@ {
        (Scan::Inside, state.1)
    } else if state.0 == Scan::Before {
        state
    } else if t.len() == 0 {
        (Scan::Done, state.1)
    } else if t.contains('/') {
        (Scan::Inside, state.1.push(t))
    } else if state.1.len() > 0 {
        (Scan::Done, state.1)
    } else {
        state
    }
}

/// The scan for search paths after `lines`.
pub open spec fn path_scan(lines: Seq<Seq<char>>) -> (Scan, Seq<Seq<char>>)
    decreases lines.len(),
{
    if lines.len() == 0 {
        (Scan::Before, Seq::empty())
    } else {
        path_step(path_scan(lines.drop_last()), lines.last())
    }
}

/// The search paths that the flattener lists in `output`.
pub open spec fn search_paths_of(output: Seq<char>) -> Result<Seq<Seq<char>>, Seq<char>> {
    let r = path_scan(lines_of(output));
    if r.0 == Scan::Before {
        Err("Could not find 'Search path for solver configurations:' in output"@)
    } else {
        Ok(r.1)
    }
}

/// Whether `v[from..to]` holds `c`.
fn range_contains(v: &Vec<char>, from: usize, to: usize, c: char) -> (b: bool)
    requires
        from <= to <= v.len(),
    ensures
        b == v@.subrange(from as int, to as int).contains(c),
{
    let at = find_char(v, from, to, c);
    proof {
        let s = v@.subrange(from as int, to as int);
        crate::text::lemma_first_index(s, c);
        if at < to {
            assert(s[at - from] == c);
        }
    }
    at < to
}

/// The directories in which the flattener looks for solver configuration
/// files, as its list of solvers names them.
pub fn parse_search_paths(output: &str) -> (r: Result<Vec<String>, MscDiscoveryError>)
    ensures
        match search_paths_of(output@) {
            Ok(paths) => r matches Ok(p) && strings_view(p@) == paths,
            Err(e) => r matches Err(x) && x@ == e,
        },
{
    let all = lines(output);
    let ghost lv = strings_view(all@);
    let mut state = Scan::Before;
    let mut paths: Vec<String> = Vec::new();
    let mut k: usize = 0;
    assert(strings_view(paths@) =~= Seq::<Seq<char>>::empty());
    while k < all.len()
        invariant
            0 <= k <= all.len(),
            lv == strings_view(all@),
            (state, strings_view(paths@)) == path_scan(lv.take(k as int)),
        decreases all.len() - k,
    {
        assert(lv.take(k + 1).drop_last() =~= lv.take(k as int));
        assert(lv[k as int] == all@[k as int]@);
        let v = chars_of(all[k].as_str());
        assert(v@.subrange(0, v.len() as int) =~= v@);
        let (lo, hi) = trim_range(&v, 0, v.len());
        let ghost before = strings_view(paths@);
        match state {
            Scan::Done => {},
            _ => {
                if range_eq_str(&v, lo, hi, SEARCH_PATH_HEADER) {
                    state = Scan::Inside;
                } else {
                    match state {
                        Scan::Before => {},
                        _ => {
                            if lo == hi {
                                state = Scan::Done;
                            } else if range_contains(&v, lo, hi, '/') {
                                paths.push(string_of(&v, lo, hi));
                                assert(strings_view(paths@) =~= before.push(trimmed(v@)));
                            } else if paths.len() > 0 {
                                state = Scan::Done;
                            }
                        },
                    }
                }
            },
        }
        k += 1;
    }
    assert(lv.take(k as int) =~= lv);
    match state {
        Scan::Before => Err(
            MscDiscoveryError::ParseError(
                String::from_str(
                    "Could not find 'Search path for solver configurations:' in output",
                ),
            ),
        ),
        _ => Ok(paths),
    }
}

/// The names that the parts after the first give to the solver `id`: each
/// part that is not empty, in lower case.
pub open spec fn aliases_of(parts: Seq<Seq<char>>, id: Seq<char>) -> Seq<(Seq<char>, Seq<char>)>
    decreases parts.len(),
{
    if parts.len() <= 1 {
        Seq::empty()
    } else if trimmed(parts.last()).len() > 0 {
        aliases_of(parts.drop_last(), id).push((lowercase(trimmed(parts.last())), id))
    } else {
        aliases_of(parts.drop_last(), id)
    }
}

/// The names that one line of the flattener's list gives to a solver. The
/// line reads `Name version (id, tag, ...)`: the identifier stands for
/// itself, and so do, in lower case, the first word of the line and every
/// tag. A line without both brackets gives no name.
pub open spec fn names_of_line(t: Seq<char>) -> Seq<(Seq<char>, Seq<char>)> {
    let open = first_index(t, '(');
    if open < 0 || open >= t.len() {
        Seq::empty()
    } else {
        let before = trimmed(t.subrange(0, open));
        let display = lowercase(before.subrange(0, first_space(before)));
        let after = t.skip(open + 1);
        let close = first_index(after, ')');
        if close < 0 || close >= after.len() {
            Seq::empty()
        } else {
            let parts = split_on(after.subrange(0, close), ',');
            let id = trimmed(parts[0]);
            seq![(id, id)] + (if display.len() > 0 {
                seq![(display, id)]
            } else {
                Seq::empty()
            }) + aliases_of(parts, id)
        }
    }
}

/// `map` with each of `entries` put into it, in order.
pub open spec fn put_all(map: Seq<(Seq<char>, Seq<char>)>, entries: Seq<(Seq<char>, Seq<char>)>)
    -> Seq<(Seq<char>, Seq<char>)>
    decreases entries.len(),
{
    if entries.len() == 0 {
        map
    } else {
        put(put_all(map, entries.drop_last()), entries.last().0, entries.last().1)
    }
}

/// The scan for solver names after `line`: the lines between the two
/// headers that are not empty give names.
pub open spec fn name_step(state: (Scan, Seq<(Seq<char>, Seq<char>)>), line: Seq<char>) -> (
    Scan,
    Seq<(Seq<char>, Seq<char>)>,
) {
    let t = trimmed(line);
    if state.0 == Scan::Done {
        state
    } else if t == SOLVERS_HEADER@ {
        (Scan::Inside, state.1)
    } else if state.0 == Scan::Before {
        state
    } else if t == SEARCH_PATH_HEADER@ {
        (Scan::Done, state.1)
    } else if t.len() == 0 {
        state
    } else {
        (Scan::Inside, put_all(state.1, names_of_line(t)))
    }
}

/// The scan for solver names after `lines`.
pub open spec fn name_scan(lines: Seq<Seq<char>>) -> (Scan, Seq<(Seq<char>, Seq<char>)>)
    decreases lines.len(),
{
    if lines.len() == 0 {
        (Scan::Before, Seq::empty())
    } else {
        name_step(name_scan(lines.drop_last()), lines.last())
    }
}

/// The names that the trimmed line `v[lo..hi]` gives to a solver.
fn line_names(v: &Vec<char>, lo: usize, hi: usize) -> (r: Vec<(String, String)>)
    requires
        lo <= hi <= v.len(),
    ensures
        pairs_view(r@) == names_of_line(v@.subrange(lo as int, hi as int)),
{
    let ghost t = v@.subrange(lo as int, hi as int);
    let mut r: Vec<(String, String)> = Vec::new();
    assert(pairs_view(r@) =~= Seq::<(Seq<char>, Seq<char>)>::empty());
    let open = find_char(v, lo, hi, '(');
    if open >= hi {
        return r;
    }
    let (a, b) = trim_range(v, lo, open);
    assert(v@.subrange(lo as int, open as int) =~= t.subrange(0, open - lo));
    let ghost before = trimmed(t.subrange(0, open - lo));
    let word_end = find_space(v, a, b);
    let word = string_of(v, a, word_end);
    assert(word@ =~= before.subrange(0, first_space(before)));
    let display = to_lowercase(word.as_str());
    assert(v@.subrange(open + 1, hi as int) =~= t.skip(open - lo + 1));
    let ghost after = t.skip(open - lo + 1);
    let close = find_char(v, open + 1, hi, ')');
    if close >= hi {
        return r;
    }
    let content = string_of(v, open + 1, close);
    assert(content@ =~= after.subrange(0, close - open - 1));
    let parts = split(content.as_str(), ',');
    let ghost pv = strings_view(parts@);
    proof {
        crate::text::lemma_split_not_empty(content@, ',');
    }
    let id = trim(parts[0].as_str());
    assert(id@ == trimmed(pv[0]));
    r.push((id.clone(), id.clone()));
    if display.as_str().unicode_len() > 0 {
        r.push((display, id.clone()));
    }
    let ghost head = pairs_view(r@);
    assert(head =~= seq![(id@, id@)] + (if lowercase(before.subrange(0, first_space(before))).len()
        > 0 {
        seq![(lowercase(before.subrange(0, first_space(before))), id@)]
    } else {
        Seq::empty()
    }));
    let mut k: usize = 1;
    assert(aliases_of(pv.take(1), id@) =~= Seq::<(Seq<char>, Seq<char>)>::empty());
    assert(pairs_view(r@) =~= head + aliases_of(pv.take(1), id@));
    while k < parts.len()
        invariant
            1 <= k <= parts.len(),
            pv == strings_view(parts@),
            pairs_view(r@) == head + aliases_of(pv.take(k as int), id@),
        decreases parts.len() - k,
    {
        assert(pv.take(k + 1).drop_last() =~= pv.take(k as int));
        assert(pv.take(k + 1).last() == parts@[k as int]@);
        let part = trim(parts[k].as_str());
        if part.as_str().unicode_len() > 0 {
            let ghost so_far = pairs_view(r@);
            let lowered = to_lowercase(part.as_str());
            r.push((lowered, id.clone()));
            assert(pairs_view(r@) =~= so_far.push((lowercase(part@), id@)));
            assert(head + aliases_of(pv.take(k as int), id@).push((lowercase(part@), id@))
                =~= so_far.push((lowercase(part@), id@)));
        }
        k += 1;
    }
    assert(pv.take(k as int) =~= pv);
    r
}

/// The solver that each name stands for, as the flattener's list of
/// solvers gives them: from the identifier, the first word and the tags of
/// a solver to its identifier.
pub fn parse_solver_names_to_ids(output: &str) -> (r: Result<
    Vec<(String, String)>,
    MscDiscoveryError,
>)
    ensures
        r matches Ok(map) && pairs_view(map@) == name_scan(lines_of(output@)).1,
{
    let all = lines(output);
    let ghost lv = strings_view(all@);
    let mut state = Scan::Before;
    let mut map: Vec<(String, String)> = Vec::new();
    let mut k: usize = 0;
    assert(pairs_view(map@) =~= Seq::<(Seq<char>, Seq<char>)>::empty());
    while k < all.len()
        invariant
            0 <= k <= all.len(),
            lv == strings_view(all@),
            lv == lines_of(output@),
            (state, pairs_view(map@)) == name_scan(lv.take(k as int)),
        decreases all.len() - k,
    {
        assert(lv.take(k + 1).drop_last() =~= lv.take(k as int));
        assert(lv[k as int] == all@[k as int]@);
        let v = chars_of(all[k].as_str());
        assert(v@.subrange(0, v.len() as int) =~= v@);
        let (lo, hi) = trim_range(&v, 0, v.len());
        match state {
            Scan::Done => {},
            _ => {
                if range_eq_str(&v, lo, hi, SOLVERS_HEADER) {
                    state = Scan::Inside;
                } else {
                    match state {
                        Scan::Before => {},
                        _ => {
                            if range_eq_str(&v, lo, hi, SEARCH_PATH_HEADER) {
                                state = Scan::Done;
                            } else if lo < hi {
                                let entries = line_names(&v, lo, hi);
                                let ghost ev = pairs_view(entries@);
                                let ghost start = pairs_view(map@);
                                let mut i: usize = 0;
                                while i < entries.len()
                                    invariant
                                        0 <= i <= entries.len(),
                                        ev == pairs_view(entries@),
                                        pairs_view(map@) == put_all(start, ev.take(i as int)),
                                    decreases entries.len() - i,
                                {
                                    assert(ev.take(i + 1).drop_last() =~= ev.take(i as int));
                                    assert(ev.take(i + 1).last() == (
                                        entries@[i as int].0@,
                                        entries@[i as int].1@,
                                    ));
                                    put_pair(
                                        &mut map,
                                        entries[i].0.clone(),
                                        entries[i].1.clone(),
                                    );
                                    i += 1;
                                }
                                assert(ev.take(i as int) =~= ev);
                            }
                        },
                    }
                }
            },
        }
        k += 1;
    }
    assert(lv.take(k as int) =~= lv);
    Ok(map)
}

/// What the first match of the regular expression `pattern` in `text`
/// captures in its first group, as the crate `regex` finds it.
pub uninterp spec fn first_group(pattern: Seq<char>, text: Seq<char>) -> Option<Seq<char>>;

/// `Regex::new`, `Regex::captures` and `Captures::get` of the crate
/// `regex`: the text that the first group of the first match of `pattern`
/// in `text` captures. Nothing comes back where `pattern` is no regular
/// expression, where it does not match, and where the group takes no part
/// in the match.
#[verifier::external_body]
fn regex_first_group(pattern: &str, text: &str) -> (r: Option<String>)
    ensures
        match r {
            Some(s) => first_group(pattern@, text@) == Some(s@),
            None => first_group(pattern@, text@).is_none(),
        },
{
    regex::Regex::new(pattern).ok()?.captures(text)?.get(1).map(|m| m.as_str().to_owned())
}

pub const EXECUTABLE_PATTERN: &'static str = "\"executable\".*:.*\"(.+)\",?\n";

pub const INPUT_TYPE_PATTERN: &'static str = "\"inputType\".*:.*\"(.+)\",?\n";

pub const NAME_PATTERN: &'static str = "\"name\".*:.*\"(.+)\",?\n";

pub const ID_PATTERN: &'static str = "\"id\".*:.*\"(.+)\",?\n";

/// What a solver configuration file states: the name of its solver, the
/// last part of the solver's identifier, and what the solver reads and how
/// it is called. A file that does not say what its solver reads stands for
/// a solver that reads flat models.
pub open spec fn msc_entry_of(
    msc_path: Seq<char>,
    executable: Option<Seq<char>>,
    input_type: Option<Seq<char>>,
    name: Option<Seq<char>>,
    id: Option<Seq<char>>,
) -> Result<(Seq<char>, Seq<char>, SolverMetadataView), Seq<char>> {
    match name {
        None => Err("cannot find name for solver "@ + msc_path),
        Some(n) => match id {
            None => Err("cannot find id for solver "@ + msc_path),
            Some(i) => Ok(
                (
                    n,
                    i.skip(after_last(i, '.')),
                    SolverMetadataView {
                        input_type: match input_type {
                            Some(t) => t,
                            None => "FZN"@,
                        },
                        executable,
                    },
                ),
            ),
        },
    }
}

/// Whether `r` is the entry `expected`.
pub open spec fn is_entry(
    r: Result<(String, String, SolverMetadata), MscDiscoveryError>,
    expected: Result<(Seq<char>, Seq<char>, SolverMetadataView), Seq<char>>,
) -> bool {
    match expected {
        Ok((name, id, metadata)) => r matches Ok(x) && x.0@ == name && x.1@ == id && x.2@
            == metadata,
        Err(e) => r matches Err(x) && x@ == e,
    }
}

/// What the solver configuration file `msc_path` states, given what was
/// found in it of the executable, the input type, the name and the
/// identifier.
pub fn msc_entry(
    msc_path: &str,
    executable: Option<String>,
    input_type: Option<String>,
    name: Option<String>,
    id: Option<String>,
) -> (r: Result<(String, String, SolverMetadata), MscDiscoveryError>)
    ensures
        is_entry(
            r,
            msc_entry_of(
                msc_path@,
                match executable {
                    Some(s) => Some(s@),
                    None => None,
                },
                match input_type {
                    Some(s) => Some(s@),
                    None => None,
                },
                match name {
                    Some(s) => Some(s@),
                    None => None,
                },
                match id {
                    Some(s) => Some(s@),
                    None => None,
                },
            ),
        ),
{
    let name = match name {
        Some(n) => n,
        None => {
            let mut message = String::from_str("cannot find name for solver ");
            message.append(msc_path);
            return Err(MscDiscoveryError::ParseError(message));
        },
    };
    let id = match id {
        Some(i) => i,
        None => {
            let mut message = String::from_str("cannot find id for solver ");
            message.append(msc_path);
            return Err(MscDiscoveryError::ParseError(message));
        },
    };
    let v = chars_of(id.as_str());
    assert(v@.subrange(0, v.len() as int) =~= v@);
    let at = find_after_last(&v, 0, v.len(), '.');
    let last = string_of(&v, at, v.len());
    assert(last@ =~= id@.skip(after_last(id@, '.')));
    let input_type = match input_type {
        Some(t) => t,
        None => String::from_str("FZN"),
    };
    Ok((name, last, SolverMetadata { input_type, executable }))
}

/// What the solver configuration file `msc_path` with the text `content`
/// states.
pub fn parse_msc_file(msc_path: &str, content: &str) -> (r: Result<
    (String, String, SolverMetadata),
    MscDiscoveryError,
>)
    ensures
        is_entry(
            r,
            msc_entry_of(
                msc_path@,
                first_group(EXECUTABLE_PATTERN@, content@),
                first_group(INPUT_TYPE_PATTERN@, content@),
                first_group(NAME_PATTERN@, content@),
                first_group(ID_PATTERN@, content@),
            ),
        ),
{
    let executable = regex_first_group(EXECUTABLE_PATTERN, content);
    let input_type = regex_first_group(INPUT_TYPE_PATTERN, content);
    let name = regex_first_group(NAME_PATTERN, content);
    let id = regex_first_group(ID_PATTERN, content);
    msc_entry(msc_path, executable, input_type, name, id)
}

} // verus!
