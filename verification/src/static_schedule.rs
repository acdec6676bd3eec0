//! Portfolios written as text: one `<solver>,<cores>` on each line.
use crate::scheduler::{portfolio_view, Portfolio, SolverInfo, SolverInfoView};
use crate::text::{
    chars_of, find_char, first_index, lemma_first_index, lines, lines_of, parse_usize, read_usize,
    string_of, strings_view,
};
use vstd::prelude::*;
use vstd::string::StringExecFns;

verus! {

/// Why a line is no entry of a schedule.
#[derive(Debug, Clone, PartialEq, Eq)]
pub enum ParseError {
    LineDoesNotContainComma { line: String },
    CoresNotANumber { line: String, cores_str: String },
}

/// The model of [`ParseError`].
pub enum ParseErrorView {
    LineDoesNotContainComma { line: Seq<char> },
    CoresNotANumber { line: Seq<char>, cores_str: Seq<char> },
}

impl View for ParseError {
    type V = ParseErrorView;

    open spec fn view(&self) -> ParseErrorView {
        match self {
            ParseError::LineDoesNotContainComma { line } => ParseErrorView::LineDoesNotContainComma {
                line: line@,
            },
            ParseError::CoresNotANumber { line, cores_str } => ParseErrorView::CoresNotANumber {
                line: line@,
                cores_str: cores_str@,
            },
        }
    }
}

/// What the error says.
pub open spec fn error_text(e: ParseErrorView) -> Seq<char> {
    match e {
        ParseErrorView::LineDoesNotContainComma { line } => {
            "Command output line does not contain a ',': '"@ + line + "'"@
        },
        ParseErrorView::CoresNotANumber { line, cores_str } => {
            "Command output cores is not an unsigned integer: '"@ + cores_str
                + "' on the following line: "@ + line
        },
    }
}

impl ParseError {
    /// What the error says.
    pub fn message(&self) -> (s: String)
        ensures
            s@ == error_text(self@),
    {
        match self {
            ParseError::LineDoesNotContainComma { line } => {
                let mut s = String::from_str("Command output line does not contain a ',': '");
                s.append(line.as_str());
                s.append("'");
                s
            },
            ParseError::CoresNotANumber { line, cores_str } => {
                let mut s = String::from_str("Command output cores is not an unsigned integer: '");
                s.append(cores_str.as_str());
                s.append("' on the following line: ");
                s.append(line.as_str());
                s
            },
        }
    }
}

/// The entry that one line writes: the solver before the first comma, and
/// the cores after it.
pub open spec fn line_entry(line: Seq<char>) -> Result<SolverInfoView, ParseErrorView> {
    let i = first_index(line, ',');
    if i >= line.len() {
        Err(ParseErrorView::LineDoesNotContainComma { line })
    } else {
        match parse_usize(line.skip(i + 1)) {
            Some(cores) => Ok(
                SolverInfoView { name: line.subrange(0, i), cores, objective: None },
            ),
            None => Err(ParseErrorView::CoresNotANumber { line, cores_str: line.skip(i + 1) }),
        }
    }
}

/// The entries that `lines` write, empty lines passed over, or the error of
/// the first line that writes none.
pub open spec fn entries_of(lines: Seq<Seq<char>>) -> Result<Seq<SolverInfoView>, ParseErrorView>
    decreases lines.len(),
{
    if lines.len() == 0 {
        Ok(Seq::empty())
    } else {
        match entries_of(lines.drop_last()) {
            Err(e) => Err(e),
            Ok(before) => if lines.last().len() == 0 {
                Ok(before)
            } else {
                match line_entry(lines.last()) {
                    Ok(info) => Ok(before.push(info)),
                    Err(e) => Err(e),
                }
            },
        }
    }
}

/// The portfolio that the text `s` writes.
pub open spec fn schedule_of(s: Seq<char>) -> Result<Seq<SolverInfoView>, ParseErrorView> {
    entries_of(lines_of(s))
}

/// An error among the first lines is the error of all of them.
proof fn lemma_error_stays(lines: Seq<Seq<char>>, k: int)
    requires
        0 <= k <= lines.len(),
        entries_of(lines.take(k)) is Err,
    ensures
        entries_of(lines) == entries_of(lines.take(k)),
    decreases lines.len() - k,
{
    if k < lines.len() {
        assert(lines.take(k + 1).drop_last() =~= lines.take(k));
        lemma_error_stays(lines, k + 1);
    } else {
        assert(lines.take(k) =~= lines);
    }
}

/// Reads one line of a schedule.
pub fn parse_schedule_line(line: &str) -> (r: Result<SolverInfo, ParseError>)
    ensures
        match r {
            Ok(info) => line_entry(line@) == Ok::<SolverInfoView, ParseErrorView>(info@),
            Err(e) => line_entry(line@) == Err::<SolverInfoView, ParseErrorView>(e@),
        },
{
    let v = chars_of(line);
    assert(v@.subrange(0, v.len() as int) =~= line@);
    let comma = find_char(&v, 0, v.len(), ',');
    if comma >= v.len() {
        return Err(ParseError::LineDoesNotContainComma { line: line.to_owned() });
    }
    assert(v@.subrange(comma + 1, v.len() as int) =~= line@.skip(comma + 1));
    match read_usize(&v, comma + 1, v.len()) {
        Some(cores) => Ok(SolverInfo::new(string_of(&v, 0, comma), cores)),
        None => Err(
            ParseError::CoresNotANumber {
                line: line.to_owned(),
                cores_str: string_of(&v, comma + 1, v.len()),
            },
        ),
    }
}

/// Reads a schedule: one entry on each line that is not empty. The first
/// line that is no entry gives the error.
pub fn parse_schedule(s: &str) -> (r: Result<Portfolio, ParseError>)
    ensures
        match r {
            Ok(p) => schedule_of(s@) == Ok::<Seq<SolverInfoView>, ParseErrorView>(
                portfolio_view(p@),
            ),
            Err(e) => schedule_of(s@) == Err::<Seq<SolverInfoView>, ParseErrorView>(e@),
        },
{
    let all = lines(s);
    let ghost lv = strings_view(all@);
    let mut portfolio: Vec<SolverInfo> = Vec::new();
    let mut k: usize = 0;
    assert(portfolio_view(portfolio@) =~= Seq::<SolverInfoView>::empty());
    while k < all.len()
        invariant
            0 <= k <= all.len(),
            lv == strings_view(all@),
            lv == lines_of(s@),
            entries_of(lv.take(k as int)) == Ok::<Seq<SolverInfoView>, ParseErrorView>(
                portfolio_view(portfolio@),
            ),
        decreases all.len() - k,
    {
        assert(lv.take(k + 1).drop_last() =~= lv.take(k as int));
        assert(lv[k as int] == all@[k as int]@);
        if all[k].as_str().unicode_len() != 0 {
            match parse_schedule_line(all[k].as_str()) {
                Ok(info) => {
                    let ghost before = portfolio_view(portfolio@);
                    portfolio.push(info);
                    assert(portfolio_view(portfolio@) =~= before.push(info@));
                },
                Err(e) => {
                    proof {
                        lemma_error_stays(lv, k + 1);
                    }
                    return Err(e);
                },
            }
        }
        k += 1;
    }
    assert(lv.take(k as int) =~= lv);
    Ok(portfolio)
}

/// The sum of the cores that `p` asks for.
pub open spec fn total_cores(p: Seq<SolverInfoView>) -> nat
    decreases p.len(),
{
    if p.len() == 0 {
        0
    } else {
        total_cores(p.drop_last()) + p.last().cores as nat
    }
}

/// The cores that `schedule` asks for in all, if the sum is a `usize`.
pub fn schedule_cores(schedule: &Portfolio) -> (r: Option<usize>)
    ensures
        r == (if total_cores(portfolio_view(schedule@)) <= usize::MAX {
            Some(total_cores(portfolio_view(schedule@)) as usize)
        } else {
            None
        }),
{
    let ghost pv = portfolio_view(schedule@);
    let mut sum: usize = 0;
    let mut k: usize = 0;
    while k < schedule.len()
        invariant
            0 <= k <= schedule.len(),
            pv == portfolio_view(schedule@),
            sum == total_cores(pv.take(k as int)),
        decreases schedule.len() - k,
    {
        assert(pv.take(k + 1).drop_last() =~= pv.take(k as int));
        assert(pv[k as int].cores == schedule@[k as int].cores);
        match sum.checked_add(schedule[k].cores) {
            Some(next) => {
                sum = next;
            },
            None => {
                proof {
                    lemma_total_cores_grows(pv, k + 1);
                }
                return None;
            },
        }
        k += 1;
    }
    assert(pv.take(k as int) =~= pv);
    Some(sum)
}

/// The cores of the first entries are at most the cores of all.
pub proof fn lemma_total_cores_grows(p: Seq<SolverInfoView>, k: int)
    requires
        0 <= k <= p.len(),
    ensures
        total_cores(p.take(k)) <= total_cores(p),
    decreases p.len() - k,
{
    if k < p.len() {
        assert(p.take(k + 1).drop_last() =~= p.take(k));
        lemma_total_cores_grows(p, k + 1);
    } else {
        assert(p.take(k) =~= p);
    }
}

/// The portfolio to start with where none is given.
pub open spec fn default_portfolio() -> Seq<SolverInfoView> {
    seq![SolverInfoView { name: "coinbc"@, cores: 1, objective: None }]
}

/// The portfolio to start with where none is given: one solver on one core.
pub fn default_schedule() -> (p: Portfolio)
    ensures
        portfolio_view(p@) == default_portfolio(),
{
    let mut p: Vec<SolverInfo> = Vec::new();
    p.push(SolverInfo::new(String::from_str("coinbc"), 1));
    assert(portfolio_view(p@) =~= default_portfolio());
    p
}

/// The portfolio to start with: the one that `contents` writes, or the
/// default where there is no text. The flag says whether it asks for exactly
/// `cores` cores.
pub fn static_schedule(contents: Option<&str>, cores: usize) -> (r: Result<
    (Portfolio, bool),
    ParseError,
>)
    ensures
        match r {
            Ok((p, fits)) => {
                &&& match contents {
                    Some(text) => schedule_of(text@) == Ok::<Seq<SolverInfoView>, ParseErrorView>(
                        portfolio_view(p@),
                    ),
                    None => portfolio_view(p@) == default_portfolio(),
                }
                &&& fits == (total_cores(portfolio_view(p@)) == cores)
            },
            Err(e) => contents matches Some(text) && schedule_of(text@) == Err::<
                Seq<SolverInfoView>,
                ParseErrorView,
            >(e@),
        },
{
    let schedule = match contents {
        Some(text) => match parse_schedule(text) {
            Ok(p) => p,
            Err(e) => {
                return Err(e);
            },
        },
        None => default_schedule(),
    };
    let fits = match schedule_cores(&schedule) {
        Some(n) => n == cores,
        None => false,
    };
    Ok((schedule, fits))
}

} // verus!
