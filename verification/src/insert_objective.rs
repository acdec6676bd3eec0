//! Bound injection: the known bound goes into the flat model as a
//! constraint on the objective, right before the solve statement.
use crate::model_parser::{ObjectiveType, ObjectiveValue};
use crate::text::{
    after_last, after_last_space, chars_of, find_after_last, find_after_last_space, has_prefix,
    push_signed_decimal, range_starts_with, signed_decimal, string_of, trim_range, trimmed,
};
use vstd::prelude::*;
use vstd::string::StringExecFns;

verus! {

/// Why no bound could be put into a flat model.
#[derive(Debug, Clone, PartialEq, Eq)]
pub enum Error {
    /// The last statement, which is given, is no solve statement.
    LastStatementNotSolve(String),
    /// A satisfaction problem has no objective to bound.
    GetObjectiveOnSatisfyType,
}

/// The model of [`Error`].
pub enum ErrorView {
    LastStatementNotSolve(Seq<char>),
    GetObjectiveOnSatisfyType,
}

impl View for Error {
    type V = ErrorView;

    open spec fn view(&self) -> ErrorView {
        match self {
            Error::LastStatementNotSolve(s) => ErrorView::LastStatementNotSolve(s@),
            Error::GetObjectiveOnSatisfyType => ErrorView::GetObjectiveOnSatisfyType,
        }
    }
}

/// `int_le(left, right)` as a constraint of the flat model.
pub open spec fn int_le_text(left: Seq<char>, right: Seq<char>) -> Seq<char> {
    "constraint int_le("@ + left + ", "@ + right + ");"@
}

/// The constraint that holds the objective `name` to the bound
/// `objective`: at most the bound where the objective is minimised, at
/// least the bound where it is maximised.
pub open spec fn constraint_text(t: ObjectiveType, name: Seq<char>, objective: ObjectiveValue)
    -> Option<Seq<char>> {
    match t {
        ObjectiveType::Satisfy => None,
        ObjectiveType::Minimize => Some(int_le_text(name, signed_decimal(objective as int))),
        ObjectiveType::Maximize => Some(int_le_text(signed_decimal(objective as int), name)),
    }
}

fn int_le(left: &str, right: &str) -> (s: String)
    ensures
        s@ == int_le_text(left@, right@),
{
    let mut s = String::from_str("constraint int_le(");
    s.append(left);
    s.append(", ");
    s.append(right);
    s.append(");");
    s
}

/// The constraint that holds the objective `objective_name` to the bound
/// `objective`.
pub fn get_objective_constraint(
    objective_type: &ObjectiveType,
    objective_name: &str,
    objective: ObjectiveValue,
) -> (r: Result<String, Error>)
    ensures
        match constraint_text(*objective_type, objective_name@, objective) {
            Some(text) => r matches Ok(s) && s@ == text,
            None => r == Err::<String, Error>(Error::GetObjectiveOnSatisfyType),
        },
{
    let mut number = String::new();
    push_signed_decimal(&mut number, objective);
    assert(number@ =~= signed_decimal(objective as int));
    match objective_type {
        ObjectiveType::Satisfy => Err(Error::GetObjectiveOnSatisfyType),
        ObjectiveType::Minimize => Ok(int_le(objective_name, number.as_str())),
        ObjectiveType::Maximize => Ok(int_le(number.as_str(), objective_name)),
    }
}

/// Where the last statement of `content` stands: after the last `;` but
/// one and before the last, where only white space follows the last `;`;
/// else after the last `;`, to the end.
pub open spec fn last_statement(content: Seq<char>) -> (int, int) {
    let cut = after_last(content, ';');
    if cut > 0 && trimmed(content.skip(cut)).len() == 0 {
        (after_last(content.subrange(0, cut - 1), ';'), cut - 1)
    } else {
        (cut, content.len() as int)
    }
}

/// The flat model `content` with the bound `objective` on its objective:
/// the constraint stands right before the last statement, which has to be
/// the solve statement; the objective is its last word.
pub open spec fn with_objective(content: Seq<char>, t: ObjectiveType, objective: ObjectiveValue)
    -> Result<Seq<char>, ErrorView> {
    let (lo, hi) = last_statement(content);
    let statement = trimmed(content.subrange(lo, hi));
    if !has_prefix(statement, "solve"@) {
        Err(ErrorView::LastStatementNotSolve(statement))
    } else {
        match constraint_text(t, statement.skip(after_last_space(statement)), objective) {
            None => Err(ErrorView::GetObjectiveOnSatisfyType),
            Some(text) => Ok(content.subrange(0, lo) + text + content.skip(lo)),
        }
    }
}

/// Puts the bound `objective` into the flat model `content`.
pub fn insert_objective(content: &str, objective_type: &ObjectiveType, objective: ObjectiveValue)
    -> (r: Result<String, Error>)
    ensures
        match with_objective(content@, *objective_type, objective) {
            Ok(text) => r matches Ok(s) && s@ == text,
            Err(e) => r matches Err(x) && x@ == e,
        },
{
    let v = chars_of(content);
    let n = v.len();
    assert(v@.subrange(0, n as int) =~= content@);
    let cut = find_after_last(&v, 0, n, ';');
    let (a, b) = trim_range(&v, cut, n);
    assert(v@.subrange(cut as int, n as int) =~= content@.skip(cut as int));
    let (lo, hi) = if cut > 0 && a == b {
        (find_after_last(&v, 0, cut - 1, ';'), cut - 1)
    } else {
        (cut, n)
    };
    assert((lo as int, hi as int) == last_statement(content@));
    let (from, to) = trim_range(&v, lo, hi);
    let ghost statement = trimmed(content@.subrange(lo as int, hi as int));
    assert(v@.subrange(from as int, to as int) == statement);
    if !range_starts_with(&v, from, to, "solve") {
        return Err(Error::LastStatementNotSolve(string_of(&v, from, to)));
    }
    let name_at = find_after_last_space(&v, from, to);
    let name = string_of(&v, name_at, to);
    assert(name@ =~= statement.skip(after_last_space(statement)));
    match get_objective_constraint(objective_type, name.as_str(), objective) {
        Err(e) => Err(e),
        Ok(text) => {
            let mut out = string_of(&v, 0, lo);
            out.append(text.as_str());
            let rest = string_of(&v, lo, n);
            out.append(rest.as_str());
            assert(v@.subrange(lo as int, n as int) =~= content@.skip(lo as int));
            Ok(out)
        },
    }
}

} // verus!
