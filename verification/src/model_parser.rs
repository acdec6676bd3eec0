//! The objective of a model: its direction and the order it puts on bounds.
use crate::assoc::get;
use crate::command::{CommandLine, CommandLineView};
use crate::json::{entries_view, get_field, json_of_text, parse_json, Json, JsonView};
use crate::text::str_eq;
use vstd::prelude::*;
use vstd::string::StringExecFns;

verus! {

/// The value of an objective as solvers report it.
pub type ObjectiveValue = i64;

/// What a model asks of its objective.
#[derive(Debug, Clone, Copy, PartialEq, Eq, Structural)]
pub enum ObjectiveType {
    Satisfy,
    Minimize,
    Maximize,
}

/// `new` strictly dominates `old` under the direction `t`.
/// A satisfaction problem has no order: every solution counts.
pub open spec fn dominates(t: ObjectiveType, old: int, new: int) -> bool {
    match t {
        ObjectiveType::Satisfy => true,
        ObjectiveType::Minimize => new < old,
        ObjectiveType::Maximize => new > old,
    }
}

/// `new` improves on the bound `old`: there was no bound, or `new` strictly dominates it.
pub open spec fn better(t: ObjectiveType, old: Option<ObjectiveValue>, new: ObjectiveValue) -> bool {
    match old {
        None => true,
        Some(val) => dominates(t, val as int, new as int),
    }
}

impl ObjectiveType {
    /// Whether `new` improves on the bound `old`.
    pub fn is_better(&self, old: Option<ObjectiveValue>, new: ObjectiveValue) -> (res: bool)
        ensures
            res == better(*self, old, new),
    {
        match old {
            None => true,
            Some(val) => match self {
                ObjectiveType::Maximize => val < new,
                ObjectiveType::Minimize => val > new,
                ObjectiveType::Satisfy => true,
            },
        }
    }
}

/// Why the output of the model interface command is of no use.
#[derive(Debug, Clone, PartialEq, Eq)]
pub enum CommandOutputError {
    /// The output, which is given, is no JSON.
    NonJsonOutput(String),
    /// The output, which is given, is JSON but no object.
    JsonIsNotObject(String),
}

/// Why the objective of a model could not be found.
#[derive(Debug, Clone, PartialEq, Eq)]
pub enum ModelParseError {
    /// What is wrong with the `method` field.
    MethodParseError(String),
    CommandOutputError(CommandOutputError),
}

/// The model of [`ModelParseError`].
pub enum ModelParseErrorView {
    MethodParseError(Seq<char>),
    NonJsonOutput(Seq<char>),
    JsonIsNotObject(Seq<char>),
}

impl View for ModelParseError {
    type V = ModelParseErrorView;

    open spec fn view(&self) -> ModelParseErrorView {
        match self {
            ModelParseError::MethodParseError(s) => ModelParseErrorView::MethodParseError(s@),
            ModelParseError::CommandOutputError(CommandOutputError::NonJsonOutput(s)) => {
                ModelParseErrorView::NonJsonOutput(s@)
            },
            ModelParseError::CommandOutputError(CommandOutputError::JsonIsNotObject(s)) => {
                ModelParseErrorView::JsonIsNotObject(s@)
            },
        }
    }
}

/// The objective that the interface of a model states in its `method`
/// field: `min`, `max` or `sat`.
pub open spec fn method_of_object(object: Seq<(Seq<char>, JsonView)>) -> Result<
    ObjectiveType,
    ModelParseErrorView,
> {
    match get(object, "method"@) {
        None => Err(ModelParseErrorView::MethodParseError("'method' field does not exist"@)),
        Some(JsonView::String(method)) => if method == "min"@ {
            Ok(ObjectiveType::Minimize)
        } else if method == "max"@ {
            Ok(ObjectiveType::Maximize)
        } else if method == "sat"@ {
            Ok(ObjectiveType::Satisfy)
        } else {
            Err(ModelParseErrorView::MethodParseError("Method not recognised"@))
        },
        Some(_) => Err(ModelParseErrorView::MethodParseError("'method' field is not a string"@)),
    }
}

/// The objective that `output` states, where `json` is what it reads as.
pub open spec fn method_of_output(output: Seq<char>, json: Option<JsonView>) -> Result<
    ObjectiveType,
    ModelParseErrorView,
> {
    match json {
        None => Err(ModelParseErrorView::NonJsonOutput(output)),
        Some(JsonView::Object(object)) => method_of_object(object),
        Some(_) => Err(ModelParseErrorView::JsonIsNotObject(output)),
    }
}

/// Whether `r` is the result `expected`.
pub open spec fn is_result(
    r: Result<ObjectiveType, ModelParseError>,
    expected: Result<ObjectiveType, ModelParseErrorView>,
) -> bool {
    match expected {
        Ok(t) => r == Ok::<ObjectiveType, ModelParseError>(t),
        Err(e) => r matches Err(x) && x@ == e,
    }
}

/// Reads the objective from the interface of a model.
pub fn parse_method_from_json_object(object: &Vec<(String, Json)>) -> (r: Result<
    ObjectiveType,
    ModelParseError,
>)
    ensures
        is_result(r, method_of_object(entries_view(object@))),
{
    match get_field(object, "method") {
        None => Err(
            ModelParseError::MethodParseError(String::from_str("'method' field does not exist")),
        ),
        Some(Json::String(method)) => {
            if str_eq(method.as_str(), "min") {
                Ok(ObjectiveType::Minimize)
            } else if str_eq(method.as_str(), "max") {
                Ok(ObjectiveType::Maximize)
            } else if str_eq(method.as_str(), "sat") {
                Ok(ObjectiveType::Satisfy)
            } else {
                Err(ModelParseError::MethodParseError(String::from_str("Method not recognised")))
            }
        },
        Some(_) => Err(
            ModelParseError::MethodParseError(String::from_str("'method' field is not a string")),
        ),
    }
}

/// Reads the objective from the output of the model interface command,
/// where `json` is what the output reads as.
pub fn objective_type_of(output: &str, json: Option<Json>) -> (r: Result<
    ObjectiveType,
    ModelParseError,
>)
    ensures
        is_result(
            r,
            method_of_output(
                output@,
                match json {
                    Some(j) => Some(j@),
                    None => None,
                },
            ),
        ),
{
    match json {
        None => Err(
            ModelParseError::CommandOutputError(
                CommandOutputError::NonJsonOutput(output.to_owned()),
            ),
        ),
        Some(Json::Object(object)) => {
            proof {
                crate::json::lemma_object_view(object);
            }
            parse_method_from_json_object(&object)
        },
        Some(_) => Err(
            ModelParseError::CommandOutputError(
                CommandOutputError::JsonIsNotObject(output.to_owned()),
            ),
        ),
    }
}

/// Reads the objective of a model from the output of the model interface
/// command.
pub fn get_objective_type(output: &str) -> (r: Result<ObjectiveType, ModelParseError>)
    ensures
        is_result(r, method_of_output(output@, json_of_text(output@))),
{
    objective_type_of(output, parse_json(output))
}

/// The call of the flattener that prints the interface of `model_path`.
pub fn get_model_interface_cmd(minizinc_command: &str, model_path: &str) -> (cmd: CommandLine)
    ensures
        cmd@ == (CommandLineView {
            program: minizinc_command@,
            args: seq![model_path@, "--model-interface-only"@, "--solver"@, "coinbc"@],
        }),
{
    let mut cmd = CommandLine::new(minizinc_command);
    cmd.arg(model_path);
    cmd.arg("--model-interface-only");
    cmd.arg("--solver");
    cmd.arg("coinbc");
    assert(cmd@.args =~= seq![model_path@, "--model-interface-only"@, "--solver"@, "coinbc"@]);
    cmd
}

} // verus!
