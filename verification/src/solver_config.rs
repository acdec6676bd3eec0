//! What is known of the solvers: how each is called, what it reads and
//! which standard flags it takes.
use crate::assoc::get;
use crate::command::{CommandLine, CommandLineView};
use crate::json::{
    entries_view, get_field, items_view, json_of_bytes, lemma_array_view, lemma_object_view,
    parse_json_bytes, Json, JsonView,
};
use crate::text::{lowercase, str_eq, strings_view, to_lowercase};
use vstd::prelude::*;
use vstd::string::StringExecFns;

verus! {

/// The standard flags that a solver takes.
#[derive(Debug, Clone, Copy, PartialEq, Eq, Structural)]
pub struct SupportedStdFlags {
    pub a: bool,
    pub i: bool,
    pub f: bool,
    pub p: bool,
}

impl Default for SupportedStdFlags {
    fn default() -> (flags: Self)
        ensures
            flags == (SupportedStdFlags { a: false, i: false, f: false, p: false }),
    {
        SupportedStdFlags { a: false, i: false, f: false, p: false }
    }
}

/// What a solver reads.
#[derive(Debug, Clone, Copy, PartialEq, Eq, Structural)]
pub enum SolverInputType {
    Fzn,
    Json,
}

/// How a solver is called: the program and its first arguments.
#[derive(Debug, Clone, PartialEq, Eq)]
pub struct Executable(pub String, pub Vec<String>);

/// The model of [`Executable`].
pub struct ExecutableView {
    pub program: Seq<char>,
    pub args: Seq<Seq<char>>,
}

impl View for Executable {
    type V = ExecutableView;

    open spec fn view(&self) -> ExecutableView {
        ExecutableView { program: self.0@, args: strings_view(self.1@) }
    }
}

impl Executable {
    /// The call of the program with its first arguments.
    pub fn into_command(self) -> (cmd: CommandLine)
        ensures
            cmd@ == (CommandLineView { program: self@.program, args: self@.args }),
    {
        CommandLine { program: self.0, args: self.1 }
    }
}

/// One solver.
#[derive(Debug, Clone, PartialEq, Eq)]
pub struct Solver {
    id: String,
    executable: Option<Executable>,
    supported_std_flags: SupportedStdFlags,
    input_type: SolverInputType,
}

/// The model of [`Solver`].
pub struct SolverView {
    pub id: Seq<char>,
    pub executable: Option<ExecutableView>,
    pub supported_std_flags: SupportedStdFlags,
    pub input_type: SolverInputType,
}

impl View for Solver {
    type V = SolverView;

    closed spec fn view(&self) -> SolverView {
        SolverView {
            id: self.id@,
            executable: match self.executable {
                Some(e) => Some(e@),
                None => None,
            },
            supported_std_flags: self.supported_std_flags,
            input_type: self.input_type,
        }
    }
}

impl Solver {
    /// The solver `id`.
    pub fn new(
        id: String,
        executable: Option<Executable>,
        supported_std_flags: SupportedStdFlags,
        input_type: SolverInputType,
    ) -> (s: Self)
        ensures
            s@ == (SolverView {
                id: id@,
                executable: match executable {
                    Some(e) => Some(e@),
                    None => None,
                },
                supported_std_flags,
                input_type,
            }),
    {
        Solver { id, executable, supported_std_flags, input_type }
    }

    /// The identifier, in lower case.
    pub fn id(&self) -> (id: &str)
        ensures
            id@ == self@.id,
    {
        self.id.as_str()
    }

    /// What the solver reads.
    pub fn input_type(&self) -> (t: &SolverInputType)
        ensures
            *t == self@.input_type,
    {
        &self.input_type
    }

    /// How the solver is called, where that is known.
    pub fn executable(&self) -> (e: Option<&Executable>)
        ensures
            match e {
                Some(x) => self@.executable == Some(x@),
                None => self@.executable.is_none(),
            },
    {
        self.executable.as_ref()
    }

    /// The standard flags that the solver takes.
    pub fn supported_std_flags(&self) -> (flags: &SupportedStdFlags)
        ensures
            *flags == self@.supported_std_flags,
    {
        &self.supported_std_flags
    }
}

/// The solvers that are known.
#[derive(Debug, Clone, PartialEq, Eq)]
pub struct Solvers(Vec<Solver>);

/// The views of solvers.
pub open spec fn solvers_view(s: Seq<Solver>) -> Seq<SolverView> {
    s.map_values(|x: Solver| x@)
}

/// The index of the first solver of `s` with the identifier `id`, or the
/// length of `s`.
pub open spec fn solver_index(s: Seq<SolverView>, id: Seq<char>) -> int
    decreases s.len(),
{
    if s.len() == 0 || s[0].id == id {
        0
    } else {
        1 + solver_index(s.skip(1), id)
    }
}

proof fn lemma_solver_index(s: Seq<SolverView>, id: Seq<char>, i: int)
    requires
        0 <= i <= s.len(),
        forall|k: int| 0 <= k < i ==> (#[trigger] s[k]).id != id,
        i < s.len() ==> s[i].id == id,
    ensures
        solver_index(s, id) == i,
    decreases s.len(),
{
    if s.len() == 0 || s[0].id == id {
        if i > 0 {
            assert(s[0].id != id);
        }
    } else {
        assert forall|k: int| 0 <= k < i - 1 implies (#[trigger] s.skip(1)[k]).id != id by {
            assert(s[k + 1].id != id);
        }
        lemma_solver_index(s.skip(1), id, i - 1);
    }
}

/// The first solver of `s` whose identifier is `name` in lower case.
pub open spec fn solver_by_id(s: Seq<SolverView>, name: Seq<char>) -> Option<SolverView> {
    let i = solver_index(s, lowercase(name));
    if 0 <= i < s.len() {
        Some(s[i])
    } else {
        None
    }
}

impl View for Solvers {
    type V = Seq<SolverView>;

    closed spec fn view(&self) -> Seq<SolverView> {
        solvers_view(self.0@)
    }
}

impl Solvers {
    /// No solver.
    pub fn empty() -> (s: Self)
        ensures
            s@ == Seq::<SolverView>::empty(),
    {
        let s = Solvers(Vec::new());
        assert(s@ =~= Seq::<SolverView>::empty());
        s
    }

    /// These solvers.
    pub fn from_vec(solvers: Vec<Solver>) -> (s: Self)
        ensures
            s@ == solvers_view(solvers@),
    {
        Solvers(solvers)
    }

    /// How many solvers there are.
    pub fn len(&self) -> (n: usize)
        ensures
            n == self@.len(),
    {
        self.0.len()
    }

    /// The solver at `index`.
    pub fn get(&self, index: usize) -> (r: Option<&Solver>)
        ensures
            match r {
                Some(s) => index < self@.len() && s@ == self@[index as int],
                None => index >= self@.len(),
            },
    {
        if index < self.0.len() {
            Some(&self.0[index])
        } else {
            None
        }
    }

    /// The solvers, in order.
    pub fn iter(&self) -> (it: std::slice::Iter<'_, Solver>)
        ensures
            solvers_view(vstd::std_specs::iter::IteratorSpec::remaining(&it).unref()) == self@,
    {
        broadcast use vstd::std_specs::slice::axiom_spec_slice_iter;

        let it = self.0.iter();
        assert(vstd::std_specs::iter::IteratorSpec::remaining(&it).unref() =~= self.0@);
        it
    }

    /// The solver that goes by `name`, whatever the case of its letters.
    pub fn get_by_id(&self, name: &str) -> (r: Option<&Solver>)
        ensures
            match r {
                Some(s) => solver_by_id(self@, name@) == Some(s@),
                None => solver_by_id(self@, name@).is_none(),
            },
    {
        let lowered_id = to_lowercase(name);
        let mut i: usize = 0;
        while i < self.0.len() && !str_eq(self.0[i].id.as_str(), lowered_id.as_str())
            invariant
                0 <= i <= self.0.len(),
                forall|k: int| 0 <= k < i ==> (#[trigger] self@[k]).id != lowered_id@,
            decreases self.0.len() - i,
        {
            i += 1;
        }
        proof {
            if i < self.0.len() {
                assert(self@[i as int].id == lowered_id@);
            }
            lemma_solver_index(self@, lowered_id@, i as int);
        }
        if i < self.0.len() {
            Some(&self.0[i])
        } else {
            None
        }
    }
}

/// Why a JSON value describes no solver.
#[derive(Debug, Clone, PartialEq, Eq)]
pub enum SolverParseError {
    NotAnObject,
    /// The field of this name is missing.
    FieldNotPresent(String),
    /// The field of this name is no string.
    FieldNotAString(String),
    UnknownInputType { solver_id: String, input_type: String },
}

/// The model of [`SolverParseError`].
pub enum SolverParseErrorView {
    NotAnObject,
    FieldNotPresent(Seq<char>),
    FieldNotAString(Seq<char>),
    UnknownInputType { solver_id: Seq<char>, input_type: Seq<char> },
}

impl View for SolverParseError {
    type V = SolverParseErrorView;

    open spec fn view(&self) -> SolverParseErrorView {
        match self {
            SolverParseError::NotAnObject => SolverParseErrorView::NotAnObject,
            SolverParseError::FieldNotPresent(s) => SolverParseErrorView::FieldNotPresent(s@),
            SolverParseError::FieldNotAString(s) => SolverParseErrorView::FieldNotAString(s@),
            SolverParseError::UnknownInputType { solver_id, input_type } => {
                SolverParseErrorView::UnknownInputType {
                    solver_id: solver_id@,
                    input_type: input_type@,
                }
            },
        }
    }
}

/// Why the output of the discovery command gives no solvers.
#[derive(Debug, Clone, PartialEq, Eq)]
pub enum Error {
    /// The output is no JSON.
    JsonParsing,
    /// The output is JSON of another shape, as the text says.
    InvalidOutputFormat(String),
}

/// The model of [`Error`].
pub enum ErrorView {
    JsonParsing,
    InvalidOutputFormat(Seq<char>),
}

impl View for Error {
    type V = ErrorView;

    open spec fn view(&self) -> ErrorView {
        match self {
            Error::JsonParsing => ErrorView::JsonParsing,
            Error::InvalidOutputFormat(s) => ErrorView::InvalidOutputFormat(s@),
        }
    }
}

/// The string under `name`.
pub open spec fn string_field(object: Seq<(Seq<char>, JsonView)>, name: Seq<char>) -> Result<
    Seq<char>,
    SolverParseErrorView,
> {
    match get(object, name) {
        None => Err(SolverParseErrorView::FieldNotPresent(name)),
        Some(JsonView::String(s)) => Ok(s),
        Some(_) => Err(SolverParseErrorView::FieldNotAString(name)),
    }
}

/// How the solver is called, if the object says so.
pub open spec fn executable_field(object: Seq<(Seq<char>, JsonView)>) -> Result<
    Option<ExecutableView>,
    SolverParseErrorView,
> {
    match get(object, "executable"@) {
        None => Ok(None),
        Some(JsonView::String(s)) => Ok(Some(ExecutableView { program: s, args: Seq::empty() })),
        Some(_) => Err(SolverParseErrorView::FieldNotAString("executable"@)),
    }
}

/// What the solver `id` reads: `FZN` or `JSON`.
pub open spec fn input_type_field(id: Seq<char>, object: Seq<(Seq<char>, JsonView)>) -> Result<
    SolverInputType,
    SolverParseErrorView,
> {
    match string_field(object, "inputType"@) {
        Err(e) => Err(e),
        Ok(s) => if s == "FZN"@ {
            Ok(SolverInputType::Fzn)
        } else if s == "JSON"@ {
            Ok(SolverInputType::Json)
        } else {
            Err(SolverParseErrorView::UnknownInputType { solver_id: id, input_type: s })
        },
    }
}

/// `flag` is one of the strings of `items`.
pub open spec fn has_flag(items: Seq<JsonView>, flag: Seq<char>) -> bool {
    exists|i: int| 0 <= i < items.len() && #[trigger] items[i] == JsonView::String(flag)
}

/// The standard flags that the object states. An object that states none
/// stands for a solver that takes `-i` and `-p`.
pub open spec fn std_flags_field(object: Seq<(Seq<char>, JsonView)>) -> SupportedStdFlags {
    match get(object, "stdFlags"@) {
        Some(JsonView::Array(items)) => SupportedStdFlags {
            a: has_flag(items, "-a"@),
            i: has_flag(items, "-i"@),
            f: has_flag(items, "-f"@),
            p: has_flag(items, "-p"@),
        },
        _ => SupportedStdFlags { a: false, i: true, f: false, p: true },
    }
}

/// The solver that `json` describes.
pub open spec fn solver_of(json: JsonView) -> Result<SolverView, SolverParseErrorView> {
    match json {
        JsonView::Object(object) => match string_field(object, "id"@) {
            Err(e) => Err(e),
            Ok(raw) => match executable_field(object) {
                Err(e) => Err(e),
                Ok(executable) => match input_type_field(lowercase(raw), object) {
                    Err(e) => Err(e),
                    Ok(input_type) => Ok(
                        SolverView {
                            id: lowercase(raw),
                            executable,
                            supported_std_flags: std_flags_field(object),
                            input_type,
                        },
                    ),
                },
            },
        },
        _ => Err(SolverParseErrorView::NotAnObject),
    }
}

/// The solvers that `items` describe; an item that describes none is
/// passed over.
pub open spec fn solvers_of(items: Seq<JsonView>) -> Seq<SolverView>
    decreases items.len(),
{
    if items.len() == 0 {
        Seq::empty()
    } else {
        match solver_of(items.last()) {
            Ok(s) => solvers_of(items.drop_last()).push(s),
            Err(_) => solvers_of(items.drop_last()),
        }
    }
}

/// The solvers that the output of the discovery command lists, where
/// `json` is what the output reads as.
pub open spec fn discovered(json: Option<JsonView>) -> Result<Seq<SolverView>, ErrorView> {
    match json {
        None => Err(ErrorView::JsonParsing),
        Some(JsonView::Array(items)) => Ok(solvers_of(items)),
        Some(_) => Err(ErrorView::InvalidOutputFormat("JSON does not start with an array"@)),
    }
}

/// The string under `field_name`.
fn string_from_json(field_name: &str, object: &Vec<(String, Json)>) -> (r: Result<
    String,
    SolverParseError,
>)
    ensures
        match string_field(entries_view(object@), field_name@) {
            Ok(s) => r matches Ok(x) && x@ == s,
            Err(e) => r matches Err(x) && x@ == e,
        },
{
    match get_field(object, field_name) {
        None => Err(SolverParseError::FieldNotPresent(field_name.to_owned())),
        Some(Json::String(s)) => Ok(s.clone()),
        Some(_) => Err(SolverParseError::FieldNotAString(field_name.to_owned())),
    }
}

/// How the solver is called, if the object says so.
fn executable_from_json(object: &Vec<(String, Json)>) -> (r: Result<
    Option<Executable>,
    SolverParseError,
>)
    ensures
        match executable_field(entries_view(object@)) {
            Ok(Some(e)) => r matches Ok(Some(x)) && x@ == e,
            Ok(None) => r matches Ok(None),
            Err(e) => r matches Err(x) && x@ == e,
        },
{
    match get_field(object, "executable") {
        None => Ok(None),
        Some(Json::String(s)) => {
            let e = Executable(s.clone(), Vec::new());
            assert(e@.args =~= Seq::<Seq<char>>::empty());
            Ok(Some(e))
        },
        Some(_) => Err(SolverParseError::FieldNotAString(String::from_str("executable"))),
    }
}

/// What the solver `solver_id` reads.
fn input_type_from_json(solver_id: &str, object: &Vec<(String, Json)>) -> (r: Result<
    SolverInputType,
    SolverParseError,
>)
    ensures
        match input_type_field(solver_id@, entries_view(object@)) {
            Ok(t) => r == Ok::<SolverInputType, SolverParseError>(t),
            Err(e) => r matches Err(x) && x@ == e,
        },
{
    match string_from_json("inputType", object) {
        Err(e) => Err(e),
        Ok(s) => {
            if str_eq(s.as_str(), "FZN") {
                Ok(SolverInputType::Fzn)
            } else if str_eq(s.as_str(), "JSON") {
                Ok(SolverInputType::Json)
            } else {
                Err(
                    SolverParseError::UnknownInputType {
                        solver_id: solver_id.to_owned(),
                        input_type: s,
                    },
                )
            }
        },
    }
}

/// Whether `flag` is one of the strings of `items`.
fn contains_flag(items: &Vec<Json>, flag: &str) -> (b: bool)
    ensures
        b == has_flag(items_view(items@), flag@),
{
    let ghost iv = items_view(items@);
    let mut i: usize = 0;
    while i < items.len()
        invariant
            0 <= i <= items.len(),
            iv == items_view(items@),
            forall|k: int| 0 <= k < i ==> #[trigger] iv[k] != JsonView::String(flag@),
        decreases items.len() - i,
    {
        let found = match &items[i] {
            Json::String(s) => str_eq(s.as_str(), flag),
            _ => false,
        };
        assert(found == (iv[i as int] == JsonView::String(flag@)));
        if found {
            return true;
        }
        i += 1;
    }
    false
}

/// The standard flags that the object states.
fn std_flags_from_json(object: &Vec<(String, Json)>) -> (flags: SupportedStdFlags)
    ensures
        flags == std_flags_field(entries_view(object@)),
{
    match get_field(object, "stdFlags") {
        Some(Json::Array(items)) => {
            proof {
                lemma_array_view(*items);
            }
            SupportedStdFlags {
                a: contains_flag(items, "-a"),
                i: contains_flag(items, "-i"),
                f: contains_flag(items, "-f"),
                p: contains_flag(items, "-p"),
            }
        },
        _ => SupportedStdFlags { a: false, i: true, f: false, p: true },
    }
}

impl Solver {
    /// Reads one solver from its description.
    pub fn from_json(json: &Json) -> (r: Result<Solver, SolverParseError>)
        ensures
            match solver_of(json@) {
                Ok(s) => r matches Ok(x) && x@ == s,
                Err(e) => r matches Err(x) && x@ == e,
            },
    {
        match json {
            Json::Object(object) => {
                proof {
                    lemma_object_view(*object);
                }
                let raw = match string_from_json("id", object) {
                    Ok(s) => s,
                    Err(e) => {
                        return Err(e);
                    },
                };
                let id = to_lowercase(raw.as_str());
                let executable = match executable_from_json(object) {
                    Ok(e) => e,
                    Err(e) => {
                        return Err(e);
                    },
                };
                let input_type = match input_type_from_json(id.as_str(), object) {
                    Ok(t) => t,
                    Err(e) => {
                        return Err(e);
                    },
                };
                let supported_std_flags = std_flags_from_json(object);
                Ok(Solver { id, executable, supported_std_flags, input_type })
            },
            _ => Err(SolverParseError::NotAnObject),
        }
    }
}

impl Solvers {
    /// Reads the solvers from the list that the discovery command prints.
    /// An item that describes no solver is passed over.
    pub fn from_json(json: Option<Json>) -> (r: Result<Solvers, Error>)
        ensures
            match discovered(
                match json {
                    Some(j) => Some(j@),
                    None => None,
                },
            ) {
                Ok(s) => r matches Ok(x) && x@ == s,
                Err(e) => r matches Err(x) && x@ == e,
            },
    {
        match json {
            None => Err(Error::JsonParsing),
            Some(Json::Array(items)) => {
                proof {
                    lemma_array_view(items);
                }
                let ghost iv = items_view(items@);
                let mut solvers: Vec<Solver> = Vec::new();
                let mut k: usize = 0;
                assert(solvers_view(solvers@) =~= solvers_of(iv.take(0)));
                while k < items.len()
                    invariant
                        0 <= k <= items.len(),
                        iv == items_view(items@),
                        solvers_view(solvers@) == solvers_of(iv.take(k as int)),
                    decreases items.len() - k,
                {
                    assert(iv.take(k + 1).drop_last() =~= iv.take(k as int));
                    assert(iv.take(k + 1).last() == items@[k as int]@);
                    match Solver::from_json(&items[k]) {
                        Ok(solver) => {
                            let ghost before = solvers_view(solvers@);
                            solvers.push(solver);
                            assert(solvers_view(solvers@) =~= before.push(solver@));
                        },
                        Err(_) => {},
                    }
                    k += 1;
                }
                assert(iv.take(k as int) =~= iv);
                Ok(Solvers(solvers))
            },
            Some(_) => Err(
                Error::InvalidOutputFormat(String::from_str("JSON does not start with an array")),
            ),
        }
    }
}

/// Reads the solvers from the output of the discovery command.
pub fn discover(output: &[u8]) -> (r: Result<Solvers, Error>)
    ensures
        match discovered(json_of_bytes(output@)) {
            Ok(s) => r matches Ok(x) && x@ == s,
            Err(e) => r matches Err(x) && x@ == e,
        },
{
    Solvers::from_json(parse_json_bytes(output))
}

/// The call of the flattener that lists the solvers.
pub fn get_discover_command(minizinc_exe: &str) -> (cmd: CommandLine)
    ensures
        cmd@ == (CommandLineView { program: minizinc_exe@, args: seq!["--solvers-json"@] }),
{
    let mut cmd = CommandLine::new(minizinc_exe);
    cmd.arg("--solvers-json");
    assert(cmd@.args =~= seq!["--solvers-json"@]);
    cmd
}

} // verus!
