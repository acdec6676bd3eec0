//! Command lines: a program and its arguments.
use crate::text::strings_view;
use vstd::prelude::*;
use vstd::string::StringExecFns;

verus! {

/// A program and the arguments that it is called with.
#[derive(Debug, Clone, PartialEq, Eq)]
pub struct CommandLine {
    pub program: String,
    pub args: Vec<String>,
}

/// The model of [`CommandLine`].
pub struct CommandLineView {
    pub program: Seq<char>,
    pub args: Seq<Seq<char>>,
}

impl View for CommandLine {
    type V = CommandLineView;

    open spec fn view(&self) -> CommandLineView {
        CommandLineView { program: self.program@, args: strings_view(self.args@) }
    }
}

impl CommandLine {
    /// The call of `program` with no argument.
    pub fn new(program: &str) -> (c: Self)
        ensures
            c@ == (CommandLineView { program: program@, args: Seq::empty() }),
    {
        let c = CommandLine { program: String::from_str(program), args: Vec::new() };
        assert(c@.args =~= Seq::<Seq<char>>::empty());
        c
    }

    /// Adds one argument.
    pub fn arg(&mut self, arg: &str)
        ensures
            final(self)@ == (CommandLineView {
                program: old(self)@.program,
                args: old(self)@.args.push(arg@),
            }),
    {
        self.args.push(String::from_str(arg));
        assert(strings_view(self.args@) =~= old(self)@.args.push(arg@));
    }

    /// Adds arguments, in order.
    pub fn args(&mut self, args: &Vec<String>)
        ensures
            final(self)@ == (CommandLineView {
                program: old(self)@.program,
                args: old(self)@.args + strings_view(args@),
            }),
    {
        let mut i: usize = 0;
        assert(old(self)@.args + strings_view(args@).take(0) =~= old(self)@.args);
        while i < args.len()
            invariant
                0 <= i <= args.len(),
                self@.program == old(self)@.program,
                self@.args == old(self)@.args + strings_view(args@).take(i as int),
            decreases args.len() - i,
        {
            let ghost before = self@.args;
            self.args.push(args[i].clone());
            assert(strings_view(self.args@) =~= before.push(args@[i as int]@));
            assert(old(self)@.args + strings_view(args@).take(i + 1) =~= before.push(
                args@[i as int]@,
            ));
            i += 1;
        }
        assert(strings_view(args@).take(i as int) =~= strings_view(args@));
    }
}

} // verus!
