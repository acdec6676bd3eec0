//! The features of a flat model, as the feature extractor prints them.
use crate::command::{CommandLine, CommandLineView};
use crate::text::{chars_of, push_char, split, split_on, strings_view};
use vstd::prelude::*;
use vstd::string::StringExecFns;

verus! {

/// The call of the feature extractor on the flat model `fzn_model`.
pub fn get_fzn_to_feat_cmd(fzn_model: &str) -> (cmd: CommandLine)
    ensures
        cmd@ == (CommandLineView { program: "mzn2feat"@, args: seq!["-i"@, fzn_model@] }),
{
    let mut cmd = CommandLine::new("mzn2feat");
    cmd.arg("-i");
    cmd.arg(fzn_model);
    assert(cmd@.args =~= seq!["-i"@, fzn_model@]);
    cmd
}

/// `s` without its newlines.
pub open spec fn without_newlines(s: Seq<char>) -> Seq<char>
    decreases s.len(),
{
    if s.len() == 0 {
        Seq::empty()
    } else if s.last() == '\n' {
        without_newlines(s.drop_last())
    } else {
        without_newlines(s.drop_last()).push(s.last())
    }
}

/// The features that the extractor printed, each as it is written: the
/// output without its newlines, cut at the commas.
pub fn feature_fields(output: &str) -> (fields: Vec<String>)
    ensures
        strings_view(fields@) == split_on(without_newlines(output@), ','),
{
    let v = chars_of(output);
    let mut line = String::new();
    let mut i: usize = 0;
    assert(line@ =~= without_newlines(v@.take(0)));
    while i < v.len()
        invariant
            0 <= i <= v.len(),
            line@ == without_newlines(v@.take(i as int)),
        decreases v.len() - i,
    {
        assert(v@.take(i + 1).drop_last() =~= v@.take(i as int));
        if v[i] != '\n' {
            push_char(&mut line, v[i]);
        }
        i += 1;
    }
    assert(v@.take(i as int) =~= v@);
    split(line.as_str(), ',')
}

/// `fields` with a comma between one and the next.
pub open spec fn joined(fields: Seq<Seq<char>>) -> Seq<char>
    decreases fields.len(),
{
    if fields.len() == 0 {
        Seq::empty()
    } else if fields.len() == 1 {
        fields[0]
    } else {
        joined(fields.drop_last()) + seq![','] + fields.last()
    }
}

/// The features as one argument of a command: with a comma between one
/// and the next.
pub fn features_to_arg(fields: &Vec<String>) -> (arg: String)
    ensures
        arg@ == joined(strings_view(fields@)),
{
    let ghost fv = strings_view(fields@);
    let mut arg = String::new();
    let mut i: usize = 0;
    assert(arg@ =~= joined(fv.take(0)));
    while i < fields.len()
        invariant
            0 <= i <= fields.len(),
            fv == strings_view(fields@),
            arg@ == joined(fv.take(i as int)),
        decreases fields.len() - i,
    {
        assert(fv.take(i + 1).drop_last() =~= fv.take(i as int));
        assert(fv.take(i + 1).last() == fields@[i as int]@);
        if i > 0 {
            push_char(&mut arg, ',');
        }
        arg.append(fields[i].as_str());
        proof {
            if i == 0 {
                assert(fv.take(1)[0] == fields@[0]@);
                assert(arg@ =~= fields@[0]@);
            } else {
                assert(arg@ =~= joined(fv.take(i as int)) + seq![','] + fields@[i as int]@);
            }
        }
        i += 1;
    }
    assert(fv.take(i as int) =~= fv);
    arg
}

} // verus!
