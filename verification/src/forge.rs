//! The command lines of the build tool.

use vstd::prelude::*;

use crate::text::{join, joined, texts};

verus! {

/// The arguments of a command, in order.
#[derive(Debug, PartialEq)]
pub struct CommandArgs {
    args: Vec<String>,
}

impl View for CommandArgs {
    type V = Seq<Seq<char>>;

    closed spec fn view(&self) -> Seq<Seq<char>> {
        texts(self.args@)
    }
}

impl CommandArgs {
    /// No arguments.
    pub fn new() -> (r: CommandArgs)
        ensures
            r@ == Seq::<Seq<char>>::empty(),
    {
        let r = CommandArgs { args: Vec::new() };
        assert(r@ =~= Seq::<Seq<char>>::empty());
        r
    }

    /// Adds an argument behind the others.
    pub fn arg(&mut self, arg: &str)
        ensures
            final(self)@ == old(self)@.push(arg@),
    {
        let ghost before = self@;
        self.args.push(arg.to_string());
        assert(self@ =~= before.push(arg@));
    }

    /// The arguments one by one.
    pub fn into_args(self) -> (r: Vec<String>)
        ensures
            texts(r@) == self@,
    {
        self.args
    }

    /// The arguments with a space between each two.
    pub fn text(&self) -> (r: String)
        ensures
            r@ == joined(self@, " "@),
    {
        join(&self.args, " ")
    }
}

pub struct Forge {

}

impl Forge {
    /// Runs one test of a test file.
    pub fn test(function_name: &str, test_path: &str) -> (r: CommandArgs)
        ensures
            r@ == seq!["test"@, "--match-test"@, function_name@, "--match-path"@, test_path@],
    {
        let mut cmd = CommandArgs::new();
        cmd.arg("test");
        cmd.arg("--match-test");
        cmd.arg(function_name);
        cmd.arg("--match-path");
        cmd.arg(test_path);
        assert(cmd@ =~= seq![
            "test"@,
            "--match-test"@,
            function_name@,
            "--match-path"@,
            test_path@,
        ]);
        cmd
    }

    /// Runs one test of a test file without optimization, and writes its trace to `output_path`.
    pub fn debug(function_name: &str, test_path: &str, output_path: &str) -> (r: CommandArgs)
        ensures
            r@ == seq![
                "test"@,
                "--debug"@,
                "--match-test"@,
                function_name@,
                "--match-path"@,
                test_path@,
                "--dump"@,
                output_path@,
                "--ast"@,
                "--optimizer-runs"@,
                "0"@,
                "--optimize"@,
                "false"@,
            ],
    {
        let mut cmd = CommandArgs::new();
        cmd.arg("test");
        cmd.arg("--debug");
        cmd.arg("--match-test");
        cmd.arg(function_name);
        cmd.arg("--match-path");
        cmd.arg(test_path);
        cmd.arg("--dump");
        cmd.arg(output_path);
        cmd.arg("--ast");
        cmd.arg("--optimizer-runs");
        cmd.arg("0");
        cmd.arg("--optimize");
        cmd.arg("false");
        assert(cmd@ =~= seq![
            "test"@,
            "--debug"@,
            "--match-test"@,
            function_name@,
            "--match-path"@,
            test_path@,
            "--dump"@,
            output_path@,
            "--ast"@,
            "--optimizer-runs"@,
            "0"@,
            "--optimize"@,
            "false"@,
        ]);
        cmd
    }
}

} // verus!
