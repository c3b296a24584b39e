//! The shell that runs the commands of a file.
use crate::error::ShellError;
use crate::text::{join, spec_join, spec_split_whitespace, split_whitespace, views};
use vstd::prelude::*;

verus! {

/// The name under which a command finds the path of its file.
pub const TXTPP_FILE: &'static str = "TXTPP_FILE";

/// The shell that is used where none is asked for and paths are separated by `/`.
pub const DEFAULT_SHELL: &'static str = "sh -c";

/// Representation of a resolved shell command like `sh -c` or `cmd /C`
/// that takes a command as argument.
#[derive(Debug)]
pub struct Shell {
    /// The shell executable
    exe: String,
    /// The arguments of the shell executable (for example, `-c`)
    args: Vec<String>,
}

/// A [`Shell`] as plain values.
pub struct ShellView {
    pub exe: Seq<char>,
    pub args: Seq<Seq<char>>,
}

impl View for Shell {
    type V = ShellView;

    closed spec fn view(&self) -> ShellView {
        ShellView { exe: self.exe@, args: views(self.args@) }
    }
}

impl Shell {
    /// The executable that a shell command names: its first word.
    pub fn executable(cmd: &str) -> (r: Option<String>)
        ensures
            match r {
                Some(exe) => spec_split_whitespace(cmd@).len() > 0 && exe@ == spec_split_whitespace(
                    cmd@,
                )[0],
                None => spec_split_whitespace(cmd@).len() == 0,
            },
    {
        let mut words = split_whitespace(cmd);
        if words.len() == 0 {
            None
        } else {
            let exe = words.swap_remove(0);
            Some(exe)
        }
    }

    /// Create a new shell from the given command
    ///
    /// The first word of the command is the executable, the others are
    /// its arguments. `resolved` is the absolute path of the executable,
    /// `None` where it could not be found. A command without a word names
    /// no executable.
    pub fn new(cmd: &str, resolved: Option<String>) -> (r: Result<Self, ShellError>)
        ensures
            match r {
                Ok(shell) => spec_split_whitespace(cmd@).len() > 0 && resolved is Some && shell@
                    == (ShellView {
                    exe: resolved->0@,
                    args: spec_split_whitespace(cmd@).skip(1),
                }),
                Err(e) => (spec_split_whitespace(cmd@).len() == 0 || resolved is None) && e
                    == ShellError::ResolveError,
            },
    {
        // split the command into the executable and the arguments
        let mut words = split_whitespace(cmd);
        if words.len() == 0 {
            return Err(ShellError::ResolveError);
        }
        let exe = match resolved {
            Some(exe) => exe,
            None => {
                return Err(ShellError::ResolveError);
            },
        };
        let ghost all = views(words@);
        words.remove(0);
        assert(views(words@) =~= all.skip(1));
        Ok(Self { exe, args: words })
    }

    /// The path of the executable.
    pub fn exe(&self) -> (r: &str)
        ensures
            r@ == self@.exe,
    {
        self.exe.as_str()
    }

    /// The arguments that go before the command.
    pub fn args(&self) -> (r: &Vec<String>)
        ensures
            views(r@) == self@.args,
    {
        &self.args
    }

    /// The shell as it is shown: the executable, a space, and the
    /// arguments with a space between every two.
    pub fn to_string(&self) -> (r: String)
        ensures
            r@ == self@.exe + " "@ + spec_join(self@.args, " "@),
    {
        let mut s = self.exe.clone();
        s.append(" ");
        s.append(join(&self.args, " ").as_str());
        s
    }
}

} // verus!
