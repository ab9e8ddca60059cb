//! The command line: the program's name and one command.

use vstd::prelude::*;
use crate::error::BuildError;
use crate::text::{chars_of, same_chars};

verus! {

/// What the program is asked to do.
#[derive(Clone, Copy, Debug, PartialEq, Eq, Structural)]
pub enum Command {
    /// Read the metadata, then make the output tree anew.
    Build,
    /// Remove the output tree.
    Clean,
}

/// The command that the arguments ask for: the arguments are the program's
/// name and then `build` or `clean`, and nothing else.
pub open spec fn command_of(args: Seq<Seq<char>>) -> Option<Command> {
    if args.len() != 2 {
        None
    } else if args[1] == "build"@ {
        Some(Command::Build)
    } else if args[1] == "clean"@ {
        Some(Command::Clean)
    } else {
        None
    }
}

/// The text of each argument.
pub open spec fn texts(args: Seq<String>) -> Seq<Seq<char>> {
    args.map_values(|arg: String| arg@)
}

/// Reads the command from the arguments of the program, its own name first.
pub fn parse_command(args: &Vec<String>) -> (command: Result<Command, BuildError>)
    ensures
        command is Ok <==> command_of(texts(args@)) is Some,
        command is Ok ==> Some(command->Ok_0) == command_of(texts(args@)),
        command is Err ==> command->Err_0 is Usage,
{
    if args.len() != 2 {
        return Err(BuildError::Usage);
    }
    assert(texts(args@)[1] == args@[1]@);
    let word = chars_of(args[1].as_str());
    if same_chars(&word, &chars_of("build")) {
        Ok(Command::Build)
    } else if same_chars(&word, &chars_of("clean")) {
        Ok(Command::Clean)
    } else {
        Err(BuildError::Usage)
    }
}

} // verus!
