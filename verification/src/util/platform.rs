//! What differs between the platforms that the program runs on.

use vstd::prelude::*;

verus! {

/// The platform profile, chosen once when the program starts.
#[derive(Clone, Copy, Debug, PartialEq, Eq)]
pub enum Platform {
    /// Lines end with a line feed; the shell is `sh -c`.
    Posix,
    /// Lines end with a carriage return and a line feed; the shell is `cmd /C`.
    Windows,
}

impl Platform {
    /// The characters that end a line.
    pub open spec fn line_end(self) -> Seq<char> {
        match self {
            Platform::Posix => seq!['\n'],
            Platform::Windows => seq!['\r', '\n'],
        }
    }

    /// The name of the program that runs a command line.
    pub open spec fn shell(self) -> Seq<char> {
        match self {
            Platform::Posix => seq!['s', 'h'],
            Platform::Windows => seq!['c', 'm', 'd'],
        }
    }

    /// The argument that tells the shell to run what follows as a command.
    pub open spec fn run_flag(self) -> Seq<char> {
        match self {
            Platform::Posix => seq!['-', 'c'],
            Platform::Windows => seq!['/', 'C'],
        }
    }

    /// The characters that end a line.
    pub fn end_of_line_sequence(self) -> (s: &'static str)
        ensures
            s@ == self.line_end(),
    {
        proof {
            reveal_strlit("\n");
            reveal_strlit("\r\n");
        }
        match self {
            Platform::Posix => {
                let s = "\n";
                assert(s@ =~= seq!['\n']);
                s
            },
            Platform::Windows => {
                let s = "\r\n";
                assert(s@ =~= seq!['\r', '\n']);
                s
            },
        }
    }

    /// The name of the program that runs a command line.
    pub fn name_of_terminal_program(self) -> (s: &'static str)
        ensures
            s@ == self.shell(),
    {
        proof {
            reveal_strlit("sh");
            reveal_strlit("cmd");
        }
        match self {
            Platform::Posix => {
                let s = "sh";
                assert(s@ =~= seq!['s', 'h']);
                s
            },
            Platform::Windows => {
                let s = "cmd";
                assert(s@ =~= seq!['c', 'm', 'd']);
                s
            },
        }
    }

    /// The argument that tells the shell to run what follows as a command.
    pub fn run_as_command(self) -> (s: &'static str)
        ensures
            s@ == self.run_flag(),
    {
        proof {
            reveal_strlit("-c");
            reveal_strlit("/C");
        }
        match self {
            Platform::Posix => {
                let s = "-c";
                assert(s@ =~= seq!['-', 'c']);
                s
            },
            Platform::Windows => {
                let s = "/C";
                assert(s@ =~= seq!['/', 'C']);
                s
            },
        }
    }
}

} // verus!
