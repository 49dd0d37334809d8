//! The interpreter of the command line.
//!
//! The arguments are a chain of commands: a verb, an optional flag cluster,
//! and the arguments of the verb. The commands are carried out from left to
//! right on the alias table, and the first failure ends the run; what earlier
//! commands did to the table stays done.
//!
//! Two verbs need work that the interpreter cannot do itself: `help` wants the
//! usage text printed, `execute` wants a shell started. There the run is
//! suspended with a request, and goes on when the caller reports back.
//!
//! The flags: `f` lets `add` overwrite an alias that exists and lets `change`
//! create one that does not. With `i` a failure of the command is passed
//! over: the table stays as it was, the arguments of the command are skipped
//! as far as they are there, and the run goes on with the next verb. A
//! cluster that sets a flag twice is refused as an invalid command.
//!
//! Neither a name nor a command text may be empty: where an empty argument
//! would enter the table, it counts as missing.

use crate::alias_table::{well_formed, AliasTable};
use crate::args_parsing::flags::{no_flags, parse_flags, parse_flags_spec, Flags};
use crate::util::platform::Platform;
use crate::util::text::{append_decimal, decimal, str_eq};
use crate::util::words::{split_whitespace, texts, words};
use vstd::prelude::*;
use vstd::string::*;

verus! {

/// Why the command line could not be carried out. The numbers count the
/// arguments read so far, from 1.
#[derive(Debug, Eq, PartialOrd, PartialEq, Ord, Hash, Clone)]
pub enum CommandLineArgumentErrorCode {
    /// The command lacks the name of an alias.
    MissingNameArgument(usize),
    /// The command lacks the command text of an alias.
    MissingContentArgument(usize),
    /// The shell could not be started; with what the operating system said.
    FailedExecute(String, usize),
    /// `remove` names an alias that does not exist.
    CannotRemoveNonExistentValue(String, usize),
    /// `execute` names an alias that does not exist.
    InvalidAliasName(String, usize),
    /// `change` names an alias that does not exist.
    AliasDoesNotExist(String, usize),
    /// `add` names an alias that exists.
    AliasAlreadyExists(String, usize),
    /// The argument is no verb, or a flag cluster that sets a flag twice.
    InvalidCommand(String, usize),
    /// The only argument is no verb.
    NoValidArgs,
    /// There are no arguments.
    NoArgs,
}

/// A `CommandLineArgumentErrorCode` as contracts see it.
pub ghost enum ArgumentError {
    MissingNameArgument(usize),
    MissingContentArgument(usize),
    FailedExecute(Seq<char>, usize),
    CannotRemoveNonExistentValue(Seq<char>, usize),
    InvalidAliasName(Seq<char>, usize),
    AliasDoesNotExist(Seq<char>, usize),
    AliasAlreadyExists(Seq<char>, usize),
    InvalidCommand(Seq<char>, usize),
    NoValidArgs,
    NoArgs,
}

impl View for CommandLineArgumentErrorCode {
    type V = ArgumentError;

    open spec fn view(&self) -> ArgumentError {
        match *self {
            CommandLineArgumentErrorCode::MissingNameArgument(v) => ArgumentError::MissingNameArgument(v),
            CommandLineArgumentErrorCode::MissingContentArgument(v) => ArgumentError::MissingContentArgument(v),
            CommandLineArgumentErrorCode::FailedExecute(s, v) => ArgumentError::FailedExecute(s@, v),
            CommandLineArgumentErrorCode::CannotRemoveNonExistentValue(s, v) => ArgumentError::CannotRemoveNonExistentValue(s@, v),
            CommandLineArgumentErrorCode::InvalidAliasName(s, v) => ArgumentError::InvalidAliasName(s@, v),
            CommandLineArgumentErrorCode::AliasDoesNotExist(s, v) => ArgumentError::AliasDoesNotExist(s@, v),
            CommandLineArgumentErrorCode::AliasAlreadyExists(s, v) => ArgumentError::AliasAlreadyExists(s@, v),
            CommandLineArgumentErrorCode::InvalidCommand(s, v) => ArgumentError::InvalidCommand(s@, v),
            CommandLineArgumentErrorCode::NoValidArgs => ArgumentError::NoValidArgs,
            CommandLineArgumentErrorCode::NoArgs => ArgumentError::NoArgs,
        }
    }
}

/// What a command does.
#[derive(Clone, Copy, Debug, PartialEq, Eq)]
pub enum Verb {
    /// `add`, `a`: a new alias.
    Add,
    /// `remove`, `r`: an alias less.
    Remove,
    /// `execute`, `e`: run the command text of an alias.
    Execute,
    /// `change`, `c`: a new command text for an alias.
    Change,
    /// `help`, `h`: the usage text.
    Help,
}

/// Work that the interpreter asks its caller to do.
#[derive(Debug, PartialEq, Eq, Clone)]
pub enum Request {
    /// Print the usage text.
    PrintHelp,
    /// Start `program` with `arguments`, and do not wait for it.
    Spawn { program: String, arguments: Vec<String> },
}

/// A `Request` as contracts see it.
pub ghost enum RequestView {
    PrintHelp,
    Spawn { program: Seq<char>, arguments: Seq<Seq<char>> },
}

impl View for Request {
    type V = RequestView;

    open spec fn view(&self) -> RequestView {
        match *self {
            Request::PrintHelp => RequestView::PrintHelp,
            Request::Spawn { program, arguments } => RequestView::Spawn {
                program: program@,
                arguments: texts(arguments@),
            },
        }
    }
}

/// What the caller reports when it has done what was asked.
#[derive(Debug, PartialEq, Eq, Clone)]
pub enum Reply {
    /// The work is done: the text is printed, or the shell was started.
    Completed,
    /// The shell could not be started; with what the operating system said.
    SpawnFailed(String),
}

/// A run of the interpreter that is waiting for its caller.
pub struct Session {
    tokens: Vec<String>,
    position: usize,
    platform: Platform,
    spawn: Option<(usize, bool)>,
}

/// A `Session` as contracts see it.
pub ghost struct SessionView {
    /// The arguments of the command line.
    pub tokens: Seq<Seq<char>>,
    /// How many of them have been read.
    pub position: nat,
    /// The platform that the run is for.
    pub platform: Platform,
    /// Where the run waits for a shell to be started: the number of the
    /// argument that asked for it, and whether its command ignores errors.
    pub spawn: Option<(usize, bool)>,
}

impl View for Session {
    type V = SessionView;

    closed spec fn view(&self) -> SessionView {
        SessionView {
            tokens: texts(self.tokens@),
            position: self.position as nat,
            platform: self.platform,
            spawn: self.spawn,
        }
    }
}

/// How far a run has come.
pub enum Progress {
    /// All arguments are read and every command is carried out.
    Finished,
    /// The run waits for the caller to do what is asked.
    Suspended(Session, Request),
}

/// A `Progress` as contracts see it.
pub ghost enum ProgressView {
    Finished,
    Suspended(SessionView, RequestView),
}

impl View for Progress {
    type V = ProgressView;

    open spec fn view(&self) -> ProgressView {
        match *self {
            Progress::Finished => ProgressView::Finished,
            Progress::Suspended(session, request) => ProgressView::Suspended(session@, request@),
        }
    }
}

/// The verb that a token spells, if any. Capitals count.
pub open spec fn verb_of(token: Seq<char>) -> Option<Verb> {
    if token == "a"@ || token == "add"@ {
        Some(Verb::Add)
    } else if token == "r"@ || token == "remove"@ {
        Some(Verb::Remove)
    } else if token == "e"@ || token == "execute"@ {
        Some(Verb::Execute)
    } else if token == "c"@ || token == "change"@ {
        Some(Verb::Change)
    } else if token == "h"@ || token == "help"@ {
        Some(Verb::Help)
    } else {
        None
    }
}

/// The token is a flag cluster.
pub open spec fn starts_flag_cluster(token: Seq<char>) -> bool {
    token.len() > 0 && token[0] == '-'
}

/// What one step of a command comes to: how many arguments are read, the
/// table, and whether the run goes on (`Ok(None)`), waits for its caller
/// (`Ok(Some(..))`) or ends in failure.
pub ghost struct Handled {
    pub position: nat,
    pub table: Map<Seq<char>, Seq<char>>,
    pub result: Result<Option<RequestView>, ArgumentError>,
    pub spawn: Option<(usize, bool)>,
}

/// A failure after `position` arguments, which leaves the table as it is.
pub open spec fn failed(
    position: nat,
    table: Map<Seq<char>, Seq<char>>,
    error: ArgumentError,
) -> Handled {
    Handled { position, table, result: Err(error), spawn: None }
}

/// Reading the optional flag cluster of a command whose verb ends at
/// `position`. A cluster that sets a flag twice is an invalid command.
pub open spec fn read_flags_spec(tokens: Seq<Seq<char>>, position: nat) -> (nat, Result<
    Flags,
    ArgumentError,
>) {
    if position < tokens.len() && starts_flag_cluster(tokens[position as int]) {
        (
            position + 1,
            match parse_flags_spec(tokens[position as int]) {
                Ok(flags) => Ok(flags),
                Err(_) => Err(
                    ArgumentError::InvalidCommand(tokens[position as int], (position + 1) as usize),
                ),
            },
        )
    } else {
        (position, Ok(no_flags()))
    }
}

/// `add` behind its flags: the name, which must be new unless `force` is
/// set, then the command text.
pub open spec fn add_behind_flags(
    tokens: Seq<Seq<char>>,
    position: nat,
    table: Map<Seq<char>, Seq<char>>,
    force: bool,
) -> Handled {
    let p = position as int;
    if p >= tokens.len() {
        failed(position, table, ArgumentError::MissingNameArgument(position as usize))
    } else if table.contains_key(tokens[p]) && !force {
        failed(position + 1, table, ArgumentError::AliasAlreadyExists(tokens[p], (p + 1) as usize))
    } else if tokens[p].len() == 0 {
        failed(position + 1, table, ArgumentError::MissingNameArgument((p + 1) as usize))
    } else if p + 1 >= tokens.len() {
        failed(position + 1, table, ArgumentError::MissingContentArgument((p + 1) as usize))
    } else if tokens[p + 1].len() == 0 {
        failed(position + 2, table, ArgumentError::MissingContentArgument((p + 2) as usize))
    } else {
        Handled {
            position: position + 2,
            table: table.insert(tokens[p], tokens[p + 1]),
            result: Ok(None),
            spawn: None,
        }
    }
}

/// `change` behind its flags: the name, which must exist unless `force` is
/// set, then the new command text.
pub open spec fn change_behind_flags(
    tokens: Seq<Seq<char>>,
    position: nat,
    table: Map<Seq<char>, Seq<char>>,
    force: bool,
) -> Handled {
    let p = position as int;
    if p >= tokens.len() {
        failed(position, table, ArgumentError::MissingNameArgument(position as usize))
    } else if !table.contains_key(tokens[p]) && !force {
        failed(position + 1, table, ArgumentError::AliasDoesNotExist(tokens[p], (p + 1) as usize))
    } else if tokens[p].len() == 0 {
        failed(position + 1, table, ArgumentError::MissingNameArgument((p + 1) as usize))
    } else if p + 1 >= tokens.len() {
        failed(position + 1, table, ArgumentError::MissingContentArgument((p + 1) as usize))
    } else if tokens[p + 1].len() == 0 {
        failed(position + 2, table, ArgumentError::MissingContentArgument((p + 2) as usize))
    } else {
        Handled {
            position: position + 2,
            table: table.insert(tokens[p], tokens[p + 1]),
            result: Ok(None),
            spawn: None,
        }
    }
}

/// `remove` behind its flags: the name, which must exist.
pub open spec fn remove_behind_flags(
    tokens: Seq<Seq<char>>,
    position: nat,
    table: Map<Seq<char>, Seq<char>>,
) -> Handled {
    let p = position as int;
    if p >= tokens.len() {
        failed(position, table, ArgumentError::MissingNameArgument(position as usize))
    } else if !table.contains_key(tokens[p]) {
        failed(
            position + 1,
            table,
            ArgumentError::CannotRemoveNonExistentValue(tokens[p], (p + 1) as usize),
        )
    } else {
        Handled {
            position: position + 1,
            table: table.remove(tokens[p]),
            result: Ok(None),
            spawn: None,
        }
    }
}

/// `execute` behind its flags: the name, which must exist. The shell of the
/// platform is asked for, with its flag for running a command and then the
/// words of the command text.
pub open spec fn execute_behind_flags(
    tokens: Seq<Seq<char>>,
    position: nat,
    table: Map<Seq<char>, Seq<char>>,
    platform: Platform,
    ignore_errors: bool,
) -> Handled {
    let p = position as int;
    if p >= tokens.len() {
        failed(position, table, ArgumentError::MissingNameArgument(position as usize))
    } else if !table.contains_key(tokens[p]) {
        failed(position + 1, table, ArgumentError::InvalidAliasName(tokens[p], (p + 1) as usize))
    } else {
        Handled {
            position: position + 1,
            table,
            result: Ok(
                Some(
                    RequestView::Spawn {
                        program: platform.shell(),
                        arguments: seq![platform.run_flag()] + words(table[tokens[p]]),
                    },
                ),
            ),
            spawn: Some(((p + 1) as usize, ignore_errors)),
        }
    }
}

/// How many arguments a verb takes behind its flags.
pub open spec fn arity(verb: Verb) -> nat {
    match verb {
        Verb::Add => 2,
        Verb::Change => 2,
        Verb::Remove => 1,
        Verb::Execute => 1,
        Verb::Help => 0,
    }
}

/// The position behind `count` arguments from `position`, or behind the last
/// argument where fewer are left.
pub open spec fn skip_arguments(length: nat, position: nat, count: nat) -> nat {
    if position + count <= length {
        position + count
    } else if position <= length {
        length
    } else {
        position
    }
}

/// One command whose verb ends at `position`: `help` asks for the usage text
/// and reads nothing; every other verb reads its flags and then its
/// arguments. With the flag `i` a failure behind the flags is passed over:
/// the table stays, and the arguments of the command are skipped.
pub open spec fn command_spec(
    verb: Verb,
    tokens: Seq<Seq<char>>,
    position: nat,
    table: Map<Seq<char>, Seq<char>>,
    platform: Platform,
) -> Handled {
    if verb == Verb::Help {
        Handled { position, table, result: Ok(Some(RequestView::PrintHelp)), spawn: None }
    } else {
        let (start, flags) = read_flags_spec(tokens, position);
        match flags {
            Err(e) => failed(start, table, e),
            Ok(flags) => {
                let handled = match verb {
                    Verb::Add => add_behind_flags(tokens, start, table, flags.force),
                    Verb::Change => change_behind_flags(tokens, start, table, flags.force),
                    Verb::Remove => remove_behind_flags(tokens, start, table),
                    _ => execute_behind_flags(tokens, start, table, platform, flags.ignore_errors),
                };
                if handled.result is Err && flags.ignore_errors {
                    Handled {
                        position: skip_arguments(tokens.len(), start, arity(verb)),
                        table,
                        result: Ok(None),
                        spawn: None,
                    }
                } else {
                    handled
                }
            },
        }
    }
}

/// How a run ends or where it waits, and the table at that moment.
pub ghost struct Outcome {
    pub table: Map<Seq<char>, Seq<char>>,
    pub result: Result<ProgressView, ArgumentError>,
}

/// Carrying out the commands from `position` on: until all arguments are
/// read, a command asks for work of the caller, a command fails, or an
/// argument in the place of a verb is none.
pub open spec fn run(
    tokens: Seq<Seq<char>>,
    position: nat,
    table: Map<Seq<char>, Seq<char>>,
    platform: Platform,
) -> Outcome
    decreases tokens.len() - position,
    via run_decreases
{
    if position >= tokens.len() {
        Outcome { table, result: Ok(ProgressView::Finished) }
    } else {
        match verb_of(tokens[position as int]) {
            None => Outcome {
                table,
                result: Err(
                    ArgumentError::InvalidCommand(tokens[position as int], (position + 1) as usize),
                ),
            },
            Some(verb) => {
                let handled = command_spec(verb, tokens, position + 1, table, platform);
                match handled.result {
                    Err(e) => Outcome { table: handled.table, result: Err(e) },
                    Ok(Some(request)) => Outcome {
                        table: handled.table,
                        result: Ok(
                            ProgressView::Suspended(
                                SessionView {
                                    tokens,
                                    position: handled.position,
                                    platform,
                                    spawn: handled.spawn,
                                },
                                request,
                            ),
                        ),
                    },
                    Ok(None) => run(tokens, handled.position, handled.table, platform),
                }
            },
        }
    }
}

#[via_fn]
proof fn run_decreases(
    tokens: Seq<Seq<char>>,
    position: nat,
    table: Map<Seq<char>, Seq<char>>,
    platform: Platform,
) {
    if position < tokens.len() {
        match verb_of(tokens[position as int]) {
            None => {},
            Some(verb) => {
                lemma_command_advances(verb, tokens, position + 1, table, platform);
            },
        }
    }
}

/// A command never goes back in the arguments.
pub proof fn lemma_command_advances(
    verb: Verb,
    tokens: Seq<Seq<char>>,
    position: nat,
    table: Map<Seq<char>, Seq<char>>,
    platform: Platform,
)
    ensures
        command_spec(verb, tokens, position, table, platform).position >= position,
{
}

/// The run of a command line from its start. No argument at all is a
/// failure. A first argument that is no verb is passed over, once, unless it
/// is the only argument.
pub open spec fn interpret(
    tokens: Seq<Seq<char>>,
    table: Map<Seq<char>, Seq<char>>,
    platform: Platform,
) -> Outcome {
    if tokens.len() == 0 {
        Outcome { table, result: Err(ArgumentError::NoArgs) }
    } else if verb_of(tokens[0]) is Some {
        run(tokens, 0, table, platform)
    } else if tokens.len() == 1 {
        Outcome { table, result: Err(ArgumentError::NoValidArgs) }
    } else {
        run(tokens, 1, table, platform)
    }
}

/// The failure that the caller reports, as contracts see it.
pub open spec fn reported_failure(reply: Reply) -> Option<Seq<char>> {
    match reply {
        Reply::Completed => None,
        Reply::SpawnFailed(text) => Some(text@),
    }
}

/// How a suspended run goes on when the caller has reported. A shell that
/// could not be started ends the run, unless the command ignores errors;
/// such a report where no shell was asked for means nothing.
pub open spec fn resume_spec(
    session: SessionView,
    failure: Option<Seq<char>>,
    table: Map<Seq<char>, Seq<char>>,
) -> Outcome {
    match (session.spawn, failure) {
        (Some((argument, false)), Some(text)) => Outcome {
            table,
            result: Err(ArgumentError::FailedExecute(text, argument)),
        },
        _ => run(session.tokens, session.position, table, session.platform),
    }
}

/// `r` is what `expected` says.
pub open spec fn progressed_as(
    r: Result<Progress, CommandLineArgumentErrorCode>,
    expected: Result<ProgressView, ArgumentError>,
) -> bool {
    match (r, expected) {
        (Ok(progress), Ok(wanted)) => progress@ == wanted,
        (Err(e), Err(wanted)) => e@ == wanted,
        _ => false,
    }
}

/// A command line without arguments fails with `NoArgs`, and the table stays
/// as it is.
pub proof fn lemma_no_arguments(table: Map<Seq<char>, Seq<char>>, platform: Platform)
    ensures
        interpret(Seq::empty(), table, platform) == (Outcome {
            table,
            result: Err(ArgumentError::NoArgs),
        }),
{
}

/// A command line whose only argument is no verb fails with `NoValidArgs`,
/// and the table stays as it is.
pub proof fn lemma_single_argument_no_verb(
    token: Seq<char>,
    table: Map<Seq<char>, Seq<char>>,
    platform: Platform,
)
    requires
        verb_of(token) is None,
    ensures
        interpret(seq![token], table, platform) == (Outcome {
            table,
            result: Err(ArgumentError::NoValidArgs),
        }),
{
}

/// The command line `help` asks for the usage text and, when that is printed,
/// is finished; the table is the same throughout.
pub proof fn lemma_help_alone(table: Map<Seq<char>, Seq<char>>, platform: Platform)
    ensures
        interpret(seq!["help"@], table, platform).table == table,
        interpret(seq!["help"@], table, platform).result == Ok::<ProgressView, ArgumentError>(
            ProgressView::Suspended(
                SessionView { tokens: seq!["help"@], position: 1, platform, spawn: None },
                RequestView::PrintHelp,
            ),
        ),
        resume_spec(
            SessionView { tokens: seq!["help"@], position: 1, platform, spawn: None },
            None,
            table,
        ) == (Outcome { table, result: Ok(ProgressView::Finished) }),
{
    reveal_strlit("help");
    reveal_strlit("a");
    reveal_strlit("add");
    reveal_strlit("r");
    reveal_strlit("remove");
    reveal_strlit("e");
    reveal_strlit("execute");
    reveal_strlit("c");
    reveal_strlit("change");
    reveal_strlit("h");
    let tokens = seq!["help"@];
    assert("help"@.len() == 4);
    assert("a"@.len() == 1 && "add"@.len() == 3);
    assert("r"@.len() == 1 && "remove"@.len() == 6);
    assert("e"@.len() == 1 && "execute"@.len() == 7);
    assert("c"@.len() == 1 && "change"@.len() == 6);
    assert(verb_of(tokens[0]) == Some(Verb::Help));
    assert(run(tokens, 1, table, platform) == (Outcome {
        table,
        result: Ok(ProgressView::Finished),
    }));
}

/// No command brings an empty name or an empty command text into the table.
pub proof fn lemma_command_keeps_well_formed(
    verb: Verb,
    tokens: Seq<Seq<char>>,
    position: nat,
    table: Map<Seq<char>, Seq<char>>,
    platform: Platform,
)
    requires
        well_formed(table),
    ensures
        well_formed(command_spec(verb, tokens, position, table, platform).table),
{
}

/// A run leaves the table well formed: after it, as before it, no name and no
/// command text is empty, however the run ends.
pub proof fn lemma_run_keeps_well_formed(
    tokens: Seq<Seq<char>>,
    position: nat,
    table: Map<Seq<char>, Seq<char>>,
    platform: Platform,
)
    requires
        well_formed(table),
    ensures
        well_formed(run(tokens, position, table, platform).table),
    decreases tokens.len() - position,
{
    if position < tokens.len() {
        match verb_of(tokens[position as int]) {
            None => {},
            Some(verb) => {
                let handled = command_spec(verb, tokens, position + 1, table, platform);
                lemma_command_keeps_well_formed(verb, tokens, position + 1, table, platform);
                lemma_command_advances(verb, tokens, position + 1, table, platform);
                if handled.result == Ok::<Option<RequestView>, ArgumentError>(None) {
                    lemma_run_keeps_well_formed(tokens, handled.position, handled.table, platform);
                }
            },
        }
    }
}

/// A command line leaves the table well formed, from its start and from
/// wherever it was suspended.
pub proof fn lemma_interpret_keeps_well_formed(
    tokens: Seq<Seq<char>>,
    table: Map<Seq<char>, Seq<char>>,
    platform: Platform,
    session: SessionView,
    failure: Option<Seq<char>>,
)
    requires
        well_formed(table),
    ensures
        well_formed(interpret(tokens, table, platform).table),
        well_formed(resume_spec(session, failure, table).table),
{
    lemma_run_keeps_well_formed(tokens, 0, table, platform);
    lemma_run_keeps_well_formed(tokens, 1, table, platform);
    lemma_run_keeps_well_formed(session.tokens, session.position, table, session.platform);
}

/// The message for `err`, with lines ending in `line_end`.
pub open spec fn command_line_error_message(err: ArgumentError, line_end: Seq<char>) -> Seq<char> {
    match err {
        ArgumentError::MissingNameArgument(v) => "You did not supply a name argument for command. Error occurred at argument number "@
            + decimal(v as nat),
        ArgumentError::MissingContentArgument(v) => "You did not supply a content argument for command. Error occurred at argument number "@
            + decimal(v as nat),
        ArgumentError::FailedExecute(error, v) => "Execution of execute command failed. Error occurred at argument number "@
            + decimal(v as nat) + ". Here is the error the OS returned."@ + line_end + line_end
            + error,
        ArgumentError::CannotRemoveNonExistentValue(name, v) => "Error removing alias of name "@
            + name
            + ". This alias had no value associated with it and thus could not be removed. Error occurred at argument number "@
            + decimal(v as nat),
        ArgumentError::InvalidAliasName(name, v) => "Alias with name "@ + name
            + " has no content associated with it and thus cannot be executed. Error occurred at argument number "@
            + decimal(v as nat),
        ArgumentError::AliasDoesNotExist(name, v) => "Cannot change alias with name "@ + name
            + " because it does not exist. Error occurred at argument number "@ + decimal(
            v as nat,
        ),
        ArgumentError::AliasAlreadyExists(name, v) => "Cannot create alias with name "@ + name
            + " that already exists. Error occurred at argument number "@ + decimal(v as nat),
        ArgumentError::InvalidCommand(name, v) => "Command with name "@ + name
            + " does not exist. Error occurred at argument number "@ + decimal(v as nat),
        ArgumentError::NoValidArgs => "You passed no valid arguments to Alia."@,
        ArgumentError::NoArgs => "You did not pass any args to Alia."@,
    }
}

/// Puts `name` between `front` and `back`, and the number `v` behind them.
fn message_about(front: &str, name: &str, back: &str, v: usize) -> (message: String)
    ensures
        message@ == front@ + name@ + back@ + decimal(v as nat),
{
    let mut message = String::from_str(front);
    message.append(name);
    message.append(back);
    append_decimal(&mut message, v);
    message
}

/// The message for `err`, as `platform` ends its lines.
pub fn command_line_error_to_string(err: &CommandLineArgumentErrorCode, platform: Platform) -> (message:
    String)
    ensures
        message@ == command_line_error_message(err@, platform.line_end()),
{
    match err {
        CommandLineArgumentErrorCode::MissingNameArgument(v) => {
            let mut message = String::from_str(
                "You did not supply a name argument for command. Error occurred at argument number ",
            );
            append_decimal(&mut message, *v);
            message
        },
        CommandLineArgumentErrorCode::MissingContentArgument(v) => {
            let mut message = String::from_str(
                "You did not supply a content argument for command. Error occurred at argument number ",
            );
            append_decimal(&mut message, *v);
            message
        },
        CommandLineArgumentErrorCode::FailedExecute(error, v) => {
            let mut message = String::from_str(
                "Execution of execute command failed. Error occurred at argument number ",
            );
            append_decimal(&mut message, *v);
            message.append(". Here is the error the OS returned.");
            message.append(platform.end_of_line_sequence());
            message.append(platform.end_of_line_sequence());
            message.append(error.as_str());
            message
        },
        CommandLineArgumentErrorCode::CannotRemoveNonExistentValue(name, v) => message_about(
            "Error removing alias of name ",
            name.as_str(),
            ". This alias had no value associated with it and thus could not be removed. Error occurred at argument number ",
            *v,
        ),
        CommandLineArgumentErrorCode::InvalidAliasName(name, v) => message_about(
            "Alias with name ",
            name.as_str(),
            " has no content associated with it and thus cannot be executed. Error occurred at argument number ",
            *v,
        ),
        CommandLineArgumentErrorCode::AliasDoesNotExist(name, v) => message_about(
            "Cannot change alias with name ",
            name.as_str(),
            " because it does not exist. Error occurred at argument number ",
            *v,
        ),
        CommandLineArgumentErrorCode::AliasAlreadyExists(name, v) => message_about(
            "Cannot create alias with name ",
            name.as_str(),
            " that already exists. Error occurred at argument number ",
            *v,
        ),
        CommandLineArgumentErrorCode::InvalidCommand(name, v) => message_about(
            "Command with name ",
            name.as_str(),
            " does not exist. Error occurred at argument number ",
            *v,
        ),
        CommandLineArgumentErrorCode::NoValidArgs => String::from_str(
            "You passed no valid arguments to Alia.",
        ),
        CommandLineArgumentErrorCode::NoArgs => String::from_str(
            "You did not pass any args to Alia.",
        ),
    }
}

/// The session is `before` but for the arguments read and what it waits
/// for, and these, the table and the result are what `handled` says.
pub open spec fn handled_as(
    before: SessionView,
    after: SessionView,
    table: Map<Seq<char>, Seq<char>>,
    result: Result<Option<RequestView>, ArgumentError>,
    handled: Handled,
) -> bool {
    &&& after.tokens == before.tokens
    &&& after.platform == before.platform
    &&& after.position == handled.position
    &&& after.spawn == handled.spawn
    &&& table == handled.table
    &&& result == handled.result
}

/// As `handled_as`, for the part of a command behind its flags, which leaves
/// what the session waits for as it is unless it asks for a shell.
pub open spec fn arguments_handled_as(
    before: SessionView,
    after: SessionView,
    table: Map<Seq<char>, Seq<char>>,
    result: Result<Option<RequestView>, ArgumentError>,
    handled: Handled,
) -> bool {
    &&& after.tokens == before.tokens
    &&& after.platform == before.platform
    &&& after.position == handled.position
    &&& after.spawn == (if handled.spawn is Some {
        handled.spawn
    } else {
        before.spawn
    })
    &&& table == handled.table
    &&& result == handled.result
}

/// The result of a command that asks nothing of the caller, as contracts see
/// it.
pub open spec fn plain_result(r: Result<(), CommandLineArgumentErrorCode>) -> Result<
    Option<RequestView>,
    ArgumentError,
> {
    match r {
        Ok(()) => Ok(None),
        Err(e) => Err(e@),
    }
}

/// The result of a command that may ask something of the caller, as contracts
/// see it.
pub open spec fn request_result(r: Result<Option<Request>, CommandLineArgumentErrorCode>) -> Result<
    Option<RequestView>,
    ArgumentError,
> {
    match r {
        Ok(None) => Ok(None),
        Ok(Some(request)) => Ok(Some(request@)),
        Err(e) => Err(e@),
    }
}

/// Whether `token` is a flag cluster.
fn is_flag_cluster(token: &str) -> (r: bool)
    ensures
        r == starts_flag_cluster(token@),
{
    !token.is_empty() && token.get_char(0) == '-'
}

/// The verb that `arg` spells, if any.
pub fn parse_arg(arg: &str) -> (r: Option<Verb>)
    ensures
        r == verb_of(arg@),
{
    if str_eq(arg, "a") || str_eq(arg, "add") {
        Some(Verb::Add)
    } else if str_eq(arg, "r") || str_eq(arg, "remove") {
        Some(Verb::Remove)
    } else if str_eq(arg, "e") || str_eq(arg, "execute") {
        Some(Verb::Execute)
    } else if str_eq(arg, "c") || str_eq(arg, "change") {
        Some(Verb::Change)
    } else if str_eq(arg, "h") || str_eq(arg, "help") {
        Some(Verb::Help)
    } else {
        None
    }
}

/// Takes the next argument, if one is left.
pub fn get_next_arg(args: &mut Session) -> (r: Option<String>)
    ensures
        final(args)@.tokens == old(args)@.tokens,
        final(args)@.platform == old(args)@.platform,
        final(args)@.spawn == old(args)@.spawn,
        match r {
            Some(token) => old(args)@.position < old(args)@.tokens.len() && token@ == old(
                args,
            )@.tokens[old(args)@.position as int] && final(args)@.position == old(args)@.position
                + 1,
            None => old(args)@.position >= old(args)@.tokens.len() && final(args)@.position == old(
                args,
            )@.position,
        },
{
    if args.position < args.tokens.len() {
        let res = args.tokens[args.position].clone();
        args.position += 1;
        Some(res)
    } else {
        None
    }
}

/// Takes the flag cluster of the command, if the next argument is one.
pub fn read_flags(args: &mut Session) -> (r: Result<Flags, CommandLineArgumentErrorCode>)
    ensures
        final(args)@.tokens == old(args)@.tokens,
        final(args)@.platform == old(args)@.platform,
        final(args)@.spawn == old(args)@.spawn,
        final(args)@.position == read_flags_spec(old(args)@.tokens, old(args)@.position).0,
        match (r, read_flags_spec(old(args)@.tokens, old(args)@.position).1) {
            (Ok(flags), Ok(wanted)) => flags == wanted,
            (Err(e), Err(wanted)) => e@ == wanted,
            _ => false,
        },
{
    if args.position < args.tokens.len() && is_flag_cluster(args.tokens[args.position].as_str()) {
        let cluster = args.tokens[args.position].clone();
        args.position += 1;
        match parse_flags(cluster.as_str(), args.position) {
            Ok(flags) => Ok(flags),
            Err(_) => Err(CommandLineArgumentErrorCode::InvalidCommand(cluster, args.position)),
        }
    } else {
        Ok(Flags::default())
    }
}

/// The arguments of `add`, behind its flags: a name and a command text.
fn add_named(args: &mut Session, cfg: &mut AliasTable, force: bool) -> (r: Result<
    (),
    CommandLineArgumentErrorCode,
>)
    ensures
        arguments_handled_as(
            old(args)@,
            final(args)@,
            final(cfg)@,
            plain_result(r),
            add_behind_flags(old(args)@.tokens, old(args)@.position, old(cfg)@, force),
        ),
{
    let name_of_alias = match get_next_arg(args) {
        Some(name) => name,
        None => {
            return Err(CommandLineArgumentErrorCode::MissingNameArgument(args.position));
        },
    };
    if cfg.contains_key(name_of_alias.as_str()) && !force {
        return Err(CommandLineArgumentErrorCode::AliasAlreadyExists(name_of_alias, args.position));
    }
    if name_of_alias.as_str().is_empty() {
        return Err(CommandLineArgumentErrorCode::MissingNameArgument(args.position));
    }
    let content_of_alias = match get_next_arg(args) {
        Some(content) => content,
        None => {
            return Err(CommandLineArgumentErrorCode::MissingContentArgument(args.position));
        },
    };
    if content_of_alias.as_str().is_empty() {
        return Err(CommandLineArgumentErrorCode::MissingContentArgument(args.position));
    }
    cfg.insert(name_of_alias, content_of_alias);
    Ok(())
}

/// The argument of `remove`, behind its flags: a name.
fn remove_named(args: &mut Session, cfg: &mut AliasTable) -> (r: Result<
    (),
    CommandLineArgumentErrorCode,
>)
    ensures
        arguments_handled_as(
            old(args)@,
            final(args)@,
            final(cfg)@,
            plain_result(r),
            remove_behind_flags(old(args)@.tokens, old(args)@.position, old(cfg)@),
        ),
{
    let name_of_alias = match get_next_arg(args) {
        Some(name) => name,
        None => {
            return Err(CommandLineArgumentErrorCode::MissingNameArgument(args.position));
        },
    };
    match cfg.remove(name_of_alias.as_str()) {
        Some(_) => Ok(()),
        None => {
            assert(cfg@ =~= old(cfg)@);
            Err(
                CommandLineArgumentErrorCode::CannotRemoveNonExistentValue(
                    name_of_alias,
                    args.position,
                ),
            )
        },
    }
}

/// The arguments of `change`, behind its flags: a name and a command text.
fn change_named(args: &mut Session, cfg: &mut AliasTable, force: bool) -> (r: Result<
    (),
    CommandLineArgumentErrorCode,
>)
    ensures
        arguments_handled_as(
            old(args)@,
            final(args)@,
            final(cfg)@,
            plain_result(r),
            change_behind_flags(old(args)@.tokens, old(args)@.position, old(cfg)@, force),
        ),
{
    let name_of_alias = match get_next_arg(args) {
        Some(name) => name,
        None => {
            return Err(CommandLineArgumentErrorCode::MissingNameArgument(args.position));
        },
    };
    if !cfg.contains_key(name_of_alias.as_str()) && !force {
        return Err(CommandLineArgumentErrorCode::AliasDoesNotExist(name_of_alias, args.position));
    }
    if name_of_alias.as_str().is_empty() {
        return Err(CommandLineArgumentErrorCode::MissingNameArgument(args.position));
    }
    let content_of_alias = match get_next_arg(args) {
        Some(content) => content,
        None => {
            return Err(CommandLineArgumentErrorCode::MissingContentArgument(args.position));
        },
    };
    if content_of_alias.as_str().is_empty() {
        return Err(CommandLineArgumentErrorCode::MissingContentArgument(args.position));
    }
    cfg.insert(name_of_alias, content_of_alias);
    Ok(())
}

/// The argument of `execute`, behind its flags: a name. The request for the
/// shell is made up, and the session notes that the run waits for it.
fn request_shell(args: &mut Session, cfg: &AliasTable, ignore_errors: bool) -> (r: Result<
    Request,
    CommandLineArgumentErrorCode,
>)
    ensures
        arguments_handled_as(
            old(args)@,
            final(args)@,
            cfg@,
            match r {
                Ok(request) => Ok(Some(request@)),
                Err(e) => Err(e@),
            },
            execute_behind_flags(
                old(args)@.tokens,
                old(args)@.position,
                cfg@,
                old(args)@.platform,
                ignore_errors,
            ),
        ),
{
    let name_of_alias = match get_next_arg(args) {
        Some(name) => name,
        None => {
            return Err(CommandLineArgumentErrorCode::MissingNameArgument(args.position));
        },
    };
    let content_of_alias = match cfg.get(name_of_alias.as_str()) {
        Some(content) => content,
        None => {
            return Err(
                CommandLineArgumentErrorCode::InvalidAliasName(name_of_alias, args.position),
            );
        },
    };
    let mut arguments = split_whitespace(content_of_alias.as_str());
    let ghost split = texts(arguments@);
    arguments.insert(0, String::from_str(args.platform.run_as_command()));
    assert(texts(arguments@) =~= seq![args.platform.run_flag()] + split);
    args.spawn = Some((args.position, ignore_errors));
    Ok(
        Request::Spawn {
            program: String::from_str(args.platform.name_of_terminal_program()),
            arguments,
        },
    )
}

/// Moves past `count` arguments from `start`, as far as they are there.
fn skip_past(args: &mut Session, start: usize, count: usize)
    ensures
        final(args)@.tokens == old(args)@.tokens,
        final(args)@.platform == old(args)@.platform,
        final(args)@.spawn == old(args)@.spawn,
        final(args)@.position == skip_arguments(
            old(args)@.tokens.len(),
            start as nat,
            count as nat,
        ),
{
    let length = args.tokens.len();
    if start > length {
        args.position = start;
    } else if length - start < count {
        args.position = length;
    } else {
        args.position = start + count;
    }
}

/// `add`, whose verb has just been read: takes the flag cluster, if one
/// follows, then a name and a command text, and lets the name stand for the
/// text. The name must be new, unless `f` is set. With `i` a failure behind
/// the flags is passed over.
pub fn add_alias(args: &mut Session, cfg: &mut AliasTable) -> (r: Result<
    (),
    CommandLineArgumentErrorCode,
>)
    ensures
        handled_as(
            old(args)@,
            final(args)@,
            final(cfg)@,
            plain_result(r),
            command_spec(
                Verb::Add,
                old(args)@.tokens,
                old(args)@.position,
                old(cfg)@,
                old(args)@.platform,
            ),
        ),
{
    args.spawn = None;
    let flags = match read_flags(args) {
        Ok(flags) => flags,
        Err(e) => {
            return Err(e);
        },
    };
    let start = args.position;
    match add_named(args, cfg, flags.force) {
        Ok(()) => Ok(()),
        Err(e) => {
            if flags.ignore_errors {
                skip_past(args, start, 2);
                Ok(())
            } else {
                Err(e)
            }
        },
    }
}

/// `remove`, whose verb has just been read: takes the flag cluster, if one
/// follows, then a name, and takes the alias of that name out of the table.
/// With `i` a failure behind the flags is passed over.
pub fn remove_alias(args: &mut Session, cfg: &mut AliasTable) -> (r: Result<
    (),
    CommandLineArgumentErrorCode,
>)
    ensures
        handled_as(
            old(args)@,
            final(args)@,
            final(cfg)@,
            plain_result(r),
            command_spec(
                Verb::Remove,
                old(args)@.tokens,
                old(args)@.position,
                old(cfg)@,
                old(args)@.platform,
            ),
        ),
{
    args.spawn = None;
    let flags = match read_flags(args) {
        Ok(flags) => flags,
        Err(e) => {
            return Err(e);
        },
    };
    let start = args.position;
    match remove_named(args, cfg) {
        Ok(()) => Ok(()),
        Err(e) => {
            if flags.ignore_errors {
                skip_past(args, start, 1);
                Ok(())
            } else {
                Err(e)
            }
        },
    }
}

/// `change`, whose verb has just been read: takes the flag cluster, if one
/// follows, then a name and a command text, and lets the name stand for the
/// new text. The name must exist, unless `f` is set. With `i` a failure
/// behind the flags is passed over.
pub fn change_alias(args: &mut Session, cfg: &mut AliasTable) -> (r: Result<
    (),
    CommandLineArgumentErrorCode,
>)
    ensures
        handled_as(
            old(args)@,
            final(args)@,
            final(cfg)@,
            plain_result(r),
            command_spec(
                Verb::Change,
                old(args)@.tokens,
                old(args)@.position,
                old(cfg)@,
                old(args)@.platform,
            ),
        ),
{
    args.spawn = None;
    let flags = match read_flags(args) {
        Ok(flags) => flags,
        Err(e) => {
            return Err(e);
        },
    };
    let start = args.position;
    match change_named(args, cfg, flags.force) {
        Ok(()) => Ok(()),
        Err(e) => {
            if flags.ignore_errors {
                skip_past(args, start, 2);
                Ok(())
            } else {
                Err(e)
            }
        },
    }
}

/// `execute`, whose verb has just been read: takes the flag cluster, if one
/// follows, then a name, and asks for the shell to be started on the words of
/// the command text of that alias. With `i` a failure behind the flags is
/// passed over, and nothing is asked for.
pub fn execute_alias(args: &mut Session, cfg: &AliasTable) -> (r: Result<
    Option<Request>,
    CommandLineArgumentErrorCode,
>)
    ensures
        handled_as(
            old(args)@,
            final(args)@,
            cfg@,
            request_result(r),
            command_spec(
                Verb::Execute,
                old(args)@.tokens,
                old(args)@.position,
                cfg@,
                old(args)@.platform,
            ),
        ),
{
    args.spawn = None;
    let flags = match read_flags(args) {
        Ok(flags) => flags,
        Err(e) => {
            return Err(e);
        },
    };
    let start = args.position;
    match request_shell(args, cfg, flags.ignore_errors) {
        Ok(request) => Ok(Some(request)),
        Err(e) => {
            if flags.ignore_errors {
                skip_past(args, start, 1);
                Ok(None)
            } else {
                Err(e)
            }
        },
    }
}

/// `help`, whose verb has just been read: reads nothing, leaves the table as
/// it is, and asks for the usage text.
pub fn show_help(args: &mut Session, cfg: &AliasTable) -> (r: Result<
    Option<Request>,
    CommandLineArgumentErrorCode,
>)
    ensures
        handled_as(
            old(args)@,
            final(args)@,
            cfg@,
            request_result(r),
            command_spec(
                Verb::Help,
                old(args)@.tokens,
                old(args)@.position,
                cfg@,
                old(args)@.platform,
            ),
        ),
{
    args.spawn = None;
    Ok(Some(Request::PrintHelp))
}

/// Carries out one command whose verb has just been read, by the handler of
/// the verb.
pub fn carry_out(verb: Verb, args: &mut Session, cfg: &mut AliasTable) -> (r: Result<
    Option<Request>,
    CommandLineArgumentErrorCode,
>)
    ensures
        handled_as(
            old(args)@,
            final(args)@,
            final(cfg)@,
            request_result(r),
            command_spec(
                verb,
                old(args)@.tokens,
                old(args)@.position,
                old(cfg)@,
                old(args)@.platform,
            ),
        ),
{
    match verb {
        Verb::Add => match add_alias(args, cfg) {
            Ok(()) => Ok(None),
            Err(e) => Err(e),
        },
        Verb::Change => match change_alias(args, cfg) {
            Ok(()) => Ok(None),
            Err(e) => Err(e),
        },
        Verb::Remove => match remove_alias(args, cfg) {
            Ok(()) => Ok(None),
            Err(e) => Err(e),
        },
        Verb::Execute => execute_alias(args, cfg),
        Verb::Help => show_help(args, cfg),
    }
}

/// Carries out the commands that are left.
fn run_commands(session: Session, cfg: &mut AliasTable) -> (r: Result<
    Progress,
    CommandLineArgumentErrorCode,
>)
    ensures
        final(cfg)@ == run(
            session@.tokens,
            session@.position,
            old(cfg)@,
            session@.platform,
        ).table,
        progressed_as(
            r,
            run(session@.tokens, session@.position, old(cfg)@, session@.platform).result,
        ),
{
    let mut args = session;
    let ghost start = args@;
    let ghost table = cfg@;
    loop
        invariant
            start == session@,
            table == old(cfg)@,
            args@.tokens == start.tokens,
            args@.platform == start.platform,
            run(args@.tokens, args@.position, cfg@, args@.platform) == run(
                start.tokens,
                start.position,
                table,
                start.platform,
            ),
        decreases args@.tokens.len() - args@.position,
    {
        let arg = match get_next_arg(&mut args) {
            Some(arg) => arg,
            None => {
                return Ok(Progress::Finished);
            },
        };
        let verb = match parse_arg(arg.as_str()) {
            Some(verb) => verb,
            None => {
                return Err(CommandLineArgumentErrorCode::InvalidCommand(arg, args.position));
            },
        };
        proof {
            lemma_command_advances(verb, args@.tokens, args@.position, cfg@, args@.platform);
        }
        match carry_out(verb, &mut args, cfg) {
            Err(e) => {
                return Err(e);
            },
            Ok(Some(request)) => {
                return Ok(Progress::Suspended(args, request));
            },
            Ok(None) => {},
        }
    }
}

/// Interprets the command line `args` on the table `cfg`, for `platform`.
///
/// The run ends with `Finished` when every command is carried out, or with
/// the first failure; or it is suspended where a command asks for work of the
/// caller, who then calls `Session::resume`. Either way the table holds what
/// the commands so far have made of it.
pub fn parse_command_line_args(args: Vec<String>, cfg: &mut AliasTable, platform: Platform) -> (r:
    Result<Progress, CommandLineArgumentErrorCode>)
    ensures
        final(cfg)@ == interpret(texts(args@), old(cfg)@, platform).table,
        progressed_as(r, interpret(texts(args@), old(cfg)@, platform).result),
        args@.len() == 0 ==> r matches Err(CommandLineArgumentErrorCode::NoArgs),
        args@.len() == 1 && verb_of(args@[0]@) is None ==> r matches Err(
            CommandLineArgumentErrorCode::NoValidArgs,
        ),
        well_formed(final(cfg)@),
{
    if args.len() == 0 {
        proof {
            use_type_invariant(&*cfg);
            cfg.lemma_valid();
        }
        return Err(CommandLineArgumentErrorCode::NoArgs);
    }
    let first_arg_invalid = parse_arg(args[0].as_str()).is_none();
    if first_arg_invalid && args.len() == 1 {
        proof {
            use_type_invariant(&*cfg);
            cfg.lemma_valid();
        }
        return Err(CommandLineArgumentErrorCode::NoValidArgs);
    }
    let position: usize = if first_arg_invalid {
        1
    } else {
        0
    };
    let r = run_commands(Session { tokens: args, position, platform, spawn: None }, cfg);
    proof {
        use_type_invariant(&*cfg);
        cfg.lemma_valid();
    }
    r
}

impl Session {
    /// How many arguments have been read: the number, counted from 1, of the
    /// argument read last.
    pub fn current_arg(&self) -> (n: usize)
        ensures
            n == self@.position,
    {
        self.position
    }

    /// Goes on with a suspended run when the caller has done what was asked,
    /// or has failed to start the shell.
    pub fn resume(self, reply: Reply, cfg: &mut AliasTable) -> (r: Result<
        Progress,
        CommandLineArgumentErrorCode,
    >)
        ensures
            final(cfg)@ == resume_spec(self@, reported_failure(reply), old(cfg)@).table,
            progressed_as(r, resume_spec(self@, reported_failure(reply), old(cfg)@).result),
            well_formed(final(cfg)@),
    {
        proof {
            use_type_invariant(&*cfg);
            cfg.lemma_valid();
        }
        match (self.spawn, reply) {
            (Some((argument, false)), Reply::SpawnFailed(text)) => {
                return Err(CommandLineArgumentErrorCode::FailedExecute(text, argument));
            },
            _ => {},
        }
        let r = run_commands(self, cfg);
        proof {
            use_type_invariant(&*cfg);
            cfg.lemma_valid();
        }
        r
    }
}

} // verus!
