use alia::alias_table::AliasTable;
use alia::args_parsing::args_parser::CommandLineArgumentErrorCode::{
    AliasAlreadyExists, AliasDoesNotExist, CannotRemoveNonExistentValue, FailedExecute,
    InvalidAliasName, InvalidCommand, MissingContentArgument, MissingNameArgument, NoArgs,
    NoValidArgs,
};
use alia::args_parsing::args_parser::{
    add_alias, carry_out, change_alias, command_line_error_to_string, execute_alias,
    get_next_arg, parse_arg, parse_command_line_args, read_flags, remove_alias, show_help,
    CommandLineArgumentErrorCode, Progress, Reply, Request, Session, Verb,
};
use alia::args_parsing::flags::{handle_flag, parse_flags, Flags, ParseFlagsErrorCode};
use alia::util::platform::Platform;
use alia::util::words::split_whitespace;

/// What the caller of the interpreter was asked to do during a run.
#[derive(Debug, PartialEq, Eq)]
enum Asked {
    Help,
    Shell(String, Vec<String>),
}

/// Runs the interpreter to its end. Every shell "starts", except the ones
/// whose turn (counted from 0) is listed in `failing`.
fn run_with(
    args: &[&str],
    cfg: &mut AliasTable,
    platform: Platform,
    failing: &[usize],
) -> (Result<(), CommandLineArgumentErrorCode>, Vec<Asked>) {
    let mut asked = Vec::new();
    let mut shells = 0;
    let mut progress =
        parse_command_line_args(args.iter().map(|x| x.to_string()).collect(), cfg, platform);
    loop {
        match progress {
            Err(e) => return (Err(e), asked),
            Ok(Progress::Finished) => return (Ok(()), asked),
            Ok(Progress::Suspended(session, request)) => {
                let reply = match request {
                    Request::PrintHelp => {
                        asked.push(Asked::Help);
                        Reply::Completed
                    }
                    Request::Spawn { program, arguments } => {
                        asked.push(Asked::Shell(program, arguments));
                        shells += 1;
                        if failing.contains(&(shells - 1)) {
                            Reply::SpawnFailed("no such file".to_string())
                        } else {
                            Reply::Completed
                        }
                    }
                };
                progress = session.resume(reply, cfg);
            }
        }
    }
}

fn run(args: &[&str], cfg: &mut AliasTable) -> Result<(), CommandLineArgumentErrorCode> {
    run_with(args, cfg, Platform::Posix, &[]).0
}

fn table(entries: &[(&str, &str)]) -> AliasTable {
    let mut table = AliasTable::new();
    for (name, content) in entries {
        assert!(table.insert(name.to_string(), content.to_string()));
    }
    table
}

fn assert_holds(table: &AliasTable, entries: &[(&str, &str)]) {
    assert_eq!(table.len(), entries.len());
    for (name, content) in entries {
        assert_eq!(table.get(name), Some(&content.to_string()));
    }
}

fn sh(words: &[&str]) -> Asked {
    let mut arguments = vec!["-c".to_string()];
    arguments.extend(words.iter().map(|x| x.to_string()));
    Asked::Shell("sh".to_string(), arguments)
}

#[test]
fn test_parse_command_line_args() {
    test_cmd_args_no_cfg(&["help"], Ok(()));
    test_cmd_args_no_cfg(&[""], Err(NoValidArgs));
    test_cmd_args_no_cfg(&[], Err(NoArgs));
    test_cmd_args_no_cfg(&["h", "add", "my_alias", "echo test"], Ok(()));
    test_cmd_args_template(
        &["a", "my_alias", "echo test"],
        &[],
        Ok(()),
        &[("my_alias", "echo test")],
    );
    test_cmd_args_template(
        &["a", "my_alias", "echo test", "r", "my_alias"],
        &[],
        Ok(()),
        &[],
    );
    test_cmd_args_template(
        &["c", "my_alias", "echo test"],
        &[],
        Err(AliasDoesNotExist("my_alias".to_string(), 2)),
        &[],
    );
    test_cmd_args_template(
        &["e", "my_alias"],
        &[],
        Err(InvalidAliasName("my_alias".to_string(), 2)),
        &[],
    );
    test_cmd_args_template(
        &["a", "my_alias", "echo test", "e", "my_alias"],
        &[],
        Ok(()),
        &[("my_alias", "echo test")],
    );
}

fn test_cmd_args_no_cfg(args: &[&str], expected_result: Result<(), CommandLineArgumentErrorCode>) {
    println!("Entered test_cmd_args_no_cfg with args : {args:?}");
    let res = run(args, &mut AliasTable::new());
    assert_eq!(res, expected_result);
}

fn test_cmd_args_template(
    args: &[&str],
    cfg: &[(&str, &str)],
    expected_result: Result<(), CommandLineArgumentErrorCode>,
    cfg_after: &[(&str, &str)],
) {
    let mut cfg = table(cfg);
    println!("Entered test_cmd_args_template with args : {args:?}");
    let res = run(args, &mut cfg);
    assert_eq!(res, expected_result);
    assert_holds(&cfg, cfg_after);
}

#[test]
fn help_prints_and_changes_nothing() {
    let mut cfg = table(&[("x", "y")]);
    let (res, asked) = run_with(&["help"], &mut cfg, Platform::Posix, &[]);
    assert_eq!(res, Ok(()));
    assert_eq!(asked, vec![Asked::Help]);
    assert_holds(&cfg, &[("x", "y")]);
    let (res, asked) = run_with(&["h", "h"], &mut cfg, Platform::Posix, &[]);
    assert_eq!(res, Ok(()));
    assert_eq!(asked, vec![Asked::Help, Asked::Help]);
}

#[test]
fn help_takes_no_flags() {
    let mut cfg = AliasTable::new();
    let (res, asked) = run_with(&["help", "-i"], &mut cfg, Platform::Posix, &[]);
    assert_eq!(res, Err(InvalidCommand("-i".to_string(), 2)));
    assert_eq!(asked, vec![Asked::Help]);
}

#[test]
fn first_argument_may_be_no_verb() {
    let mut cfg = AliasTable::new();
    assert_eq!(run(&["./alia", "a", "x", "y"], &mut cfg), Ok(()));
    assert_holds(&cfg, &[("x", "y")]);
    // every argument counts, also the one passed over
    assert_eq!(
        run(&["./alia", "c", "nope", "y"], &mut cfg),
        Err(AliasDoesNotExist("nope".to_string(), 3))
    );
    assert_eq!(run(&["./alia"], &mut cfg), Err(NoValidArgs));
    assert_eq!(run(&["ADD"], &mut cfg), Err(NoValidArgs));
    // only the first
    assert_eq!(
        run(&["./alia", "oops", "a", "x", "y"], &mut cfg),
        Err(InvalidCommand("oops".to_string(), 2))
    );
    assert_eq!(
        run(&["a", "p", "q", "oops"], &mut cfg),
        Err(InvalidCommand("oops".to_string(), 4))
    );
    assert_holds(&cfg, &[("x", "y"), ("p", "q")]);
}

#[test]
fn add_and_its_failures() {
    let mut cfg = table(&[("x", "y")]);
    assert_eq!(run(&["add"], &mut cfg), Err(MissingNameArgument(1)));
    assert_eq!(run(&["add", "n"], &mut cfg), Err(MissingContentArgument(2)));
    assert_eq!(
        run(&["add", "x", "z"], &mut cfg),
        Err(AliasAlreadyExists("x".to_string(), 2))
    );
    assert_eq!(run(&["add", "x"], &mut cfg), Err(AliasAlreadyExists("x".to_string(), 2)));
    assert_eq!(run(&["add", "", "z"], &mut cfg), Err(MissingNameArgument(2)));
    assert_eq!(run(&["add", "n", ""], &mut cfg), Err(MissingContentArgument(3)));
    assert_holds(&cfg, &[("x", "y")]);
    assert_eq!(run(&["h", "r", "x", "add", "n", "m"], &mut cfg), Ok(()));
    assert_holds(&cfg, &[("n", "m")]);
}

#[test]
fn remove_and_its_failures() {
    let mut cfg = table(&[("x", "y")]);
    assert_eq!(run(&["remove"], &mut cfg), Err(MissingNameArgument(1)));
    assert_eq!(
        run(&["r", "n"], &mut cfg),
        Err(CannotRemoveNonExistentValue("n".to_string(), 2))
    );
    assert_eq!(
        run(&["r", ""], &mut cfg),
        Err(CannotRemoveNonExistentValue(String::new(), 2))
    );
    assert_eq!(run(&["remove", "x"], &mut cfg), Ok(()));
    assert_holds(&cfg, &[]);
}

#[test]
fn change_and_its_failures() {
    let mut cfg = table(&[("x", "y")]);
    assert_eq!(run(&["change"], &mut cfg), Err(MissingNameArgument(1)));
    assert_eq!(run(&["c", "x"], &mut cfg), Err(MissingContentArgument(2)));
    assert_eq!(run(&["c", "x", ""], &mut cfg), Err(MissingContentArgument(3)));
    assert_eq!(run(&["c", "", "z"], &mut cfg), Err(AliasDoesNotExist(String::new(), 2)));
    assert_eq!(run(&["c", "-f", "", "z"], &mut cfg), Err(MissingNameArgument(3)));
    assert_holds(&cfg, &[("x", "y")]);
    assert_eq!(run(&["change", "x", "z"], &mut cfg), Ok(()));
    assert_holds(&cfg, &[("x", "z")]);
}

#[test]
fn earlier_commands_stay_done_when_a_later_one_fails() {
    let mut cfg = AliasTable::new();
    assert_eq!(
        run(&["a", "x", "y", "a", "p", "q", "r", "zz", "a", "late", "one"], &mut cfg),
        Err(CannotRemoveNonExistentValue("zz".to_string(), 8))
    );
    assert_holds(&cfg, &[("x", "y"), ("p", "q")]);
}

#[test]
fn execute_asks_for_the_shell() {
    let mut cfg = table(&[("run", "  cargo   run\t--release \n")]);
    let (res, asked) = run_with(&["e", "run", "execute", "run"], &mut cfg, Platform::Posix, &[]);
    assert_eq!(res, Ok(()));
    assert_eq!(
        asked,
        vec![sh(&["cargo", "run", "--release"]), sh(&["cargo", "run", "--release"])]
    );
    let (res, asked) = run_with(&["e", "run"], &mut cfg, Platform::Windows, &[]);
    assert_eq!(res, Ok(()));
    assert_eq!(
        asked,
        vec![Asked::Shell(
            "cmd".to_string(),
            vec!["/C".to_string(), "cargo".to_string(), "run".to_string(), "--release".to_string()]
        )]
    );
    assert_eq!(run(&["execute"], &mut cfg), Err(MissingNameArgument(1)));
}

#[test]
fn failed_spawn_ends_the_run() {
    let mut cfg = table(&[("run", "ls")]);
    let (res, asked) =
        run_with(&["h", "e", "run", "a", "x", "y"], &mut cfg, Platform::Posix, &[0]);
    assert_eq!(res, Err(FailedExecute("no such file".to_string(), 3)));
    assert_eq!(asked, vec![Asked::Help, sh(&["ls"])]);
    assert_holds(&cfg, &[("run", "ls")]);
    // the second shell fails, the first command's work stays
    let (res, _) =
        run_with(&["e", "run", "a", "x", "y", "e", "x"], &mut cfg, Platform::Posix, &[1]);
    assert_eq!(res, Err(FailedExecute("no such file".to_string(), 7)));
    assert_holds(&cfg, &[("run", "ls"), ("x", "y")]);
}

#[test]
fn force_overwrites_and_creates() {
    let mut cfg = table(&[("x", "y")]);
    assert_eq!(run(&["add", "-f", "x", "z"], &mut cfg), Ok(()));
    assert_holds(&cfg, &[("x", "z")]);
    assert_eq!(run(&["change", "-f", "n", "m"], &mut cfg), Ok(()));
    assert_holds(&cfg, &[("x", "z"), ("n", "m")]);
    assert_eq!(run(&["add", "-f", "x"], &mut cfg), Err(MissingContentArgument(3)));
    assert_eq!(run(&["add", "-f"], &mut cfg), Err(MissingNameArgument(2)));
}

#[test]
fn ignored_errors_let_the_run_go_on() {
    let mut cfg = table(&[("x", "y")]);
    assert_eq!(run(&["add", "-i", "x", "z", "add", "p", "q"], &mut cfg), Ok(()));
    assert_holds(&cfg, &[("x", "y"), ("p", "q")]);
    assert_eq!(run(&["remove", "-i", "nope", "change", "-i", "nope", "z", "r", "p"], &mut cfg), Ok(()));
    assert_holds(&cfg, &[("x", "y")]);
    assert_eq!(run(&["add", "-i"], &mut cfg), Ok(()));
    assert_eq!(run(&["add", "-i", "x"], &mut cfg), Ok(()));
    assert_eq!(run(&["add", "-i", "", "z", "r", "x"], &mut cfg), Ok(()));
    assert_holds(&cfg, &[]);
    let mut cfg = table(&[("run", "ls")]);
    let (res, asked) = run_with(
        &["e", "-i", "nope", "e", "-i", "run", "a", "x", "y"],
        &mut cfg,
        Platform::Posix,
        &[0],
    );
    assert_eq!(res, Ok(()));
    assert_eq!(asked, vec![sh(&["ls"])]);
    assert_holds(&cfg, &[("run", "ls"), ("x", "y")]);
    // both flags at once, in one cluster and with other characters
    let mut cfg = table(&[("x", "y")]);
    assert_eq!(run(&["add", "-xify", "x", "z", "add", "-i", "x", "w"], &mut cfg), Ok(()));
    assert_holds(&cfg, &[("x", "z")]);
}

#[test]
fn only_one_cluster_is_read() {
    let mut cfg = AliasTable::new();
    assert_eq!(
        run(&["add", "-i", "-f", "x", "y"], &mut cfg),
        Err(InvalidCommand("y".to_string(), 5))
    );
    assert_holds(&cfg, &[("-f", "x")]);
}

#[test]
fn flag_set_twice_is_an_invalid_command() {
    let mut cfg = AliasTable::new();
    assert_eq!(
        run(&["add", "-ii", "x", "y"], &mut cfg),
        Err(InvalidCommand("-ii".to_string(), 2))
    );
    assert_eq!(
        run(&["h", "r", "-fxf", "x"], &mut cfg),
        Err(InvalidCommand("-fxf".to_string(), 3))
    );
    assert_holds(&cfg, &[]);
}

#[test]
fn verbs_are_recognised_in_both_spellings() {
    for (spelling, verb) in [
        ("a", Verb::Add),
        ("add", Verb::Add),
        ("r", Verb::Remove),
        ("remove", Verb::Remove),
        ("e", Verb::Execute),
        ("execute", Verb::Execute),
        ("c", Verb::Change),
        ("change", Verb::Change),
        ("h", Verb::Help),
        ("help", Verb::Help),
    ] {
        assert_eq!(parse_arg(spelling), Some(verb));
    }
    for other in ["", "A", "Add", "ad", "adds", " add", "-a", "hel", "x"] {
        assert_eq!(parse_arg(other), None);
    }
}

#[test]
fn flags_are_parsed() {
    assert_eq!(parse_flags("-", 3), Ok(Flags { force: false, ignore_errors: false }));
    assert_eq!(parse_flags("", 3), Ok(Flags::default()));
    assert_eq!(parse_flags("-i", 3), Ok(Flags { force: false, ignore_errors: true }));
    assert_eq!(parse_flags("-f", 3), Ok(Flags { force: true, ignore_errors: false }));
    assert_eq!(parse_flags("-fi", 3), Ok(Flags { force: true, ignore_errors: true }));
    assert_eq!(parse_flags("-x-iyF", 3), Ok(Flags { force: false, ignore_errors: true }));
    // the first character is not looked at
    assert_eq!(parse_flags("if", 3), Ok(Flags { force: true, ignore_errors: false }));
    assert_eq!(
        parse_flags("-ifi", 3),
        Err(ParseFlagsErrorCode::FlagAlreadySet("Ignore errors", 3))
    );
    assert_eq!(
        parse_flags("-ffi", 9),
        Err(ParseFlagsErrorCode::FlagAlreadySet("Force", 9))
    );
    assert_eq!(
        parse_flags("-fiif", 1),
        Err(ParseFlagsErrorCode::FlagAlreadySet("Ignore errors", 1))
    );
}

#[test]
fn one_flag_is_handled() {
    let mut flag = false;
    assert_eq!(handle_flag('x', 'i', &mut flag, "Ignore errors", 2), Ok(()));
    assert!(!flag);
    assert_eq!(handle_flag('i', 'i', &mut flag, "Ignore errors", 2), Ok(()));
    assert!(flag);
    assert_eq!(handle_flag('x', 'i', &mut flag, "Ignore errors", 2), Ok(()));
    assert!(flag);
    assert_eq!(
        handle_flag('i', 'i', &mut flag, "Ignore errors", 2),
        Err(ParseFlagsErrorCode::FlagAlreadySet("Ignore errors", 2))
    );
    assert!(flag);
}

#[test]
fn words_are_split_at_whitespace() {
    assert_eq!(split_whitespace(""), Vec::<String>::new());
    assert_eq!(split_whitespace(" \t\n"), Vec::<String>::new());
    assert_eq!(split_whitespace("echo"), vec!["echo"]);
    assert_eq!(split_whitespace("  echo  a\tb\r\nc "), vec!["echo", "a", "b", "c"]);
    assert_eq!(split_whitespace("é\u{2003}ü\u{00A0}✓"), vec!["é", "ü", "✓"]);
    let text = " mixed \u{1680} bag\u{3000}of\u{2028}words\u{0085}";
    let expected: Vec<String> = text.split_whitespace().map(|x| x.to_string()).collect();
    assert_eq!(split_whitespace(text), expected);
}

#[test]
fn command_line_error_messages() {
    let p = Platform::Posix;
    assert_eq!(
        command_line_error_to_string(&MissingNameArgument(1), p),
        "You did not supply a name argument for command. Error occurred at argument number 1"
    );
    assert_eq!(
        command_line_error_to_string(&MissingContentArgument(20), p),
        "You did not supply a content argument for command. Error occurred at argument number 20"
    );
    assert_eq!(
        command_line_error_to_string(&FailedExecute("boom".to_string(), 3), p),
        "Execution of execute command failed. Error occurred at argument number 3. Here is the error the OS returned.\n\nboom"
    );
    assert_eq!(
        command_line_error_to_string(&FailedExecute("boom".to_string(), 3), Platform::Windows),
        "Execution of execute command failed. Error occurred at argument number 3. Here is the error the OS returned.\r\n\r\nboom"
    );
    assert_eq!(
        command_line_error_to_string(&CannotRemoveNonExistentValue("n".to_string(), 2), p),
        "Error removing alias of name n. This alias had no value associated with it and thus could not be removed. Error occurred at argument number 2"
    );
    assert_eq!(
        command_line_error_to_string(&InvalidAliasName("n".to_string(), 2), p),
        "Alias with name n has no content associated with it and thus cannot be executed. Error occurred at argument number 2"
    );
    assert_eq!(
        command_line_error_to_string(&AliasDoesNotExist("n".to_string(), 2), p),
        "Cannot change alias with name n because it does not exist. Error occurred at argument number 2"
    );
    assert_eq!(
        command_line_error_to_string(&AliasAlreadyExists("n".to_string(), 2), p),
        "Cannot create alias with name n that already exists. Error occurred at argument number 2"
    );
    assert_eq!(
        command_line_error_to_string(&InvalidCommand("n".to_string(), 105), p),
        "Command with name n does not exist. Error occurred at argument number 105"
    );
    assert_eq!(
        command_line_error_to_string(&NoValidArgs, p),
        "You passed no valid arguments to Alia."
    );
    assert_eq!(command_line_error_to_string(&NoArgs, p), "You did not pass any args to Alia.");
}

/// A session in which the first argument, `help`, has been read and the
/// `rest` is unread.
fn session_behind_help(rest: &[&str]) -> Session {
    let mut args = vec!["help".to_string()];
    args.extend(rest.iter().map(|x| x.to_string()));
    match parse_command_line_args(args, &mut AliasTable::new(), Platform::Posix) {
        Ok(Progress::Suspended(session, Request::PrintHelp)) => {
            assert_eq!(session.current_arg(), 1);
            session
        }
        _ => panic!("the run should wait for the usage text"),
    }
}

#[test]
fn add_reads_its_flag_cluster_itself() {
    let mut session = session_behind_help(&["-i", "x", "y"]);
    let mut cfg = AliasTable::new();
    assert_eq!(add_alias(&mut session, &mut cfg), Ok(()));
    assert_holds(&cfg, &[("x", "y")]);
    assert_eq!(session.current_arg(), 4);

    let mut session = session_behind_help(&["-f", "x", "z", "more"]);
    let mut cfg = table(&[("x", "y")]);
    assert_eq!(add_alias(&mut session, &mut cfg), Ok(()));
    assert_holds(&cfg, &[("x", "z")]);
    assert_eq!(session.current_arg(), 4);

    let mut session = session_behind_help(&["x", "z", "more"]);
    let mut cfg = table(&[("x", "y")]);
    assert_eq!(
        add_alias(&mut session, &mut cfg),
        Err(AliasAlreadyExists("x".to_string(), 2))
    );
    assert_eq!(session.current_arg(), 2);

    let mut session = session_behind_help(&["-i", "x", "z", "more"]);
    assert_eq!(add_alias(&mut session, &mut cfg), Ok(()));
    assert_holds(&cfg, &[("x", "y")]);
    assert_eq!(session.current_arg(), 4);

    let mut session = session_behind_help(&["-ff", "x", "z"]);
    assert_eq!(
        add_alias(&mut session, &mut cfg),
        Err(InvalidCommand("-ff".to_string(), 2))
    );
    assert_eq!(session.current_arg(), 2);
}

#[test]
fn change_reads_its_flag_cluster_itself() {
    let mut session = session_behind_help(&["-f", "n", "m"]);
    let mut cfg = table(&[("x", "y")]);
    assert_eq!(change_alias(&mut session, &mut cfg), Ok(()));
    assert_holds(&cfg, &[("x", "y"), ("n", "m")]);
    assert_eq!(session.current_arg(), 4);

    let mut session = session_behind_help(&["n2", "m"]);
    assert_eq!(
        change_alias(&mut session, &mut cfg),
        Err(AliasDoesNotExist("n2".to_string(), 2))
    );
    let mut session = session_behind_help(&["-i", "n2"]);
    assert_eq!(change_alias(&mut session, &mut cfg), Ok(()));
    assert_eq!(session.current_arg(), 3);
    assert_holds(&cfg, &[("x", "y"), ("n", "m")]);
}

#[test]
fn remove_reads_its_flag_cluster_itself() {
    let mut session = session_behind_help(&["-i", "x", "y"]);
    let mut cfg = table(&[("x", "y")]);
    assert_eq!(remove_alias(&mut session, &mut cfg), Ok(()));
    assert_holds(&cfg, &[]);
    assert_eq!(session.current_arg(), 3);

    let mut session = session_behind_help(&["-i", "x", "y"]);
    assert_eq!(remove_alias(&mut session, &mut cfg), Ok(()));
    assert_eq!(session.current_arg(), 3);

    let mut session = session_behind_help(&["-x", "x"]);
    assert_eq!(
        remove_alias(&mut session, &mut cfg),
        Err(CannotRemoveNonExistentValue("x".to_string(), 3))
    );
}

#[test]
fn execute_reads_its_flag_cluster_itself() {
    let cfg = table(&[("run", "ls -l")]);
    let mut session = session_behind_help(&["-i", "run", "a"]);
    assert_eq!(
        execute_alias(&mut session, &cfg),
        Ok(Some(Request::Spawn {
            program: "sh".to_string(),
            arguments: vec!["-c".to_string(), "ls".to_string(), "-l".to_string()],
        }))
    );
    assert_eq!(session.current_arg(), 3);
    // the command ignores errors, so a shell that does not start is passed over
    let mut cfg = cfg;
    match session.resume(Reply::SpawnFailed("no".to_string()), &mut cfg) {
        Err(e) => assert_eq!(e, MissingNameArgument(4)),
        Ok(_) => panic!("`a` lacks its name"),
    }

    let mut session = session_behind_help(&["-i", "nope", "a"]);
    assert_eq!(execute_alias(&mut session, &cfg), Ok(None));
    assert_eq!(session.current_arg(), 3);

    let mut session = session_behind_help(&["nope"]);
    assert_eq!(
        execute_alias(&mut session, &cfg),
        Err(InvalidAliasName("nope".to_string(), 2))
    );
}

#[test]
fn help_reads_nothing() {
    let cfg = table(&[("x", "y")]);
    let mut session = session_behind_help(&["-i", "x"]);
    assert_eq!(show_help(&mut session, &cfg), Ok(Some(Request::PrintHelp)));
    assert_eq!(session.current_arg(), 1);
}

#[test]
fn one_command_is_carried_out_by_its_handler() {
    let mut cfg = table(&[("x", "y")]);
    let mut session = session_behind_help(&["-f", "x", "z", "x", "-i", "k"]);
    assert_eq!(carry_out(Verb::Add, &mut session, &mut cfg), Ok(None));
    assert_eq!(session.current_arg(), 4);
    assert_eq!(carry_out(Verb::Remove, &mut session, &mut cfg), Ok(None));
    assert_eq!(session.current_arg(), 5);
    assert_holds(&cfg, &[]);
    assert_eq!(carry_out(Verb::Execute, &mut session, &mut cfg), Ok(None));
    assert_eq!(session.current_arg(), 7);
    assert_eq!(carry_out(Verb::Help, &mut session, &mut cfg), Ok(Some(Request::PrintHelp)));
    assert_eq!(
        carry_out(Verb::Change, &mut session, &mut cfg),
        Err(MissingNameArgument(7))
    );
}

#[test]
fn arguments_and_flags_are_taken_in_turn() {
    let mut session = session_behind_help(&["-if", "x", "-"]);
    assert_eq!(
        read_flags(&mut session),
        Ok(Flags { force: true, ignore_errors: true })
    );
    assert_eq!(session.current_arg(), 2);
    assert_eq!(read_flags(&mut session), Ok(Flags::default()));
    assert_eq!(session.current_arg(), 2);
    assert_eq!(get_next_arg(&mut session), Some("x".to_string()));
    assert_eq!(session.current_arg(), 3);
    assert_eq!(read_flags(&mut session), Ok(Flags::default()));
    assert_eq!(session.current_arg(), 4);
    assert_eq!(get_next_arg(&mut session), None);
    assert_eq!(read_flags(&mut session), Ok(Flags::default()));
    assert_eq!(session.current_arg(), 4);
}
