//! Flag clusters: a token that begins with `-` and switches on, with each
//! `i` and `f` behind it, a flag for the command in front of it.

use crate::util::text::to_chars;
use vstd::prelude::*;

verus! {

/// The switches of one command.
#[derive(Clone, Copy, Debug, PartialEq, Eq)]
pub struct Flags {
    /// The command may overwrite or create where it would otherwise refuse.
    pub force: bool,
    /// A failure of the command does not end the run.
    pub ignore_errors: bool,
}

impl Default for Flags {
    /// No flag is set.
    fn default() -> (flags: Self)
        ensures
            flags == no_flags(),
    {
        Self { force: false, ignore_errors: false }
    }
}

/// Why a flag cluster could not be read.
#[derive(Clone, Copy, Debug, PartialEq, Eq)]
pub enum ParseFlagsErrorCode {
    /// The flag of this name was set before; with the number of the argument.
    FlagAlreadySet(&'static str, usize),
}

/// No flag is set.
pub open spec fn no_flags() -> Flags {
    Flags { force: false, ignore_errors: false }
}

/// What `FlagAlreadySet` calls the flag `i`.
pub open spec fn ignore_errors_name() -> Seq<char> {
    "Ignore errors"@
}

/// What `FlagAlreadySet` calls the flag `f`.
pub open spec fn force_name() -> Seq<char> {
    "Force"@
}

/// Reading the flag characters `chars` from left to right into `flags`: the
/// flags afterwards, or the name of the first flag that was set a second
/// time. Characters other than `i` and `f` change nothing.
pub open spec fn scan_flags(chars: Seq<char>, flags: Flags) -> Result<Flags, Seq<char>>
    decreases chars.len(),
{
    if chars.len() == 0 {
        Ok(flags)
    } else if chars[0] == 'i' && flags.ignore_errors {
        Err(ignore_errors_name())
    } else if chars[0] == 'f' && flags.force {
        Err(force_name())
    } else {
        scan_flags(
            chars.skip(1),
            Flags {
                force: flags.force || chars[0] == 'f',
                ignore_errors: flags.ignore_errors || chars[0] == 'i',
            },
        )
    }
}

/// The characters of a cluster behind its first.
pub open spec fn flag_characters(cluster: Seq<char>) -> Seq<char> {
    if cluster.len() == 0 {
        cluster
    } else {
        cluster.skip(1)
    }
}

/// The flags that a cluster sets, or the name of the flag that it sets twice.
pub open spec fn parse_flags_spec(cluster: Seq<char>) -> Result<Flags, Seq<char>> {
    scan_flags(flag_characters(cluster), no_flags())
}

/// `r` is what `expected` says, for the argument with number `current_arg`.
pub open spec fn flags_parsed_as(
    r: Result<Flags, ParseFlagsErrorCode>,
    expected: Result<Flags, Seq<char>>,
    current_arg: usize,
) -> bool {
    match (r, expected) {
        (Ok(flags), Ok(wanted)) => flags == wanted,
        (Err(ParseFlagsErrorCode::FlagAlreadySet(name, index)), Err(wanted)) => name@ == wanted
            && index == current_arg,
        _ => false,
    }
}

/// How often `c` occurs in `chars`.
pub open spec fn occurrences(chars: Seq<char>, c: char) -> nat
    decreases chars.len(),
{
    if chars.len() == 0 {
        0
    } else {
        occurrences(chars.skip(1), c) + if chars[0] == c {
            1nat
        } else {
            0nat
        }
    }
}

/// A cluster is accepted exactly when neither `i` nor `f` occurs in it more
/// than once, counting a flag that was set before; and the flags that it
/// leaves set are those that were set before or occur in it.
pub proof fn lemma_scan_flags(chars: Seq<char>, flags: Flags)
    ensures
        scan_flags(chars, flags) is Ok <==> occurrences(chars, 'i') + if flags.ignore_errors {
            1nat
        } else {
            0nat
        } <= 1 && occurrences(chars, 'f') + if flags.force {
            1nat
        } else {
            0nat
        } <= 1,
        scan_flags(chars, flags) matches Ok(after) ==> after.ignore_errors == (flags.ignore_errors
            || occurrences(chars, 'i') > 0) && after.force == (flags.force || occurrences(
            chars,
            'f',
        ) > 0),
    decreases chars.len(),
{
    if chars.len() > 0 {
        lemma_scan_flags(
            chars.skip(1),
            Flags {
                force: flags.force || chars[0] == 'f',
                ignore_errors: flags.ignore_errors || chars[0] == 'i',
            },
        );
    }
}

/// Sets `flag` where `current_char` is the character of the flag, and refuses
/// to set it a second time.
pub fn handle_flag(
    current_char: char,
    char_to_match: char,
    flag: &mut bool,
    flag_as_str: &'static str,
    current_arg: usize,
) -> (r: Result<(), ParseFlagsErrorCode>)
    ensures
        r is Err <==> current_char == char_to_match && *old(flag),
        r matches Err(ParseFlagsErrorCode::FlagAlreadySet(name, index)) ==> name@ == flag_as_str@
            && index == current_arg,
        *final(flag) == (*old(flag) || current_char == char_to_match),
{
    if current_char == char_to_match {
        if *flag {
            return Err(ParseFlagsErrorCode::FlagAlreadySet(flag_as_str, current_arg));
        }
        *flag = true;
    }
    Ok(())
}

/// Reads a flag cluster, the argument with number `current_arg`: every
/// character behind the first is looked at, `i` sets `ignore_errors`, `f`
/// sets `force`, and a flag that is set a second time ends the reading.
pub fn parse_flags(cluster: &str, current_arg: usize) -> (r: Result<Flags, ParseFlagsErrorCode>)
    ensures
        flags_parsed_as(r, parse_flags_spec(cluster@), current_arg),
{
    let chars = to_chars(cluster);
    let mut flags = Flags::default();
    let mut i: usize = 1;
    if chars.len() == 0 {
        return Ok(flags);
    }
    while i < chars.len()
        invariant
            1 <= i <= chars@.len(),
            chars@ == cluster@,
            scan_flags(chars@.skip(i as int), flags) == parse_flags_spec(cluster@),
        decreases chars@.len() - i,
    {
        let c = chars[i];
        let ghost rest = chars@.skip(i as int);
        assert(rest[0] == c);
        assert(rest.skip(1) =~= chars@.skip(i + 1));
        let mut ignore_errors = flags.ignore_errors;
        match handle_flag(c, 'i', &mut ignore_errors, "Ignore errors", current_arg) {
            Err(e) => {
                return Err(e);
            },
            Ok(()) => {},
        }
        let mut force = flags.force;
        match handle_flag(c, 'f', &mut force, "Force", current_arg) {
            Err(e) => {
                return Err(e);
            },
            Ok(()) => {},
        }
        flags = Flags { force, ignore_errors };
        i += 1;
    }
    Ok(flags)
}

} // verus!
