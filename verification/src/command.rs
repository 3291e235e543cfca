//! The command line: which operation the arguments ask for.

use vstd::prelude::*;
use crate::text::{chars_of, is_ascii_digit, str_eq, string_of};

verus! {

/// How many records a listing shows when no number is given.
pub const DEFAULT_LIST: usize = 20;

/// An operation of the program.
#[derive(Debug, PartialEq, Eq)]
pub enum Command {
    /// No argument: jump to the home directory.
    Home,
    /// `-c`: record the current directory.
    Record,
    /// `-x`: remove the current directory from the history.
    Forget,
    /// `-xa`: clear the history and the navigation stacks.
    Clear,
    /// `-`: go back.
    Undo,
    /// `+`: go forward.
    Redo,
    /// `.`: name the most recent record.
    Last,
    /// `-l [N]`, `--list [N]`: list the most recent records.
    List { limit: usize },
    /// `-a <name>`: let the name stand for the current directory.
    AliasAdd { name: Option<String> },
    /// `-ar <name>`: remove the alias.
    AliasRemove { name: Option<String> },
    /// `-al`: list the aliases.
    AliasList,
    /// `-V`, `--version`.
    Version,
    /// `-h`, `--help`.
    Help,
    /// `-N` with `N` at least 1: jump to the record of that rank.
    Index { rank: usize },
    /// Anything else: resolve the keyword.
    Jump { keyword: String },
}

/// What a [`Command`] stands for.
pub enum Request {
    Home,
    Record,
    Forget,
    Clear,
    Undo,
    Redo,
    Last,
    List { limit: usize },
    AliasAdd { name: Option<Seq<char>> },
    AliasRemove { name: Option<Seq<char>> },
    AliasList,
    Version,
    Help,
    Index { rank: usize },
    Jump { keyword: Seq<char> },
}

impl View for Command {
    type V = Request;

    open spec fn view(&self) -> Request {
        match self {
            Command::Home => Request::Home,
            Command::Record => Request::Record,
            Command::Forget => Request::Forget,
            Command::Clear => Request::Clear,
            Command::Undo => Request::Undo,
            Command::Redo => Request::Redo,
            Command::Last => Request::Last,
            Command::List { limit } => Request::List { limit: *limit },
            Command::AliasAdd { name } => Request::AliasAdd { name: name.deep_view() },
            Command::AliasRemove { name } => Request::AliasRemove { name: name.deep_view() },
            Command::AliasList => Request::AliasList,
            Command::Version => Request::Version,
            Command::Help => Request::Help,
            Command::Index { rank } => Request::Index { rank: *rank },
            Command::Jump { keyword } => Request::Jump { keyword: keyword@ },
        }
    }
}

/// The value of a decimal digit.
pub open spec fn digit_value(c: char) -> nat {
    (c as nat - '0' as nat) as nat
}

/// The number a run of decimal digits denotes.
pub open spec fn decimal_value(digits: Seq<char>) -> nat
    decreases digits.len(),
{
    if digits.len() == 0 {
        0
    } else {
        decimal_value(digits.drop_last()) * 10 + digit_value(digits.last())
    }
}

/// Whether every character is a decimal digit.
pub open spec fn all_digits(s: Seq<char>) -> bool {
    forall|i: int| 0 <= i < s.len() ==> is_ascii_digit(#[trigger] s[i])
}

/// The digits of a number text: the text without an optional leading `+`.
pub open spec fn digits_of(s: Seq<char>) -> Seq<char> {
    if s.len() > 0 && s[0] == '+' {
        s.skip(1)
    } else {
        s
    }
}

/// The number a text denotes: one or more decimal digits, optionally behind
/// a `+`, whose value fits the machine word.
pub open spec fn parsed_number(s: Seq<char>) -> Option<usize> {
    let digits = digits_of(s);
    if digits.len() > 0 && all_digits(digits) && decimal_value(digits) <= usize::MAX {
        Some(decimal_value(digits) as usize)
    } else {
        None
    }
}

/// The argument at position `i`, if there is one.
pub open spec fn argument(args: Seq<Seq<char>>, i: int) -> Option<Seq<char>> {
    if 0 <= i < args.len() {
        Some(args[i])
    } else {
        None
    }
}

/// The limit of a listing: the number the second argument denotes, or
/// [`DEFAULT_LIST`].
pub open spec fn list_limit(args: Seq<Seq<char>>) -> usize {
    match argument(args, 1) {
        Some(text) => match parsed_number(text) {
            Some(n) => n,
            None => DEFAULT_LIST,
        },
        None => DEFAULT_LIST,
    }
}

/// The rank a `-N` argument asks for.
pub open spec fn rank_of(arg: Seq<char>) -> Option<usize> {
    if arg.len() > 0 && arg[0] == '-' {
        match parsed_number(arg.skip(1)) {
            Some(n) => if n > 0 {
                Some(n)
            } else {
                None
            },
            None => None,
        }
    } else {
        None
    }
}

/// The operation the arguments (without the program's name) ask for.
pub open spec fn requested(args: Seq<Seq<char>>) -> Request {
    if args.len() == 0 {
        Request::Home
    } else {
        let arg = args[0];
        if arg == "-c"@ {
            Request::Record
        } else if arg == "-x"@ {
            Request::Forget
        } else if arg == "-"@ {
            Request::Undo
        } else if arg == "+"@ {
            Request::Redo
        } else if arg == "."@ {
            Request::Last
        } else if arg == "--list"@ || arg == "-l"@ {
            Request::List { limit: list_limit(args) }
        } else if arg == "-xa"@ {
            Request::Clear
        } else if arg == "-a"@ {
            Request::AliasAdd { name: argument(args, 1) }
        } else if arg == "-ar"@ {
            Request::AliasRemove { name: argument(args, 1) }
        } else if arg == "-al"@ {
            Request::AliasList
        } else if arg == "--version"@ || arg == "-V"@ {
            Request::Version
        } else if arg == "--help"@ || arg == "-h"@ {
            Request::Help
        } else {
            match rank_of(arg) {
                Some(rank) => Request::Index { rank },
                None => Request::Jump { keyword: arg },
            }
        }
    }
}

/// A longer run of digits denotes at least as much as any of its prefixes.
pub proof fn lemma_decimal_value_grows(digits: Seq<char>, i: int)
    requires
        0 <= i <= digits.len(),
    ensures
        decimal_value(digits.take(i)) <= decimal_value(digits),
    decreases digits.len() - i,
{
    if i < digits.len() {
        lemma_decimal_value_grows(digits, i + 1);
        assert(digits.take(i + 1).drop_last() =~= digits.take(i));
    } else {
        assert(digits.take(i) =~= digits);
    }
}

/// Reads a number: decimal digits, optionally behind a `+`.
pub fn parse_number(text: &str) -> (r: Option<usize>)
    ensures
        r == parsed_number(text@),
{
    let chars = chars_of(text);
    let start: usize = if chars.len() > 0 && chars[0] == '+' {
        1
    } else {
        0
    };
    let ghost digits = digits_of(text@);
    assert(digits =~= chars@.skip(start as int));
    if chars.len() == start {
        return None;
    }
    let mut value: usize = 0;
    let mut i: usize = start;
    assert(digits.take(0) =~= Seq::<char>::empty());
    while i < chars.len()
        invariant
            start <= i <= chars.len(),
            digits == digits_of(text@),
            digits == chars@.skip(start as int),
            value == decimal_value(digits.take(i - start)),
            forall|k: int| 0 <= k < i - start ==> is_ascii_digit(#[trigger] digits[k]),
        decreases chars.len() - i,
    {
        let c = chars[i];
        assert(digits[i - start] == c);
        if !('0' <= c && c <= '9') {
            return None;
        }
        let d: usize = (c as u32 - '0' as u32) as usize;
        proof {
            assert(digits.take(i - start + 1).drop_last() =~= digits.take(i - start));
            assert(digits.take(i - start + 1).last() == c);
            lemma_decimal_value_grows(digits, i - start + 1);
        }
        let tenfold = match value.checked_mul(10) {
            Some(t) => t,
            None => {
                return None;
            },
        };
        value = match tenfold.checked_add(d) {
            Some(v) => v,
            None => {
                return None;
            },
        };
        i += 1;
    }
    assert(digits.take(chars.len() - start) =~= digits);
    Some(value)
}

/// The argument at position `i`, if there is one.
fn argument_at(args: &Vec<String>, i: usize) -> (r: Option<String>)
    ensures
        r.deep_view() == argument(args.deep_view(), i as int),
{
    if i < args.len() {
        Some(args[i].clone())
    } else {
        None
    }
}

/// Reads the arguments of an invocation (without the program's name).
pub fn parse_command(args: &Vec<String>) -> (c: Command)
    ensures
        c@ == requested(args.deep_view()),
{
    if args.len() == 0 {
        return Command::Home;
    }
    let arg = args[0].as_str();
    assert(args.deep_view()[0] == arg@);
    if str_eq(arg, "-c") {
        Command::Record
    } else if str_eq(arg, "-x") {
        Command::Forget
    } else if str_eq(arg, "-") {
        Command::Undo
    } else if str_eq(arg, "+") {
        Command::Redo
    } else if str_eq(arg, ".") {
        Command::Last
    } else if str_eq(arg, "--list") || str_eq(arg, "-l") {
        let limit = if args.len() > 1 {
            assert(args.deep_view()[1] == args[1]@);
            match parse_number(args[1].as_str()) {
                Some(n) => n,
                None => DEFAULT_LIST,
            }
        } else {
            DEFAULT_LIST
        };
        Command::List { limit }
    } else if str_eq(arg, "-xa") {
        Command::Clear
    } else if str_eq(arg, "-a") {
        Command::AliasAdd { name: argument_at(args, 1) }
    } else if str_eq(arg, "-ar") {
        Command::AliasRemove { name: argument_at(args, 1) }
    } else if str_eq(arg, "-al") {
        Command::AliasList
    } else if str_eq(arg, "--version") || str_eq(arg, "-V") {
        Command::Version
    } else if str_eq(arg, "--help") || str_eq(arg, "-h") {
        Command::Help
    } else {
        let chars = chars_of(arg);
        if chars.len() > 0 && chars[0] == '-' {
            let rest = string_of(&chars, 1, chars.len());
            assert(chars@.subrange(1, chars@.len() as int) =~= arg@.skip(1));
            match parse_number(rest.as_str()) {
                Some(n) => {
                    if n > 0 {
                        return Command::Index { rank: n };
                    }
                },
                None => {},
            }
        }
        Command::Jump { keyword: args[0].clone() }
    }
}

} // verus!
