//! What a command line asks for.
//!
//! The arguments are those of a process, the program's name first:
//! `<program> <mode> <filepath_in> <filepath_out> <key>`. They are judged in
//! a fixed order: their number, then the passphrase, then the mode. No file
//! is touched before all three are in order.

use vstd::prelude::*;
use vstd::string::*;
use crate::key::KEY_LEN;
use crate::operation::{mode_of, parse_mode, Mode};

verus! {

/// Number of arguments that an invocation needs, the program's name
/// counted.
pub const ARGUMENT_COUNT: usize = 5;

/// What is to be done for a command line.
#[derive(Clone, Copy, Debug, PartialEq, Eq, Structural)]
pub enum Invocation {
    /// Arguments are missing: the usage is shown and nothing else is done.
    Usage,
    /// The passphrase has more than 32 characters.
    PassphraseTooLong,
    /// The mode is neither `encrypt` nor `decrypt`.
    InvalidMode,
    /// The input file is taken the way of the mode.
    Run(Mode),
}

/// The invocation that arguments stand for.
pub open spec fn invocation_of(args: Seq<Seq<char>>) -> Invocation {
    if args.len() < ARGUMENT_COUNT {
        Invocation::Usage
    } else if args[4].len() > KEY_LEN {
        Invocation::PassphraseTooLong
    } else {
        match mode_of(args[1]) {
            None => Invocation::InvalidMode,
            Some(mode) => Invocation::Run(mode),
        }
    }
}

/// Judges the arguments of a process. Arguments after the fifth are not
/// looked at.
pub fn read_arguments(args: &Vec<String>) -> (invocation: Invocation)
    ensures
        invocation == invocation_of(args.deep_view()),
{
    if args.len() < ARGUMENT_COUNT {
        return Invocation::Usage;
    }
    if args[4].as_str().unicode_len() > KEY_LEN {
        return Invocation::PassphraseTooLong;
    }
    match parse_mode(args[1].as_str()) {
        None => Invocation::InvalidMode,
        Some(mode) => Invocation::Run(mode),
    }
}

} // verus!
