//! The arguments of the word printer, which writes the words of its input
//! out one by one with a pause after each.

use crate::decimal::{parse_u64, unsigned_of};
use vstd::prelude::*;

verus! {

/// The pause after each word in milliseconds where none is asked for.
pub const DEFAULT_DELAY_MS: u64 = 200;

/// The status that the printer exits with after a wrong argument.
pub const USAGE_EXIT_STATUS: i32 = 2;

/// The flag that sets the pause.
pub const DELAY_FLAG: &'static str = "--delay-ms";

/// How the printer is called.
pub const USAGE: &'static str = "Usage: ccdemo [--delay-ms N] < input.txt";

/// Why the arguments were refused.
#[derive(Debug, Clone)]
pub enum CliError {
    /// The flag for the pause stands last, without a value.
    MissingDelayValue,
    /// The value of the pause is no number; it is held here.
    InvalidDelay(String),
    /// An argument that the printer does not know; it is held here.
    UnknownArgument(String),
}

/// `CliError` as mathematical values.
pub ghost enum CliErrorView {
    MissingDelayValue,
    InvalidDelay(Seq<char>),
    UnknownArgument(Seq<char>),
}

impl View for CliError {
    type V = CliErrorView;

    open spec fn view(&self) -> CliErrorView {
        match self {
            CliError::MissingDelayValue => CliErrorView::MissingDelayValue,
            CliError::InvalidDelay(value) => CliErrorView::InvalidDelay(value@),
            CliError::UnknownArgument(arg) => CliErrorView::UnknownArgument(arg@),
        }
    }
}

/// What an error is reported with.
pub open spec fn error_message(error: CliErrorView) -> Seq<char> {
    match error {
        CliErrorView::MissingDelayValue => "--delay-ms requires a value (milliseconds)"@,
        CliErrorView::InvalidDelay(value) => "Invalid --delay-ms value: "@ + value,
        CliErrorView::UnknownArgument(arg) => "Unknown arg: "@ + arg,
    }
}

impl CliError {
    /// The error in words.
    pub fn message(&self) -> (text: String)
        ensures
            text@ == error_message(self@),
    {
        match self {
            CliError::MissingDelayValue => "--delay-ms requires a value (milliseconds)".to_owned(),
            CliError::InvalidDelay(value) => {
                let mut text = "Invalid --delay-ms value: ".to_owned();
                text.append(value.as_str());
                text
            },
            CliError::UnknownArgument(arg) => {
                let mut text = "Unknown arg: ".to_owned();
                text.append(arg.as_str());
                text
            },
        }
    }
}

/// The pause that `args` ask for, read from the left, where `current` is
/// the pause in force before them.
///
/// The flag for the pause takes the argument behind it as its value, and a
/// later one replaces an earlier one. The first argument that is wrong ends
/// the reading: a flag without a value, a value that is no unsigned number of
/// 64 bits, or anything but the flag.
pub open spec fn delay_of(args: Seq<Seq<char>>, current: u64) -> Result<u64, CliErrorView>
    decreases args.len(),
{
    if args.len() == 0 {
        Ok(current)
    } else if args[0] == DELAY_FLAG@ {
        if args.len() < 2 {
            Err(CliErrorView::MissingDelayValue)
        } else {
            match unsigned_of(args[1], u64::MAX as nat) {
                Some(n) => delay_of(args.skip(2), n as u64),
                None => Err(CliErrorView::InvalidDelay(args[1])),
            }
        }
    } else {
        Err(CliErrorView::UnknownArgument(args[0]))
    }
}

/// `Result<u64, CliError>` as mathematical values.
pub open spec fn result_view(r: Result<u64, CliError>) -> Result<u64, CliErrorView> {
    match r {
        Ok(n) => Ok(n),
        Err(e) => Err(e@),
    }
}

/// Reads the pause out of the arguments that follow the program's name.
pub fn parse_args(args: &Vec<String>) -> (r: Result<u64, CliError>)
    ensures
        result_view(r) == delay_of(args.deep_view(), DEFAULT_DELAY_MS),
{
    let flag = DELAY_FLAG.to_owned();
    let mut delay: u64 = DEFAULT_DELAY_MS;
    let mut i: usize = 0;
    let ghost all = args.deep_view();
    assert(all.skip(0) == all);
    while i < args.len()
        invariant
            0 <= i <= args.len(),
            all == args.deep_view(),
            flag@ == DELAY_FLAG@,
            delay_of(all, DEFAULT_DELAY_MS) == delay_of(all.skip(i as int), delay),
        decreases args.len() - i,
    {
        let ghost rest = all.skip(i as int);
        assert(rest[0] == args[i as int]@);
        if args[i] == flag {
            if i + 1 >= args.len() {
                return Err(CliError::MissingDelayValue);
            }
            assert(rest[1] == args[i + 1]@);
            match parse_u64(args[i + 1].as_str()) {
                Some(n) => {
                    assert(rest.skip(2) == all.skip(i + 2));
                    delay = n;
                    i = i + 2;
                },
                None => {
                    return Err(CliError::InvalidDelay(args[i + 1].clone()));
                },
            }
        } else {
            return Err(CliError::UnknownArgument(args[i].clone()));
        }
    }
    Ok(delay)
}

} // verus!
