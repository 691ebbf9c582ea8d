//! What the diagnostic logger decides: which records it takes, how a line
//! reads, and in what tone it is printed.

use vstd::prelude::*;
use crate::hash::{decimal_text, push_decimal};

verus! {

/// How severe a record is, most severe first.
#[derive(Clone, Copy, Debug, PartialEq, Eq, Structural)]
pub enum Level {
    Error,
    Warn,
    Info,
    Debug,
    Trace,
}

/// The tone in which a line is printed.
#[derive(Clone, Copy, Debug, PartialEq, Eq, Structural)]
pub enum Tone {
    Green,
    BrightRed,
}

/// The logger's configuration.
#[derive(Clone, Copy, Debug, PartialEq, Eq, Structural)]
pub struct Logger {
    pub max_level: Level,
}

/// A line to print.
#[derive(Debug)]
pub struct Line {
    pub text: String,
    pub tone: Tone,
}

/// The rank of a level: 0 for the most severe.
pub open spec fn rank(level: Level) -> int {
    match level {
        Level::Error => 0,
        Level::Warn => 1,
        Level::Info => 2,
        Level::Debug => 3,
        Level::Trace => 4,
    }
}

/// How a record reads: `[<file>:<line>] <message>`.
pub open spec fn line_text(file: Seq<char>, line: u32, message: Seq<char>) -> Seq<char> {
    "["@ + file + ":"@ + decimal_text(line as nat) + "] "@ + message
}

/// The tone of a level: green for `Info`, bright red for all others.
pub open spec fn tone_of(level: Level) -> Tone {
    if level == Level::Info {
        Tone::Green
    } else {
        Tone::BrightRed
    }
}

/// The rank of a level.
pub fn level_rank(level: Level) -> (r: u8)
    ensures
        r == rank(level),
{
    match level {
        Level::Error => 0,
        Level::Warn => 1,
        Level::Info => 2,
        Level::Debug => 3,
        Level::Trace => 4,
    }
}

impl Logger {
    /// Whether records of `level` are taken: those that are at least as severe
    /// as `Info`.
    pub fn enabled(&self, level: Level) -> (taken: bool)
        ensures
            taken == (rank(level) <= rank(Level::Info)),
    {
        level_rank(level) <= level_rank(Level::Info)
    }

    /// The line for a record, where records of its level are taken.
    pub fn log(&self, level: Level, file: &str, line: u32, message: &str) -> (out: Option<Line>)
        ensures
            out is Some == (rank(level) <= rank(Level::Info)),
            out matches Some(l) ==> l.text@ == line_text(file@, line, message@) && l.tone
                == tone_of(level),
    {
        if !self.enabled(level) {
            return None;
        }
        let mut text = String::from_str("[");
        text.append(file);
        text.append(":");
        push_decimal(&mut text, line as usize);
        text.append("] ");
        text.append(message);
        let tone = if level == Level::Info {
            Tone::Green
        } else {
            Tone::BrightRed
        };
        Some(Line { text, tone })
    }
}

/// The logger as it is installed at start: records up to `Info` are taken.
pub fn init() -> (logger: Logger)
    ensures
        logger.max_level == Level::Info,
{
    Logger { max_level: Level::Info }
}

} // verus!
