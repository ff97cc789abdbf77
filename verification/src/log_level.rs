//! Log levels, and the level a server filters its logging by.

use vstd::prelude::*;
use crate::text::{all_ascii, ascii_lowered, chars_eq, chars_of, lowercase, to_lowercase};

verus! {

broadcast use vstd::string::group_string_axioms;

/// How much a message matters; a level lets through itself and every level
/// before it in this order.
#[derive(Debug, Clone, Copy, PartialEq, Eq, Structural, Hash, PartialOrd, Ord)]
pub enum LogLevel {
    Error,
    Warn,
    Info,
    Success,
    Verbose,
    Debug,
}

/// A level's place in the order, which is also the number it is stored as.
pub open spec fn rank(level: LogLevel) -> u8 {
    match level {
        LogLevel::Error => 0,
        LogLevel::Warn => 1,
        LogLevel::Info => 2,
        LogLevel::Success => 3,
        LogLevel::Verbose => 4,
        LogLevel::Debug => 5,
    }
}

/// The level stored as a number; unknown numbers stand for `Info`.
pub open spec fn level_of(value: u8) -> LogLevel {
    if value == 0 {
        LogLevel::Error
    } else if value == 1 {
        LogLevel::Warn
    } else if value == 2 {
        LogLevel::Info
    } else if value == 3 {
        LogLevel::Success
    } else if value == 4 {
        LogLevel::Verbose
    } else if value == 5 {
        LogLevel::Debug
    } else {
        LogLevel::Info
    }
}

/// The level a name selects, once lowercased; unknown names select `Info`.
pub open spec fn parse_spec(lower: Seq<char>) -> LogLevel {
    if lower == "error"@ {
        LogLevel::Error
    } else if lower == "warn"@ {
        LogLevel::Warn
    } else if lower == "info"@ {
        LogLevel::Info
    } else if lower == "success"@ || lower == "sccs"@ {
        LogLevel::Success
    } else if lower == "verbose"@ || lower == "verb"@ {
        LogLevel::Verbose
    } else if lower == "debug"@ {
        LogLevel::Debug
    } else {
        LogLevel::Info
    }
}

/// The name of a level.
pub open spec fn level_name(level: LogLevel) -> Seq<char> {
    match level {
        LogLevel::Error => "error"@,
        LogLevel::Warn => "warn"@,
        LogLevel::Info => "info"@,
        LogLevel::Success => "success"@,
        LogLevel::Verbose => "verbose"@,
        LogLevel::Debug => "debug"@,
    }
}

/// The level a context log names exactly; anything else logs as `Info`.
pub open spec fn context_level_spec(level: Seq<char>) -> LogLevel {
    if level == "success"@ {
        LogLevel::Success
    } else if level == "warn"@ {
        LogLevel::Warn
    } else if level == "error"@ {
        LogLevel::Error
    } else {
        LogLevel::Info
    }
}

fn is(text: &[char], word: &str) -> (r: bool)
    ensures
        r == (text@ == word@),
{
    let w = chars_of(word);
    chars_eq(text, w.as_slice())
}

impl LogLevel {
    /// The level a name selects, case-insensitively: `error`, `warn`, `info`,
    /// `success` or `sccs`, `verbose` or `verb`, `debug`; `Info` for any other.
    pub fn parse(s: &str) -> (r: LogLevel)
        ensures
            r == parse_spec(lowercase(s@)),
            all_ascii(s@) ==> r == parse_spec(ascii_lowered(s@)),
    {
        let lower = to_lowercase(s);
        let l = chars_of(lower.as_str());
        let t = l.as_slice();
        if is(t, "error") {
            LogLevel::Error
        } else if is(t, "warn") {
            LogLevel::Warn
        } else if is(t, "info") {
            LogLevel::Info
        } else if is(t, "success") || is(t, "sccs") {
            LogLevel::Success
        } else if is(t, "verbose") || is(t, "verb") {
            LogLevel::Verbose
        } else if is(t, "debug") {
            LogLevel::Debug
        } else {
            LogLevel::Info
        }
    }

    /// The level's name.
    pub fn as_str(&self) -> (r: &'static str)
        ensures
            r@ == level_name(*self),
            *self == LogLevel::Error ==> r@ == "error"@,
            *self == LogLevel::Warn ==> r@ == "warn"@,
            *self == LogLevel::Info ==> r@ == "info"@,
            *self == LogLevel::Success ==> r@ == "success"@,
            *self == LogLevel::Verbose ==> r@ == "verbose"@,
            *self == LogLevel::Debug ==> r@ == "debug"@,
    {
        match self {
            LogLevel::Error => "error",
            LogLevel::Warn => "warn",
            LogLevel::Info => "info",
            LogLevel::Success => "success",
            LogLevel::Verbose => "verbose",
            LogLevel::Debug => "debug",
        }
    }

    /// The number the level is stored as.
    pub fn as_u8(self) -> (r: u8)
        ensures
            r == rank(self),
    {
        match self {
            LogLevel::Error => 0,
            LogLevel::Warn => 1,
            LogLevel::Info => 2,
            LogLevel::Success => 3,
            LogLevel::Verbose => 4,
            LogLevel::Debug => 5,
        }
    }

    /// The level behind a stored number; unknown numbers fall back to `Info`.
    pub fn from_u8(value: u8) -> (r: LogLevel)
        ensures
            r == level_of(value),
    {
        match value {
            0 => LogLevel::Error,
            1 => LogLevel::Warn,
            2 => LogLevel::Info,
            3 => LogLevel::Success,
            4 => LogLevel::Verbose,
            5 => LogLevel::Debug,
            _ => LogLevel::Info,
        }
    }
}

/// The level a context log names: `info`, `success`, `warn` or `error`
/// exactly, `Info` for anything else.
pub fn context_log_level(level: &str) -> (r: LogLevel)
    ensures
        r == context_level_spec(level@),
{
    let l = chars_of(level);
    let t = l.as_slice();
    if is(t, "success") {
        LogLevel::Success
    } else if is(t, "warn") {
        LogLevel::Warn
    } else if is(t, "error") {
        LogLevel::Error
    } else {
        LogLevel::Info
    }
}

/// The level a server lets log messages through at, held as the number the
/// level is stored as.
pub struct LogSettings {
    pub level: u8,
}

impl LogSettings {
    /// Settings at the default level, `Info`.
    pub fn new() -> (r: LogSettings)
        ensures
            level_of(r.level) == LogLevel::Info,
    {
        LogSettings { level: 2 }
    }
}

/// Sets the level messages are let through at.
pub fn set_log_level(settings: &mut LogSettings, level: LogLevel)
    ensures
        final(settings).level == rank(level),
{
    settings.level = level.as_u8();
}

/// The level currently in effect.
pub fn current_log_level(settings: &LogSettings) -> (r: LogLevel)
    ensures
        r == level_of(settings.level),
{
    LogLevel::from_u8(settings.level)
}

/// Whether a message at `level` is let through: its level comes no later in
/// the order than the current one.
pub fn should_log(settings: &LogSettings, level: LogLevel) -> (r: bool)
    ensures
        r == (rank(level) <= rank(level_of(settings.level))),
{
    level.as_u8() <= current_log_level(settings).as_u8()
}

/// Setting a level takes effect at every level: the level in effect after
/// setting one is that level.
pub proof fn law_set_then_current(level: LogLevel)
    ensures
        level_of(rank(level)) == level,
{
}

/// A level lets through exactly itself and the levels before it: once
/// `current` is set, a message at `level` is let through iff `level` comes
/// no later in the order than `current`; `Error` always is, and at `Debug`
/// everything is.
pub proof fn law_should_log_at_or_below(current: LogLevel, level: LogLevel)
    ensures
        (rank(level) <= rank(level_of(rank(current)))) == (rank(level) <= rank(current)),
        rank(LogLevel::Error) <= rank(level_of(rank(current))),
        rank(level) <= rank(level_of(rank(LogLevel::Debug))),
{
}

/// The level this process logs at: the one `INSIGHTS_LOG_LEVEL` names when
/// it is set, `Info` otherwise.
pub open spec fn configured_level_spec(value: Option<Seq<char>>) -> LogLevel {
    match value {
        Some(v) => parse_spec(lowercase(v)),
        None => LogLevel::Info,
    }
}

/// The level this process logs at, given what `INSIGHTS_LOG_LEVEL` holds.
pub fn configured_log_level(value: Option<&str>) -> (r: LogLevel)
    ensures
        r == configured_level_spec(
            match value {
                Some(v) => Some(v@),
                None => None,
            },
        ),
{
    match value {
        Some(v) => LogLevel::parse(v),
        None => LogLevel::Info,
    }
}

/// The user agent a request log names: the header's text, `unknown` when the
/// header is not text, `none` when there is no header.
pub open spec fn user_agent_spec(header: Option<Option<Seq<char>>>) -> Seq<char> {
    match header {
        Some(Some(v)) => v,
        Some(None) => "unknown"@,
        None => "none"@,
    }
}

/// The user agent a request log names, given the `user-agent` header if there
/// is one, and its text if it is text.
pub fn user_agent(header: Option<Option<&str>>) -> (r: String)
    ensures
        r@ == user_agent_spec(
            match header {
                Some(Some(v)) => Some(Some(v@)),
                Some(None) => Some(None),
                None => None,
            },
        ),
{
    match header {
        Some(Some(v)) => v.to_string(),
        Some(None) => "unknown".to_string(),
        None => "none".to_string(),
    }
}

/// Every level reads back from its name, in any ASCII case: text whose
/// ASCII capitals lowered give a level's name parses as that level.
pub proof fn law_level_names_read_back(level: LogLevel, s: Seq<char>)
    requires
        ascii_lowered(s) == level_name(level),
    ensures
        parse_spec(ascii_lowered(s)) == level,
{
    reveal_strlit("error");
    reveal_strlit("warn");
    reveal_strlit("info");
    reveal_strlit("success");
    reveal_strlit("sccs");
    reveal_strlit("verbose");
    reveal_strlit("verb");
    reveal_strlit("debug");
    let names = seq!["error"@, "warn"@, "info"@, "success"@, "sccs"@, "verbose"@, "verb"@, "debug"@];
    assert forall|i: int, j: int| 0 <= i < j < 8 implies #[trigger] names[i] != #[trigger] names[j] by {
        if names[i].len() == names[j].len() {
            assert(names[i][0] != names[j][0]);
        }
    }
    assert(names[0] != names[1] && names[0] != names[2] && names[1] != names[2] && names[0] != names[3]);
    assert(names[0] != names[4] && names[1] != names[3] && names[1] != names[4] && names[2] != names[3]);
    assert(names[2] != names[4] && names[0] != names[5] && names[1] != names[5] && names[2] != names[5]);
    assert(names[3] != names[5] && names[4] != names[5] && names[0] != names[6] && names[1] != names[6]);
    assert(names[2] != names[6] && names[3] != names[6] && names[4] != names[6] && names[0] != names[7]);
    assert(names[1] != names[7] && names[2] != names[7] && names[3] != names[7] && names[4] != names[7]);
    assert(names[5] != names[7] && names[6] != names[7]);
}

} // verus!
