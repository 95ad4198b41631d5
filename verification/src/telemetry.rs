//! Telemetry levels and the formats of the collector's own logs.
use vstd::prelude::*;
use crate::text::{ascii_lower, eq_ignore_ascii_case};

verus! {

/// How much telemetry the collector reports about itself.
#[derive(Debug, Copy, Clone, Hash, PartialEq, Eq, PartialOrd, Ord)]
pub enum LogLevel {
    /// No telemetry data is collected (shown as `None`).
    Disabled,
    /// The recommended level: the basics of the service telemetry.
    Basic,
    /// Some other indicators on top of the basic ones.
    Normal,
    /// Dimensions and views on top of the previous levels.
    Detailed,
}

impl LogLevel {
    /// The name of the level.
    pub open spec fn spec_name(self) -> Seq<char> {
        match self {
            LogLevel::Disabled => "None"@,
            LogLevel::Basic => "Basic"@,
            LogLevel::Normal => "Normal"@,
            LogLevel::Detailed => "Detailed"@,
        }
    }

    /// The name of the level.
    pub fn as_str(&self) -> (r: &'static str)
        ensures
            r@ == self.spec_name(),
    {
        match self {
            LogLevel::Disabled => "None",
            LogLevel::Basic => "Basic",
            LogLevel::Normal => "Normal",
            LogLevel::Detailed => "Detailed",
        }
    }
}

/// How the collector writes its logs.
#[derive(Debug, Clone, Copy, Hash, PartialEq, Eq, PartialOrd, Ord)]
pub enum LogFormat {
    Json,
    Pretty,
}

/// A text that names no log format.
#[derive(Debug)]
pub struct UnknownLogFormat(pub String);

/// The log format a text names: `json` or `pretty`, in any case of ASCII letters.
pub open spec fn named_log_format(s: Seq<char>) -> Option<LogFormat> {
    if ascii_lower(s) == ascii_lower("json"@) {
        Some(LogFormat::Json)
    } else if ascii_lower(s) == ascii_lower("pretty"@) {
        Some(LogFormat::Pretty)
    } else {
        None
    }
}

/// The case of ASCII letters does not matter to the log format a text names.
pub proof fn log_format_ignores_case(s: Seq<char>, t: Seq<char>)
    requires
        ascii_lower(s) == ascii_lower(t),
    ensures
        named_log_format(s) == named_log_format(t),
{
}

impl LogFormat {
    /// The log format a text names: `json` or `pretty`, in any case of ASCII letters.
    pub fn parse(s: &str) -> (r: Result<LogFormat, UnknownLogFormat>)
        ensures
            match named_log_format(s@) {
                Some(format) => r == Ok::<LogFormat, UnknownLogFormat>(format),
                None => r matches Err(UnknownLogFormat(text)) && text@ == s@,
            },
    {
        if eq_ignore_ascii_case(s, "json") {
            Ok(LogFormat::Json)
        } else if eq_ignore_ascii_case(s, "pretty") {
            Ok(LogFormat::Pretty)
        } else {
            Err(UnknownLogFormat(String::from_str(s)))
        }
    }
}

impl std::str::FromStr for LogFormat {
    type Err = UnknownLogFormat;

    fn from_str(s: &str) -> (r: Result<LogFormat, UnknownLogFormat>)
        ensures
            match named_log_format(s@) {
                Some(format) => r == Ok::<LogFormat, UnknownLogFormat>(format),
                None => r matches Err(UnknownLogFormat(text)) && text@ == s@,
            },
    {
        LogFormat::parse(s)
    }
}

} // verus!
