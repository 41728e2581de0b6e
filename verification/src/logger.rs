//! Where the log goes and how it looks.
use crate::log_filter::{check_filter, filter_error, is_sliced_between_chars, sliced_between_chars};
use vstd::prelude::*;

verus! {

/// `std::path::PathBuf`: the path of a file. Nothing is claimed of it.
#[verifier::external_type_specification]
#[verifier::external_body]
pub struct ExPathBuf(std::path::PathBuf);

/// The configuration of the log.
#[derive(Debug, Clone)]
pub struct LoggerConfig {
    pub env_filter: String,
    pub log_file_path: Option<std::path::PathBuf>,
    pub log_json: bool,
    pub log_color: bool,
}

impl Default for LoggerConfig {
    fn default() -> (config: Self)
        ensures
            config.env_filter@ == Seq::<char>::empty(),
            config.log_file_path is None,
            !config.log_json,
            !config.log_color,
    {
        LoggerConfig {
            env_filter: String::new(),
            log_file_path: None,
            log_json: false,
            log_color: false,
        }
    }
}

/// How a line of the log looks.
#[derive(Debug, Clone, Copy, PartialEq, Eq)]
pub enum LogFormat {
    /// A JSON object.
    Json,
    /// Text, with or without colors.
    Text { ansi: bool },
}

/// A log to be started.
#[derive(Debug, Clone)]
pub struct LogPlan {
    /// Filter directives that can be read.
    pub env_filter: String,
    /// The file to create for the log; without one it goes to the standard output.
    pub file: Option<std::path::PathBuf>,
    pub format: LogFormat,
}

impl LoggerConfig {
    /// `plan` is the log that the configuration asks for. Colors do not matter for a log in JSON.
    pub open spec fn asks_for(self, plan: LogPlan) -> bool {
        &&& plan.env_filter == self.env_filter
        &&& plan.file == self.log_file_path
        &&& plan.format == (if self.log_json {
            LogFormat::Json
        } else {
            LogFormat::Text { ansi: self.log_color }
        })
    }

    /// The log that the configuration asks for, or why its filter directives cannot be read.
    ///
    /// The parser of the directives must not slice one inside a character.
    pub fn init_tracing(self) -> (plan: Result<LogPlan, String>)
        requires
            sliced_between_chars(self.env_filter@),
        ensures
            (match plan {
                Ok(plan) => filter_error(self.env_filter@) is None && self.asks_for(plan),
                Err(reason) => filter_error(self.env_filter@) == Some(reason@),
            }),
            plan is Ok <==> filter_error(self.env_filter@) is None,
            plan matches Ok(made) ==> made.env_filter@ == self.env_filter@ && made.file
                == self.log_file_path && (made.format is Json <==> self.log_json)
                && (made.format matches LogFormat::Text { ansi } ==> ansi == self.log_color),
    {
        match check_filter(self.env_filter.as_str()) {
            Ok(_) => Ok(self.plan()),
            Err(reason) => Err(reason),
        }
    }

    /// The log that the configuration asks for, as [`LoggerConfig::init_tracing`] gives it, or
    /// none if the parser of its filter directives would slice one inside a character.
    pub fn try_init_tracing(self) -> (plan: Option<Result<LogPlan, String>>)
        ensures
            plan is Some <==> sliced_between_chars(self.env_filter@),
            (match plan {
                Some(Ok(plan)) => filter_error(self.env_filter@) is None && self.asks_for(plan),
                Some(Err(reason)) => filter_error(self.env_filter@) == Some(reason@),
                None => true,
            }),
            plan matches Some(Ok(made)) ==> made.env_filter@ == self.env_filter@ && made.file
                == self.log_file_path && (made.format is Json <==> self.log_json)
                && (made.format matches LogFormat::Text { ansi } ==> ansi == self.log_color),
    {
        if is_sliced_between_chars(self.env_filter.as_str()) {
            Some(self.init_tracing())
        } else {
            None
        }
    }

    /// The log that the configuration asks for, its filter directives being readable.
    pub fn plan(self) -> (plan: LogPlan)
        ensures
            self.asks_for(plan),
            plan.env_filter@ == self.env_filter@,
            plan.file == self.log_file_path,
            plan.format is Json <==> self.log_json,
            plan.format matches LogFormat::Text { ansi } ==> ansi == self.log_color,
    {
        let format = if self.log_json {
            LogFormat::Json
        } else {
            LogFormat::Text { ansi: self.log_color }
        };
        LogPlan { env_filter: self.env_filter, file: self.log_file_path, format }
    }
}

} // verus!
