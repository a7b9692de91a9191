use vstd::prelude::*;

verus! {

/// The kinds of message the tool prints.
#[derive(Debug, Clone, Copy, PartialEq, Eq, Structural)]
pub enum LogLevel {
    Error,
    Warning,
    Info,
    Prompt,
    Exec,
    Dry,
    Fruitful,
}

impl LogLevel {
    /// Whether a message of this kind is printed: quiet runs print only
    /// errors and warnings, and informational messages need a verbose run.
    pub fn should_print(&self, quiet: bool, verbose: bool) -> (r: bool)
        ensures
            r == !((quiet && *self != LogLevel::Error && *self != LogLevel::Warning) || (*self == LogLevel::Info && !verbose)),
    {
        !((quiet && *self != LogLevel::Error && *self != LogLevel::Warning) || (*self == LogLevel::Info && !verbose))
    }

    /// Whether a message of this kind goes to the error stream.
    pub fn to_stderr(&self) -> (r: bool)
        ensures
            r == (*self == LogLevel::Error || *self == LogLevel::Warning),
    {
        *self == LogLevel::Error || *self == LogLevel::Warning
    }
}

} // verus!
