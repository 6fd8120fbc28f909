use vstd::prelude::*;

verus! {

/// Errors raised by loading, resolving and merging calendars.
#[derive(Debug)]
pub enum Error {
    /// The configuration is malformed or fails validation.
    Config(String),
    /// A remote feed could not be fetched.
    Fetch(String),
    /// Feed text could not be parsed.
    Parse(String),
    /// A pattern is not a valid regular expression.
    Regex(String),
    /// No calendar of the requested name is configured.
    CalendarNotFound(String),
}

impl Error {
    /// The message carried by the error, whatever its kind.
    pub fn message(&self) -> (r: &String)
        ensures
            r == match self {
                Error::Config(m) => m,
                Error::Fetch(m) => m,
                Error::Parse(m) => m,
                Error::Regex(m) => m,
                Error::CalendarNotFound(m) => m,
            },
    {
        match self {
            Error::Config(m) => m,
            Error::Fetch(m) => m,
            Error::Parse(m) => m,
            Error::Regex(m) => m,
            Error::CalendarNotFound(m) => m,
        }
    }
}

} // verus!
