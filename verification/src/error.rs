use vstd::prelude::*;

verus! {

/// The fatal error categories this tool can end with. Permission-denied while
/// walking directories is deliberately not here: it is demoted to a warning and
/// the walk continues.
#[derive(Debug)]
pub enum TmsError {
    ConfigError,
    IoError,
    TuiError(String),
    NoDefaultWorktree,
    MultiplexerUnavailable,
}

impl TmsError {
    pub open spec fn message_spec(&self) -> Seq<char> {
        match self {
            TmsError::ConfigError => "Config Error"@,
            TmsError::IoError => "IO Error"@,
            TmsError::TuiError(inner) => "TUI error: "@ + inner@,
            TmsError::NoDefaultWorktree => "No default worktree"@,
            TmsError::MultiplexerUnavailable => "Multiplexer unavailable"@,
        }
    }

    /// Human-readable description of the error.
    pub fn message(&self) -> (r: String)
        ensures
            r@ == self.message_spec(),
    {
        match self {
            TmsError::ConfigError => "Config Error".to_owned(),
            TmsError::IoError => "IO Error".to_owned(),
            TmsError::TuiError(inner) => {
                let mut s = "TUI error: ".to_owned();
                s.append(inner.as_str());
                s
            }
            TmsError::NoDefaultWorktree => "No default worktree".to_owned(),
            TmsError::MultiplexerUnavailable => "Multiplexer unavailable".to_owned(),
        }
    }
}

/// A hint attached to an error report, shown beside the error itself.
#[derive(Debug)]
pub struct Suggestion(pub &'static str);

impl Suggestion {
    /// Human-readable form of the hint.
    pub fn message(&self) -> (r: String)
        ensures
            r@ == "Suggestion: "@ + self.0@,
    {
        let mut s = "Suggestion: ".to_owned();
        s.append(self.0);
        s
    }
}

} // verus!
