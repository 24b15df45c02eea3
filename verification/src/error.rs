//! What keeps a search from an answer.
use vstd::prelude::*;
use vstd::string::StringExecFns;

verus! {

/// Why a search gave no result.
#[derive(Debug, PartialEq, Eq, Clone, Copy, Structural)]
pub enum SearchError {
    /// The tuning text is not a list of notes with octaves.
    InvalidTuningFormat,
    /// The chord name was not understood.
    UnknownChordName,
    /// The chord has no pitch class.
    EmptyChord,
}

impl SearchError {
    /// What to tell the user who asked for the chord `name`.
    pub fn message(&self, name: &str) -> (text: String)
        ensures
            *self == SearchError::InvalidTuningFormat ==> text@
                == "Bad tonality string; ensure format is `A1 B2 C3`"@,
            *self == SearchError::UnknownChordName ==> text@ == name@ + " is not a correct chord"@,
            *self == SearchError::EmptyChord ==> text@ == name@ + " has no notes"@,
    {
        match self {
            SearchError::InvalidTuningFormat => {
                "Bad tonality string; ensure format is `A1 B2 C3`".to_owned()
            },
            SearchError::UnknownChordName => {
                let mut text = name.to_owned();
                text.append(" is not a correct chord");
                text
            },
            SearchError::EmptyChord => {
                let mut text = name.to_owned();
                text.append(" has no notes");
                text
            },
        }
    }
}

} // verus!
