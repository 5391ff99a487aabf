//! Errors that can occur when a sweep is computed.

use vstd::prelude::*;
use vstd::std_specs::cmp::PartialEqSpecImpl;
use vstd::string::StringExecFns;

verus! {

/// Errors that can occur when processing a sweep.
#[derive(Debug)]
pub enum Error {
    /// An account or pot named by the configuration cannot be found in the
    /// live state. Carries the identifier that was looked for.
    NotFound(String),
    /// A pot of the swept account has no goal amount set. Carries the name
    /// of the pot.
    NoPotGoal(String),
}

/// The mathematical content of an [`Error`].
pub enum ErrorView {
    /// Nothing is known under this identifier.
    NotFound(Seq<char>),
    /// The pot of this name has no goal.
    NoPotGoal(Seq<char>),
}

impl View for Error {
    type V = ErrorView;

    open spec fn view(&self) -> ErrorView {
        match self {
            Error::NotFound(identifier) => ErrorView::NotFound(identifier@),
            Error::NoPotGoal(name) => ErrorView::NoPotGoal(name@),
        }
    }
}

impl PartialEq for Error {
    fn eq(&self, other: &Self) -> (equal: bool) {
        match self {
            Error::NotFound(a) => match other {
                Error::NotFound(b) => *a == *b,
                Error::NoPotGoal(_) => false,
            },
            Error::NoPotGoal(a) => match other {
                Error::NotFound(_) => false,
                Error::NoPotGoal(b) => *a == *b,
            },
        }
    }
}

impl PartialEqSpecImpl for Error {
    open spec fn obeys_eq_spec() -> bool {
        true
    }

    open spec fn eq_spec(&self, other: &Self) -> bool {
        self@ == other@
    }
}

impl Error {
    /// The text shown to the user for this error.
    pub open spec fn spec_message(&self) -> Seq<char> {
        match self {
            Error::NotFound(identifier) => "not found: "@ + identifier@,
            Error::NoPotGoal(name) => "Pot '"@ + name@ + "' has no 'goal amount' set"@,
        }
    }

    /// Renders the error as a line of text for the user.
    pub fn message(&self) -> (text: String)
        ensures
            text@ == self.spec_message(),
    {
        match self {
            Error::NotFound(identifier) => {
                String::from_str("not found: ").concat(identifier.as_str())
            },
            Error::NoPotGoal(name) => {
                String::from_str("Pot '").concat(name.as_str()).concat(
                    "' has no 'goal amount' set",
                )
            },
        }
    }
}

} // verus!
