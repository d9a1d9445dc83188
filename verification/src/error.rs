//! The error type shared by every parser of the library.
use vstd::prelude::*;

verus! {

/// What a parser or a resolver reports when it refuses its input. Each
/// variant carries a short description for a human reader.
#[derive(Debug, Clone, PartialEq, Eq)]
pub enum BlurayError {
    /// The medium is not a Blu-ray disc.
    NotBluray(String),
    /// The bytes do not follow the on-disc layout.
    Malformed(String),
    /// The bytes are well formed but name a feature that is not handled.
    Unsupported(String),
}

impl BlurayError {
    /// A [`BlurayError::Malformed`] with this description.
    pub open spec fn is_malformed(self, text: Seq<char>) -> bool {
        self is Malformed && self->Malformed_0@ == text
    }

    /// A [`BlurayError::Malformed`] with the given description.
    pub fn malformed(msg: &str) -> (e: Self)
        ensures
            e.is_malformed(msg@),
    {
        BlurayError::Malformed(msg.to_owned())
    }

    /// A [`BlurayError::NotBluray`] with the given description.
    pub fn not_bluray(msg: &str) -> (e: Self)
        ensures
            e is NotBluray,
            e->NotBluray_0@ == msg@,
    {
        BlurayError::NotBluray(msg.to_owned())
    }

    /// A [`BlurayError::Unsupported`] with the given description.
    pub fn unsupported(msg: &str) -> (e: Self)
        ensures
            e is Unsupported,
            e->Unsupported_0@ == msg@,
    {
        BlurayError::Unsupported(msg.to_owned())
    }
}

} // verus!
