use vstd::prelude::*;

verus! {

/// Errors that can occur during a derivation.
#[derive(Debug, Clone, PartialEq)]
pub enum DerivationError {
    /// No valid operation is available
    NoValidOperations,
    /// The memory limit is exceeded
    MemoryLimitExceeded,
    /// Features do not match for the operation
    FeatureMismatch,
    /// The workspace is empty
    EmptyWorkspace,
    /// Invalid operation sequence
    InvalidOperation,
    /// A token that the lexicon lacks
    UnknownToken(String),
}

impl DerivationError {
    /// A human-readable description of the error.
    pub fn message(&self) -> (r: String)
        ensures
            r@ == self.spec_message(),
    {
        match self {
            DerivationError::NoValidOperations => "No valid operations available".to_string(),
            DerivationError::MemoryLimitExceeded => "Memory limit exceeded".to_string(),
            DerivationError::FeatureMismatch => "Feature mismatch".to_string(),
            DerivationError::EmptyWorkspace => "Empty workspace".to_string(),
            DerivationError::InvalidOperation => "Invalid operation".to_string(),
            DerivationError::UnknownToken(s) => {
                let mut m = "Unknown token: ".to_string();
                m.append(s.as_str());
                m
            },
        }
    }

    /// The text of `message`.
    pub open spec fn spec_message(&self) -> Seq<char> {
        match self {
            DerivationError::NoValidOperations => "No valid operations available"@,
            DerivationError::MemoryLimitExceeded => "Memory limit exceeded"@,
            DerivationError::FeatureMismatch => "Feature mismatch"@,
            DerivationError::EmptyWorkspace => "Empty workspace"@,
            DerivationError::InvalidOperation => "Invalid operation"@,
            DerivationError::UnknownToken(s) => "Unknown token: "@ + s@,
        }
    }
}

} // verus!
