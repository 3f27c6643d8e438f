use vstd::prelude::*;
use vstd::string::StringExecFns;

verus! {

/// The error taxonomy of the speller.
///
/// `ConfigurationError` reports a structurally invalid language table
/// (empty, or with duplicate identifiers or duplicate grapheme keys);
/// `LanguageNotFound` reports a language identifier absent from the table;
/// `InvalidSelection` reports a menu reply that is not a number in range.
#[derive(Clone, Copy, Debug, PartialEq, Eq, Structural)]
pub enum SpellerError {
    ConfigurationError,
    LanguageNotFound,
    InvalidSelection,
}

impl SpellerError {
    /// The text `message` returns for each variant.
    pub open spec fn message_spec(&self) -> Seq<char> {
        match self {
            SpellerError::ConfigurationError => "Configuration error: the language table is not a non-empty mapping of unique identifiers to unique grapheme keys"@,
            SpellerError::LanguageNotFound => "Language not found"@,
            SpellerError::InvalidSelection => "Invalid selection: enter a number within the listed range"@,
        }
    }

    /// A human-readable description of the error.
    pub fn message(&self) -> (r: String)
        ensures
            r@ == self.message_spec(),
    {
        match self {
            SpellerError::ConfigurationError => String::from_str(
                "Configuration error: the language table is not a non-empty mapping of unique identifiers to unique grapheme keys",
            ),
            SpellerError::LanguageNotFound => String::from_str("Language not found"),
            SpellerError::InvalidSelection => String::from_str(
                "Invalid selection: enter a number within the listed range",
            ),
        }
    }
}

} // verus!
