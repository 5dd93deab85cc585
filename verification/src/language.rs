use vstd::prelude::*;

verus! {

/// Available languages for user-facing messages.
#[derive(Debug, PartialEq, Eq, Structural, Clone, Copy)]
pub enum Language {
    /// Polish
    Pl,
    /// English
    En,
}

impl Language {
    /// Converts to the language code used by locale files.
    pub fn string_code(&self) -> (r: &str)
        ensures
            r@ == match self {
                Language::Pl => "pl"@,
                Language::En => "en"@,
            },
    {
        match self {
            Language::Pl => "pl",
            Language::En => "en",
        }
    }
}

} // verus!
