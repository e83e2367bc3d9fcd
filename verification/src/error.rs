//! The ways in which parsing, lookup and mass queries fail.

use vstd::prelude::*;
use vstd::string::StringExecFns;

verus! {

/// Why an operation of this library failed.
#[derive(Clone, Copy, Debug, PartialEq, Eq, Structural, Hash)]
pub enum ChemError {
    /// A `[` is not followed by a `]` before the text ends.
    UnclosedBracket,
    /// A run of digits holds another character, or its value is out of range.
    BadDigitRun,
    /// A formula holds a character where an element symbol must start.
    UnexpectedCharacter,
    /// No element of the periodic table has the symbol.
    ElementNotFound,
    /// An element does not catalog the isotope that a mass query needs.
    DataIntegrity,
    /// The counts given for one specification add up to more than a count
    /// can hold.
    CountOverflow,
}

impl ChemError {
    /// The text of [`Self::message`].
    pub open spec fn spec_message(self) -> Seq<char> {
        match self {
            ChemError::UnclosedBracket => "Unclosed [ in element specifier"@,
            ChemError::BadDigitRun => "Invalid digits in element specifier"@,
            ChemError::UnexpectedCharacter => "Unexpected character in formula"@,
            ChemError::ElementNotFound => "Element not found"@,
            ChemError::DataIntegrity => "Isotope missing from element"@,
            ChemError::CountOverflow => "Count out of range"@,
        }
    }

    /// A sentence for the error.
    pub fn message(&self) -> (r: String)
        ensures
            r@ == self.spec_message(),
    {
        match self {
            ChemError::UnclosedBracket => String::from_str("Unclosed [ in element specifier"),
            ChemError::BadDigitRun => String::from_str("Invalid digits in element specifier"),
            ChemError::UnexpectedCharacter => String::from_str("Unexpected character in formula"),
            ChemError::ElementNotFound => String::from_str("Element not found"),
            ChemError::DataIntegrity => String::from_str("Isotope missing from element"),
            ChemError::CountOverflow => String::from_str("Count out of range"),
        }
    }
}

} // verus!
