//! Parsing of Debian binary package control stanzas into validated records,
//! with the dependency-expression grammar and the Debian version ordering.

pub mod text;
pub mod version;
pub mod depends;
pub mod stanza;
pub mod deb;
pub mod render;

use vstd::prelude::*;

verus! {

/// A relation operator of a version constraint.
#[derive(Clone, Copy, Debug, PartialEq, Eq, Structural)]
pub enum VerOp {
    Gt,
    GtEq,
    Eq,
    LtEq,
    Lt,
}

/// The closed set of errors that parsing a stanza can report.
#[derive(Clone, Copy, Debug, PartialEq, Eq, Structural)]
pub enum PakigeParseError {
    EmptyInput,
    MissingMandatoryField,
    InvalidFormat,
    InvalidValue,
    DuplicateField,
}

impl PakigeParseError {
    /// A human-readable description of the error.
    pub fn message(&self) -> (r: &'static str) {
        match self {
            PakigeParseError::EmptyInput => "Input is empty.",
            PakigeParseError::MissingMandatoryField => "Input is missing a mandatory field.",
            PakigeParseError::InvalidFormat => "Input is not in a valid format.",
            PakigeParseError::InvalidValue => "A given field has an invalid value.",
            PakigeParseError::DuplicateField => "A given field was present twice in the stanza.",
        }
    }
}

/// A package format whose versions can be compared.
pub trait Pakige {
    fn ver_compare();
}

} // verus!
