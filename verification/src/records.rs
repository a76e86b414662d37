use vstd::prelude::*;

verus! {

/// A decomposition of a kanji into its constituent radicals.
#[derive(Debug, Clone, PartialEq, Eq)]
pub struct Decomposition {
    /// The kanji character.
    pub kanji: String,
    /// The characters of the radicals in the kanji, in declaration order.
    pub radicals: Vec<String>,
}

impl DeepView for Decomposition {
    type V = (Seq<char>, Seq<Seq<char>>);

    open spec fn deep_view(&self) -> (Seq<char>, Seq<Seq<char>>) {
        (self.kanji.deep_view(), self.radicals.deep_view())
    }
}

/// Relies on std::io::Error only as an opaque value carried inside
/// `KradError::Io`; nothing is assumed about it.
#[verifier::external_type_specification]
#[verifier::external_body]
pub struct ExIoError(std::io::Error);

/// The possible failures of parsing a decomposition dictionary.
#[derive(Debug)]
pub enum KradError {
    /// A 2-byte token's big-endian codepoint is absent from the lookup table.
    Jis,
    /// A 3-byte token is not a valid strict EUC-JP sequence.
    EucJp,
    /// A token's raw length is neither 2 nor 3 bytes.
    Length,
    /// The buffer does not conform to the line/record grammar.
    Parse,
    /// The dictionary file could not be read.
    Io(std::io::Error),
}

impl KradError {
    /// A short description of the failure.
    pub fn message(&self) -> (r: &'static str)
        ensures
            r@ == self.message_spec(),
    {
        match self {
            KradError::Jis => "Invalid JIS X 0213 codepoint",
            KradError::EucJp => "Invalid EUC-JP codepoint",
            KradError::Length => "Unsupported token length",
            KradError::Parse => "Error while parsing kradfile",
            KradError::Io(_) => "Error while reading kradfile",
        }
    }

    /// The text `message` returns for each variant.
    pub open spec fn message_spec(&self) -> Seq<char> {
        match self {
            KradError::Jis => "Invalid JIS X 0213 codepoint"@,
            KradError::EucJp => "Invalid EUC-JP codepoint"@,
            KradError::Length => "Unsupported token length"@,
            KradError::Parse => "Error while parsing kradfile"@,
            KradError::Io(_) => "Error while reading kradfile"@,
        }
    }
}

} // verus!
