use vstd::prelude::*;

verus! {

/// Why a conversion failed, without the words that describe it.
#[derive(Clone, Copy, Debug, PartialEq, Eq, Structural)]
pub enum Failure {
    /// A file could not be read or written.
    Io,
    /// The input is not well-formed text of its format.
    Parse,
    /// The document cannot be written in the target format.
    Serialization,
    /// A dotted key runs through a key that already holds a value that is no
    /// mapping.
    StructureConflict,
}

impl Failure {
    /// The kind of failure in words.
    pub open spec fn words(self) -> Seq<char> {
        match self {
            Failure::Io => "I/O error"@,
            Failure::Parse => "parse error"@,
            Failure::Serialization => "serialization error"@,
            Failure::StructureConflict => "structure conflict"@,
        }
    }

    /// The kind of failure in words.
    pub fn as_str(self) -> (s: &'static str)
        ensures
            s@ == self.words(),
    {
        match self {
            Failure::Io => "I/O error",
            Failure::Parse => "parse error",
            Failure::Serialization => "serialization error",
            Failure::StructureConflict => "structure conflict",
        }
    }
}

/// A failed conversion: its kind, with a description for the user.
#[derive(Debug, PartialEq, Eq)]
pub enum FormatError {
    IoError(String),
    ParseError(String),
    SerializationError(String),
    StructureConflict(String),
}

/// The outcome of a conversion as contracts speak of it: the text that was
/// written, or the kind of the failure.
pub open spec fn outcome(r: Result<String, FormatError>) -> Result<Seq<char>, Failure> {
    match r {
        Ok(text) => Ok(text@),
        Err(e) => Err(e.kind()),
    }
}

/// `context`, a colon and `detail`.
pub fn described(context: &str, detail: &str) -> (s: String)
    ensures
        s@ == context@ + ": "@ + detail@,
{
    let mut s = String::from_str(context);
    s.append(": ");
    s.append(detail);
    s
}

impl FormatError {
    /// The kind of the failure.
    pub open spec fn kind(&self) -> Failure {
        match self {
            FormatError::IoError(_) => Failure::Io,
            FormatError::ParseError(_) => Failure::Parse,
            FormatError::SerializationError(_) => Failure::Serialization,
            FormatError::StructureConflict(_) => Failure::StructureConflict,
        }
    }

    /// The kind of the failure.
    pub fn failure(&self) -> (k: Failure)
        ensures
            k == self.kind(),
    {
        match self {
            FormatError::IoError(_) => Failure::Io,
            FormatError::ParseError(_) => Failure::Parse,
            FormatError::SerializationError(_) => Failure::Serialization,
            FormatError::StructureConflict(_) => Failure::StructureConflict,
        }
    }

    /// The error as one line for the user: its kind in words, a colon and
    /// its description.
    pub fn describe(&self) -> (s: String)
        ensures
            s@ == self.kind().words() + ": "@ + self.detail_view(),
    {
        described(self.failure().as_str(), self.detail().as_str())
    }

    /// The description that the error carries.
    pub open spec fn detail_view(&self) -> Seq<char> {
        match self {
            FormatError::IoError(d) => d@,
            FormatError::ParseError(d) => d@,
            FormatError::SerializationError(d) => d@,
            FormatError::StructureConflict(d) => d@,
        }
    }

    /// The description that the error carries.
    pub fn detail(&self) -> (s: &String)
        ensures
            s == match self {
                FormatError::IoError(d) => d,
                FormatError::ParseError(d) => d,
                FormatError::SerializationError(d) => d,
                FormatError::StructureConflict(d) => d,
            },
    {
        match self {
            FormatError::IoError(d) => d,
            FormatError::ParseError(d) => d,
            FormatError::SerializationError(d) => d,
            FormatError::StructureConflict(d) => d,
        }
    }
}

} // verus!
