use vstd::prelude::*;
use vstd::string::StringExecFns;

verus! {

/// Declares `std::io::Error` so that a load error can carry the failure of a read.
#[verifier::external_type_specification]
#[verifier::external_body]
pub struct ExIoError(std::io::Error);

/// A failure while running a loaded program.
#[derive(Debug)]
pub enum ProgramError {
    EmptyAccumulator,
    EndOfInput,
    MaxCyclesExceeded,
    UndefinedLabel(String),
}

/// The mathematical form of a run failure: a label is its sequence of characters.
pub enum RunFault {
    EmptyAccumulator,
    EndOfInput,
    MaxCyclesExceeded,
    UndefinedLabel(Seq<char>),
}

impl View for ProgramError {
    type V = RunFault;

    open spec fn view(&self) -> RunFault {
        match self {
            ProgramError::EmptyAccumulator => RunFault::EmptyAccumulator,
            ProgramError::EndOfInput => RunFault::EndOfInput,
            ProgramError::MaxCyclesExceeded => RunFault::MaxCyclesExceeded,
            ProgramError::UndefinedLabel(l) => RunFault::UndefinedLabel(l@),
        }
    }
}

/// `"` + `s` + `"`, after `prefix`.
fn quoted(prefix: &str, s: &String) -> (r: String)
    ensures
        r@ == prefix@ + "\""@ + s@ + "\""@,
{
    let mut r = String::from_str(prefix);
    r.append("\"");
    r.append(s.as_str());
    r.append("\"");
    r
}

impl ProgramError {
    /// A sentence that describes the failure.
    pub fn message(&self) -> (r: String)
        ensures
            r@ == match self {
                ProgramError::EmptyAccumulator => "Attempted to run an instruction that reads from the accumulator, but the accumulator is empty"@,
                ProgramError::EndOfInput => "Attempted to read past the end of the input"@,
                ProgramError::MaxCyclesExceeded => "Maximum cycle count exceeded"@,
                ProgramError::UndefinedLabel(l) => "Undefined label "@ + "\""@ + l@ + "\""@,
            },
    {
        match self {
            ProgramError::EmptyAccumulator => String::from_str(
                "Attempted to run an instruction that reads from the accumulator, but the accumulator is empty",
            ),
            ProgramError::EndOfInput => String::from_str("Attempted to read past the end of the input"),
            ProgramError::MaxCyclesExceeded => String::from_str("Maximum cycle count exceeded"),
            ProgramError::UndefinedLabel(l) => quoted("Undefined label ", l),
        }
    }
}

/// A failure while loading program text.
#[derive(Debug)]
pub enum ParseError {
    InvalidHeader,
    IoError(std::io::Error),
    MissingHeader,
    UnexpectedToken(String),
    DuplicateLabel(String),
}

/// The mathematical form of a load failure.
pub enum LoadFault {
    InvalidHeader,
    Io,
    MissingHeader,
    UnexpectedToken(Seq<char>),
    DuplicateLabel(Seq<char>),
}

impl View for ParseError {
    type V = LoadFault;

    open spec fn view(&self) -> LoadFault {
        match self {
            ParseError::InvalidHeader => LoadFault::InvalidHeader,
            ParseError::IoError(_) => LoadFault::Io,
            ParseError::MissingHeader => LoadFault::MissingHeader,
            ParseError::UnexpectedToken(t) => LoadFault::UnexpectedToken(t@),
            ParseError::DuplicateLabel(l) => LoadFault::DuplicateLabel(l@),
        }
    }
}

impl ParseError {
    /// A sentence that describes the failure; for a failed read, the
    /// description of the underlying error.
    pub fn message(&self) -> (r: String)
        ensures
            match self {
                ParseError::InvalidHeader => r@ == "Invalid program header"@,
                ParseError::IoError(_) => true,
                ParseError::MissingHeader => r@ == "Program must start with a HRM header"@,
                ParseError::UnexpectedToken(t) => r@ == "Unexpected token "@ + "\""@ + t@ + "\""@,
                ParseError::DuplicateLabel(l) => r@ == "Duplicate label "@ + "\""@ + l@ + "\""@,
            },
    {
        match self {
            ParseError::InvalidHeader => String::from_str("Invalid program header"),
            ParseError::IoError(e) => e.to_string(),
            ParseError::MissingHeader => String::from_str("Program must start with a HRM header"),
            ParseError::UnexpectedToken(t) => quoted("Unexpected token ", t),
            ParseError::DuplicateLabel(l) => quoted("Duplicate label ", l),
        }
    }
}

} // verus!
