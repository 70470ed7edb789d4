use vstd::prelude::*;

verus! {

/// Why a request was refused or a match attempt abandoned.
#[derive(Clone, Copy, Debug, PartialEq, Eq, Structural)]
pub enum Error {
    /// The group metadata is inconsistent, or the interpreter met a word it
    /// cannot interpret; the engine fails closed rather than guessing.
    MalformedPattern,
    /// The program's leading version word is not one this engine supports.
    IncompatibleBytecode,
    /// A group index or group name that the pattern does not define.
    IndexOrNameError,
    /// The step budget ran out before the attempt could be decided; the
    /// pattern object stays valid and may be used again.
    MatchTooComplex,
    /// A caller-supplied position lies outside the subject bounds.
    InvalidRange,
}

impl Error {
    /// A short description of the error, for callers that report it as text.
    pub fn describe(&self) -> (r: &'static str)
        ensures
            r@ == self.describe_spec(),
    {
        match self {
            Error::MalformedPattern => "malformed pattern metadata or bytecode",
            Error::IncompatibleBytecode => "unsupported bytecode version",
            Error::IndexOrNameError => "no such group index or name",
            Error::MatchTooComplex => "step budget exceeded",
            Error::InvalidRange => "position out of subject bounds",
        }
    }

    /// What [`Error::describe`] returns for each kind.
    pub open spec fn describe_spec(self) -> Seq<char> {
        match self {
            Error::MalformedPattern => "malformed pattern metadata or bytecode"@,
            Error::IncompatibleBytecode => "unsupported bytecode version"@,
            Error::IndexOrNameError => "no such group index or name"@,
            Error::MatchTooComplex => "step budget exceeded"@,
            Error::InvalidRange => "position out of subject bounds"@,
        }
    }
}

} // verus!
