use vstd::prelude::*;
use vstd::string::*;

verus! {

/// The four families of failure that an operation can report.
#[derive(Clone, Copy, Debug, PartialEq, Eq, Structural)]
pub enum ErrorKind {
    Argument,
    Type,
    Environment,
    StreamDisconnected,
}

/// A failure, by its cause.
#[derive(Clone, Copy, Debug, PartialEq, Eq, Structural)]
pub enum JobError {
    ExpectedNumber,
    TooManyArguments,
    ExpectedClosure,
    MissingVariableName,
    IllegalVariableName,
    ExpectedScopes,
    ExpectedBoolean,
    ExpectedStream,
    ArityMismatch,
    ColumnTypeMismatch,
    ReadonlyScope,
    UnknownName,
    UnknownScope,
    Disconnected,
}

impl JobError {
    /// The family that each cause belongs to.
    pub open spec fn spec_kind(self) -> ErrorKind {
        match self {
            JobError::ExpectedNumber => ErrorKind::Argument,
            JobError::TooManyArguments => ErrorKind::Argument,
            JobError::ExpectedClosure => ErrorKind::Argument,
            JobError::MissingVariableName => ErrorKind::Argument,
            JobError::IllegalVariableName => ErrorKind::Argument,
            JobError::ExpectedScopes => ErrorKind::Argument,
            JobError::ExpectedBoolean => ErrorKind::Type,
            JobError::ExpectedStream => ErrorKind::Type,
            JobError::ArityMismatch => ErrorKind::Type,
            JobError::ColumnTypeMismatch => ErrorKind::Type,
            JobError::ReadonlyScope => ErrorKind::Environment,
            JobError::UnknownName => ErrorKind::Environment,
            JobError::UnknownScope => ErrorKind::Environment,
            JobError::Disconnected => ErrorKind::StreamDisconnected,
        }
    }

    /// The family of this failure.
    #[verifier::when_used_as_spec(spec_kind)]
    pub fn kind(self) -> (k: ErrorKind)
        ensures
            k == self.spec_kind(),
    {
        match self {
            JobError::ExpectedNumber => ErrorKind::Argument,
            JobError::TooManyArguments => ErrorKind::Argument,
            JobError::ExpectedClosure => ErrorKind::Argument,
            JobError::MissingVariableName => ErrorKind::Argument,
            JobError::IllegalVariableName => ErrorKind::Argument,
            JobError::ExpectedScopes => ErrorKind::Argument,
            JobError::ExpectedBoolean => ErrorKind::Type,
            JobError::ExpectedStream => ErrorKind::Type,
            JobError::ArityMismatch => ErrorKind::Type,
            JobError::ColumnTypeMismatch => ErrorKind::Type,
            JobError::ReadonlyScope => ErrorKind::Environment,
            JobError::UnknownName => ErrorKind::Environment,
            JobError::UnknownScope => ErrorKind::Environment,
            JobError::Disconnected => ErrorKind::StreamDisconnected,
        }
    }

    /// Whether the diagnostic sink is told of this failure: a lost peer is an
    /// ordinary end of work, anything else is reported.
    pub open spec fn spec_is_reportable(self) -> bool {
        self.spec_kind() != ErrorKind::StreamDisconnected
    }

    /// Whether the diagnostic sink is told of this failure.
    #[verifier::when_used_as_spec(spec_is_reportable)]
    pub fn is_reportable(self) -> (b: bool)
        ensures
            b == self.spec_is_reportable(),
    {
        self.kind() != ErrorKind::StreamDisconnected
    }

    /// The text shown to the user.
    pub fn message(self) -> (text: String)
        ensures
            text@ == self.spec_message(),
    {
        match self {
            JobError::ExpectedNumber => String::from_str("Expected a number"),
            JobError::TooManyArguments => String::from_str("Too many arguments"),
            JobError::ExpectedClosure => String::from_str("Expected a closure"),
            JobError::MissingVariableName => String::from_str("Missing variable name"),
            JobError::IllegalVariableName => String::from_str("Illegal variable name"),
            JobError::ExpectedScopes => String::from_str("Expected all arguments to be scopes"),
            JobError::ExpectedBoolean => String::from_str("Expected a boolean result"),
            JobError::ExpectedStream => String::from_str("Expected a stream"),
            JobError::ArityMismatch => String::from_str("Wrong number of columns"),
            JobError::ColumnTypeMismatch => String::from_str("Wrong column type"),
            JobError::ReadonlyScope => String::from_str("Scope is read only"),
            JobError::UnknownName => String::from_str("Unknown variable"),
            JobError::UnknownScope => String::from_str("Unknown scope"),
            JobError::Disconnected => String::from_str("Stream disconnected"),
        }
    }

    /// The text of each failure.
    pub open spec fn spec_message(self) -> Seq<char> {
        match self {
            JobError::ExpectedNumber => "Expected a number"@,
            JobError::TooManyArguments => "Too many arguments"@,
            JobError::ExpectedClosure => "Expected a closure"@,
            JobError::MissingVariableName => "Missing variable name"@,
            JobError::IllegalVariableName => "Illegal variable name"@,
            JobError::ExpectedScopes => "Expected all arguments to be scopes"@,
            JobError::ExpectedBoolean => "Expected a boolean result"@,
            JobError::ExpectedStream => "Expected a stream"@,
            JobError::ArityMismatch => "Wrong number of columns"@,
            JobError::ColumnTypeMismatch => "Wrong column type"@,
            JobError::ReadonlyScope => "Scope is read only"@,
            JobError::UnknownName => "Unknown variable"@,
            JobError::UnknownScope => "Unknown scope"@,
            JobError::Disconnected => "Stream disconnected"@,
        }
    }
}

} // verus!
