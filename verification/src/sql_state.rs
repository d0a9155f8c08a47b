//! The SQLSTATE codes the transport reports, mimicking Snowflake's use of
//! the five-byte ANSI status strings.

use vstd::prelude::*;

verus! {

/// The SQLSTATE classes the transport distinguishes.
#[derive(Clone, Copy, Debug, PartialEq, Eq, Structural)]
pub enum SqlState {
    /// The statement completed.
    Success,
    /// The statement could not be parsed.
    SyntaxError,
    /// The result of the referenced query cannot be located.
    CantLocateQueryResult,
    /// The referenced object does not exist.
    DoesNotExist,
    /// A stored query result carries an error without a recorded state.
    GenericQueryErrorFromHistory,
    /// The statement uses an unsupported feature.
    FeatureNotSupported,
}

impl SqlState {
    /// The five-byte SQLSTATE string of the class.
    pub open spec fn spec_code(self) -> Seq<char> {
        match self {
            SqlState::Success => "02000"@,
            SqlState::SyntaxError => "42000"@,
            SqlState::CantLocateQueryResult => "42S01"@,
            SqlState::DoesNotExist => "42S02"@,
            SqlState::GenericQueryErrorFromHistory => "42S03"@,
            SqlState::FeatureNotSupported => "0A000"@,
        }
    }

    /// The five-byte SQLSTATE string of the class.
    pub fn as_code(self) -> (r: &'static str)
        ensures
            r@ == self.spec_code(),
    {
        match self {
            SqlState::Success => "02000",
            SqlState::SyntaxError => "42000",
            SqlState::CantLocateQueryResult => "42S01",
            SqlState::DoesNotExist => "42S02",
            SqlState::GenericQueryErrorFromHistory => "42S03",
            SqlState::FeatureNotSupported => "0A000",
        }
    }
}

} // verus!
