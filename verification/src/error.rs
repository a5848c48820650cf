//! Failure modes of the signer, the password codec, and the token codec.

use vstd::prelude::*;

verus! {

/// Every way the cryptographic layer can fail.  Parse failures
/// (`TokenInvalidFormat`, `TokenCannotDecodeIdent`, `TokenCannotDecodeExp`)
/// are kept distinct from trust failures (`TokenSignatureNotMatching`,
/// `TokenExpNotIso`, `TokenExpired`) so that callers can log precisely
/// while still collapsing everything to one response at the boundary.
#[derive(Clone, Copy, Debug, PartialEq, Eq, Structural)]
pub enum Error {
    KeyFailHmac,
    PwdNotMatching,
    TokenInvalidFormat,
    TokenCannotDecodeIdent,
    TokenCannotDecodeExp,
    TokenSignatureNotMatching,
    TokenExpNotIso,
    TokenExpired,
}

impl Error {
    /// Short diagnostic name, for operator-facing logs.
    pub fn as_text(&self) -> (r: &'static str)
        ensures
            r@ == match *self {
                Error::KeyFailHmac => "KeyFailHmac"@,
                Error::PwdNotMatching => "PwdNotMatching"@,
                Error::TokenInvalidFormat => "TokenInvalidFormat"@,
                Error::TokenCannotDecodeIdent => "TokenCannotDecodeIdent"@,
                Error::TokenCannotDecodeExp => "TokenCannotDecodeExp"@,
                Error::TokenSignatureNotMatching => "TokenSignatureNotMatching"@,
                Error::TokenExpNotIso => "TokenExpNotIso"@,
                Error::TokenExpired => "TokenExpired"@,
            },
    {
        match *self {
            Error::KeyFailHmac => "KeyFailHmac",
            Error::PwdNotMatching => "PwdNotMatching",
            Error::TokenInvalidFormat => "TokenInvalidFormat",
            Error::TokenCannotDecodeIdent => "TokenCannotDecodeIdent",
            Error::TokenCannotDecodeExp => "TokenCannotDecodeExp",
            Error::TokenSignatureNotMatching => "TokenSignatureNotMatching",
            Error::TokenExpNotIso => "TokenExpNotIso",
            Error::TokenExpired => "TokenExpired",
        }
    }
}

} // verus!
