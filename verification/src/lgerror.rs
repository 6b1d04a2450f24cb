//! What an error of the gateway tells its caller.
use vstd::prelude::*;
use vstd::std_specs::convert::FromSpecImpl;

verus! {

/// The status, message and description that an error page shows.
pub trait LGEInfo {
    fn status_code(&self) -> u16;

    fn message_text(&self) -> &str;

    fn description_text(&self) -> &str;
}

/// An error of the gateway's own that carries no more than its kind.
#[derive(Debug, Clone, Copy, PartialEq, Eq, Structural)]
pub struct InternalError;

impl LGEInfo for InternalError {
    fn status_code(&self) -> (r: u16)
        ensures
            r == 500,
    {
        500
    }

    fn message_text(&self) -> (r: &str)
        ensures
            r@ == "//TODO"@,
    {
        "//TODO"
    }

    fn description_text(&self) -> (r: &str)
        ensures
            r@ == "//TODO"@,
    {
        "//TODO"
    }
}

#[verifier::external_type_specification]
#[verifier::external_body]
pub struct ExJsonError(serde_json::Error);

impl From<serde_json::Error> for InternalError {
    /// A JSON error becomes the gateway's plain internal error.
    fn from(_e: serde_json::Error) -> (r: Self) {
        InternalError
    }
}

impl FromSpecImpl<serde_json::Error> for InternalError {
    open spec fn obeys_from_spec() -> bool {
        true
    }

    open spec fn from_spec(v: serde_json::Error) -> Self {
        InternalError
    }
}

/// Why forwarding a request failed.
#[derive(Debug, Clone, Copy, PartialEq, Eq, Structural)]
pub enum PError {
    /// The request's `Forwarded` header cannot be parsed.
    Forwarded,
    /// An element of the `Forwarded` header cannot be built.
    ParseForwarded,
    /// The backend's answer broke off.
    PayloadError,
    /// The request could not be sent; the status that the sending error
    /// itself answers with.
    SendRequest { status: u16 },
}

/// The HTTP status of a forwarding failure.
pub open spec fn p_status(e: PError) -> u16 {
    match e {
        PError::Forwarded => 400,
        PError::SendRequest { status } => status,
        _ => 500,
    }
}

impl LGEInfo for PError {
    fn status_code(&self) -> (r: u16)
        ensures
            r == p_status(*self),
    {
        match self {
            PError::Forwarded => 400,
            PError::SendRequest { status } => *status,
            _ => 500,
        }
    }

    fn message_text(&self) -> (r: &str)
        ensures
            r@ == "//TODO"@,
    {
        "//TODO"
    }

    fn description_text(&self) -> (r: &str)
        ensures
            r@ == "//TODO"@,
    {
        "//TODO"
    }
}

} // verus!
