//! The library's error type.
use vstd::prelude::*;
use vstd::string::*;

verus! {

/// Why an operation did not complete.
#[derive(Debug)]
pub enum PaymentError {
    /// A business rule rejected the input (a non-positive amount, too few funds).
    ValidationError(String),
    /// The processing pipeline or a store failed.
    InternalError(String),
}

impl PaymentError {
    /// The error's message, prefixed by its class.
    pub fn to_string(&self) -> (r: String)
        ensures
            r@ == (match self {
                PaymentError::ValidationError(m) => "Validation error: "@ + m@,
                PaymentError::InternalError(m) => "Internal error: "@ + m@,
            }),
    {
        match self {
            PaymentError::ValidationError(m) => {
                String::from_str("Validation error: ").concat(m.as_str())
            },
            PaymentError::InternalError(m) => {
                String::from_str("Internal error: ").concat(m.as_str())
            },
        }
    }
}

/// The standard library's I/O error, carried as an opaque value.
#[verifier::external_type_specification]
#[verifier::external_body]
pub struct ExIoError(std::io::Error);

impl From<std::io::Error> for PaymentError {
    /// An I/O failure is an internal error that carries the failure's message.
    fn from(err: std::io::Error) -> (r: PaymentError)
        ensures
            r is InternalError,
    {
        PaymentError::InternalError(err.to_string())
    }
}

impl vstd::std_specs::convert::FromSpecImpl<std::io::Error> for PaymentError {
    open spec fn obeys_from_spec() -> bool {
        false
    }

    open spec fn from_spec(v: std::io::Error) -> PaymentError {
        arbitrary()
    }
}

} // verus!
