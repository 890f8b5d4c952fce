//! Defines backend behavior.
use vstd::prelude::*;

use crate::login::WantsBasicAuth;

pub mod legacy;
pub mod v1;
pub mod v2;

verus! {

broadcast use vstd::string::group_string_axioms;

/// This struct is used as a fairing of the web server and adds our API
/// endpoints; the server that mounts them lives outside this library.
pub struct ApiFairing;

/// The answer to a request that needs authentication and has none.
pub fn wants_auth() -> WantsBasicAuth {
    WantsBasicAuth
}

#[verifier::external_type_specification]
#[verifier::external_body]
pub struct ExIoError(std::io::Error);

#[verifier::external_type_specification]
#[verifier::external_body]
pub struct ExSerdeJsonError(serde_json::Error);

/// This defines how we convert Errors into Responses
#[derive(Debug)]
pub enum OurError {
    /// A date or time string could not be read.
    BadString(chrono::ParseError),
    /// A file could not be accessed.
    IOError(std::io::Error),
    /// Some data could not be transformed.
    SerdeError(serde_json::Error),
}

/// The message of each kind of error.
pub open spec fn error_message(e: OurError) -> Seq<char> {
    match e {
        OurError::BadString(_) => "Error trying to interpret date/time string; try YYYY-MM-DD or HH:MM:SS"@,
        OurError::IOError(_) => "Error trying to access a file"@,
        OurError::SerdeError(_) => "Error trying to transform some data"@,
    }
}

impl OurError {
    /// The message that answers a request that failed with this error.
    pub fn message(&self) -> (r: String)
        ensures
            r@ == error_message(*self),
    {
        match self {
            OurError::BadString(_) => "Error trying to interpret date/time string; try YYYY-MM-DD or HH:MM:SS".to_string(),
            OurError::IOError(_) => "Error trying to access a file".to_string(),
            OurError::SerdeError(_) => "Error trying to transform some data".to_string(),
        }
    }

    /// The HTTP status of the answer: Bad Request (400) for a string or data that
    /// could not be read, Internal Server Error (500) for a file.
    pub fn status(&self) -> (r: u16)
        ensures
            r == (if *self is IOError { 500u16 } else { 400u16 }),
    {
        match self {
            OurError::IOError(_) => 500,
            _ => 400,
        }
    }
}

/// Dummy state struct for library use
pub struct State<T>(pub T);

impl<T> std::ops::Deref for State<T> {
    type Target = T;

    fn deref(&self) -> (r: &T)
        ensures
            *r == self.0,
    {
        &self.0
    }
}

impl<T> State<T> {
    /// Replicate `inner` from Rocket state
    pub fn inner(&self) -> (r: &T)
        ensures
            *r == self.0,
    {
        std::ops::Deref::deref(self)
    }
}

/// Dummy json struct for library use
pub struct Json<T>(pub T);

impl<T> std::ops::Deref for Json<T> {
    type Target = T;

    fn deref(&self) -> (r: &T)
        ensures
            *r == self.0,
    {
        &self.0
    }
}

} // verus!
