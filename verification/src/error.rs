//! Error values.  Errors are plain values carrying a localized message; they
//! never abort a session.

use vstd::prelude::*;

verus! {

/// An error raised while encoding or decoding protocol values.
#[derive(Debug)]
pub struct Error(pub String);

impl Clone for Error {
    fn clone(&self) -> (r: Self)
        ensures
            r == *self,
    {
        Error(self.0.clone())
    }
}

/// A business-logic failure of a server command, carrying the localized
/// message that is sent back to the originating session.
#[derive(Debug)]
pub struct ServerError(pub String);

impl Clone for ServerError {
    fn clone(&self) -> (r: Self)
        ensures
            r == *self,
    {
        ServerError(self.0.clone())
    }
}

impl ServerError {
    /// The localized message carried by this error.
    pub fn message(&self) -> (r: &str)
        ensures
            r@ == self.0@,
    {
        self.0.as_str()
    }
}

/// A failure on the client side of the transport.
#[derive(Debug)]
pub struct ClientError(pub String);

impl Clone for ClientError {
    fn clone(&self) -> (r: Self)
        ensures
            r == *self,
    {
        ClientError(self.0.clone())
    }
}

} // verus!
