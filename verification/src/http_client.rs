//! A placeholder handle for an HTTP client.
//!
//! Address resolution, sockets and the request/response exchange are
//! external collaborators of this library: they consume a parsed URL's
//! host, port and path but perform I/O and so live outside it.  The handle
//! itself carries no state.

use vstd::prelude::*;

verus! {

/// A stateless handle; the transport work behind it is not part of this
/// library.
#[derive(Debug, Clone, Copy, PartialEq, Eq, Structural)]
pub struct HttpClient {}

impl HttpClient {
    /// A fresh handle.
    pub fn new() -> (r: HttpClient)
        ensures
            r == (HttpClient {  }),
    {
        HttpClient {  }
    }
}

} // verus!
