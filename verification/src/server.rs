//! The API server's configuration and construction; serving requests is
//! network work done around the library.
use vstd::prelude::*;
use crate::core_types::error::CoreError;

verus! {

/// The API server.
#[derive(Debug, Clone, Copy, PartialEq, Eq)]
pub struct ApiServer;

/// The server's configuration.
#[derive(Debug, Clone, Copy, PartialEq, Eq)]
pub struct ServerConfig;

impl ApiServer {
    /// A server for the bind address `bind`; any address is accepted.
    pub fn new(bind: &str) -> (r: Result<ApiServer, CoreError>)
        ensures
            r is Ok,
    {
        Ok(ApiServer)
    }
}

} // verus!
