//! What the server is configured with.

use vstd::prelude::*;

verus! {

/// The settings of one server: where it listens and what it watches.
#[derive(Debug, Clone)]
pub struct Config {
    /// The socket address that the server listens at.
    pub server_address: String,
    /// The project directory that is watched for runs.
    pub project_directory: String,
}

} // verus!
