//! Health check.

use vstd::prelude::*;

verus! {

/// Body of the health check.
#[derive(Debug)]
pub struct Health {
    pub status: String,
}

impl Health {
    /// The service is up: status `ok`.
    pub fn ok() -> (r: Self)
        ensures
            r.status@ == "ok"@,
    {
        Health { status: "ok".to_string() }
    }
}

} // verus!
