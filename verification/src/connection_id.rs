//! Identity of a TCP connection.

use vstd::prelude::*;

use crate::ids::{is_uuid_v4, new_uuid};

verus! {

/// Extension carrying the per-TCP-connection UUID.
#[derive(Clone, Debug)]
pub struct ConnectionId(pub String);

impl ConnectionId {
    /// A fresh UUID for a new TCP connection.
    pub fn generate() -> (r: ConnectionId)
        ensures
            is_uuid_v4(r.0@),
    {
        ConnectionId(new_uuid())
    }
}

} // verus!
