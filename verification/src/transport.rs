//! The endpoints through which peers exchange operations, and the handshake
//! by which they compare their state hashes.
use vstd::prelude::*;
use crate::sync::SyncOp;

verus! {

/// A native peer link to an EdgeMesh relay, by its endpoint.
#[derive(Clone, Debug, PartialEq, Eq)]
pub struct EdgeMeshTransport {
    pub endpoint: String,
}

impl EdgeMeshTransport {
    /// A link to the endpoint.
    pub fn new(endpoint: String) -> (r: EdgeMeshTransport)
        ensures
            r.endpoint == endpoint,
    {
        EdgeMeshTransport { endpoint }
    }

    /// Sends operations. The relay client is not part of this build, so the
    /// operations are accepted and nothing is sent.
    pub fn send(&self, ops: Vec<SyncOp>) -> (r: Result<(), String>)
        ensures
            r is Ok,
    {
        Ok(())
    }

    /// Receives operations. The relay client is not part of this build, so
    /// nothing arrives.
    pub fn receive(&self) -> (r: Result<Vec<SyncOp>, String>)
        ensures
            r matches Ok(v) && v@.len() == 0,
    {
        Ok(Vec::new())
    }
}

/// A web peer link to a WebSocket relay, by its URL.
#[derive(Clone, Debug, PartialEq, Eq)]
pub struct WsRelayTransport {
    pub url: String,
}

impl WsRelayTransport {
    /// A link to the URL.
    pub fn new(url: String) -> (r: WsRelayTransport)
        ensures
            r.url == url,
    {
        WsRelayTransport { url }
    }

    /// Sends operations. The socket client is not part of this build, so the
    /// operations are accepted and nothing is sent.
    pub fn send(&self, ops: Vec<SyncOp>) -> (r: Result<(), String>)
        ensures
            r is Ok,
    {
        Ok(())
    }

    /// Receives operations. The socket client is not part of this build, so
    /// nothing arrives.
    pub fn receive(&self) -> (r: Result<Vec<SyncOp>, String>)
        ensures
            r matches Ok(v) && v@.len() == 0,
    {
        Ok(Vec::new())
    }
}

/// Whether a local and a remote state hash agree, that is, whether two peers
/// hold the same operations.
pub fn verify_state_match(local_hash: &str, remote_hash: &str) -> (r: bool)
    ensures
        r == (local_hash@ == remote_hash@),
{
    crate::text::str_eq(local_hash, remote_hash)
}

/// The greeting of a peer: its state hash.
#[derive(Clone, Debug, PartialEq, Eq)]
pub struct SyncHandshake {
    pub state_hash: String,
}

impl SyncHandshake {
    /// A handshake carrying the state hash.
    pub fn new(state_hash: String) -> (r: SyncHandshake)
        ensures
            r.state_hash == state_hash,
    {
        SyncHandshake { state_hash }
    }
}

} // verus!
