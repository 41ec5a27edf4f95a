use vstd::prelude::*;

use crate::strutil::{dec_of, push_decimal};

verus! {

/// A peer node, addressed by host and port.
#[derive(Debug, Clone, PartialEq, Eq, Hash)]
pub struct Peer {
    pub address: String,
    pub port: u16,
}

/// The HTTP base address of a peer.
pub open spec fn peer_url(address: Seq<char>, port: u16) -> Seq<char> {
    "http://"@ + address + ":"@ + dec_of(port as nat)
}

impl Peer {
    pub fn new(address: String, port: u16) -> (r: Peer)
        ensures
            r.address == address,
            r.port == port,
    {
        Peer { address, port }
    }

    /// The peer's base URL.
    pub fn url(&self) -> (r: String)
        ensures
            r@ == peer_url(self.address@, self.port),
    {
        let mut url = String::new();
        url.append("http://");
        url.append(self.address.as_str());
        url.append(":");
        push_decimal(&mut url, self.port as u64);
        url
    }
}

/// A registration request as the transport hands it over.
#[derive(Debug)]
pub struct RegisterPlayerRequest {
    pub player_id: String,
    pub ships: Vec<crate::game::Ship>,
    pub board_commitment: String,
    pub salt: String,
}

/// A fire request as the transport hands it over.
#[derive(Debug)]
pub struct FireShotRequest {
    pub player_id: String,
    pub target_x: u8,
    pub target_y: u8,
}

/// A mine request as the transport hands it over.
#[derive(Debug)]
pub struct MineRequest {
    pub player_id: String,
}

/// The envelope every endpoint answers with: either a payload or an error
/// message, never both.
#[derive(Debug)]
pub struct ApiResponse<T> {
    pub success: bool,
    pub data: Option<T>,
    pub error: Option<String>,
}

impl<T> ApiResponse<T> {
    /// A successful response carrying a payload.
    pub fn success(data: T) -> (r: ApiResponse<T>)
        ensures
            r.success == true,
            r.data == Some(data),
            r.error is None,
    {
        ApiResponse { success: true, data: Some(data), error: None }
    }

    /// A failed response carrying the rejection.
    pub fn error(error: String) -> (r: ApiResponse<T>)
        ensures
            r.success == false,
            r.data is None,
            r.error == Some(error),
    {
        ApiResponse { success: false, data: None, error: Some(error) }
    }
}

/// A summary of the ledger for the info endpoint.
#[derive(Debug)]
pub struct BlockchainInfo {
    pub length: usize,
    pub difficulty: usize,
    pub pending_transactions: usize,
    pub is_valid: bool,
}

/// A summary of one node for the info endpoint.
#[derive(Debug)]
pub struct NodeInfo {
    pub node_id: String,
    pub port: u16,
    pub peers_count: usize,
    pub blockchain_info: BlockchainInfo,
}

} // verus!
