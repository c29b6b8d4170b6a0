//! Addresses and peer records.
use vstd::prelude::*;
use crate::membership::NodeId;

verus! {

/// Bits that every random (version 4, RFC 4122 variant) identifier fixes.
pub const RANDOM_ID_MASK: u128 = 0xF000_C000_0000_0000_0000;

/// The values of those bits: version 4, variant `0b10`.
pub const RANDOM_ID_BITS: u128 = 0x4000_8000_0000_0000_0000;

/// Relies on `uuid::Uuid::new_v4` and `Uuid::as_u128`: a random identifier
/// whose version and variant bits are set, read as a big-endian number.
#[verifier::external_body]
pub(crate) fn random_id() -> (r: u128)
    ensures
        r & RANDOM_ID_MASK == RANDOM_ID_BITS,
{
    uuid::Uuid::new_v4().as_u128()
}

/// A host and a port.
#[derive(Clone, Debug, PartialEq, Eq)]
pub struct Addr {
    pub ip: String,
    pub port: u16,
}

impl Addr {
    /// The address `ip`:`port`.
    pub fn new(ip: &str, port: u16) -> (r: Addr)
        ensures
            r.ip@ == ip@,
            r.port == port,
    {
        Addr { ip: ip.to_owned(), port }
    }

    /// A copy with the same host and port.
    pub fn duplicate(&self) -> (r: Addr)
        ensures
            r == *self,
    {
        Addr { ip: self.ip.clone(), port: self.port }
    }
}

/// A remote member of the cluster as the local node knows it. Two records
/// stand for the same peer when their ids are equal, whatever the address.
#[derive(Clone, Debug)]
pub struct Peer {
    pub id: NodeId,
    pub addr: Addr,
}

impl PartialEq for Peer {
    fn eq(&self, other: &Peer) -> (r: bool)
        ensures
            r == (self.id == other.id),
    {
        self.id == other.id
    }
}

impl vstd::std_specs::cmp::PartialEqSpecImpl for Peer {
    open spec fn obeys_eq_spec() -> bool {
        true
    }

    open spec fn eq_spec(&self, other: &Peer) -> bool {
        self.id == other.id
    }
}

impl Eq for Peer {
}

impl Peer {
    /// The peer `id` at `host`:`port`.
    pub fn new(id: NodeId, host: &str, port: u16) -> (r: Peer)
        ensures
            r.id == id,
            r.addr.ip@ == host@,
            r.addr.port == port,
    {
        Peer { id, addr: Addr::new(host, port) }
    }

    /// A peer with a fresh random id at localhost:3444.
    pub fn empty() -> (r: Peer)
        ensures
            r.id & RANDOM_ID_MASK == RANDOM_ID_BITS,
            r.addr.ip@ == "localhost"@,
            r.addr.port == 3444,
    {
        Peer { id: random_id(), addr: Addr::new("localhost", 3444) }
    }

    /// A copy with the same id and address.
    pub fn duplicate(&self) -> (r: Peer)
        ensures
            r.id == self.id,
            r.addr == self.addr,
    {
        Peer { id: self.id, addr: self.addr.duplicate() }
    }
}

/// A request of a new node to join the cluster: its id and address.
#[derive(Clone, Debug, PartialEq, Eq)]
pub struct Join {
    pub id: NodeId,
    pub addr: Addr,
}

impl Join {
    /// The join request of node `id` listening at `addr`.
    pub fn new(id: NodeId, addr: Addr) -> (r: Join)
        ensures
            r.id == id,
            r.addr == addr,
    {
        Join { id, addr }
    }

    /// A copy with the same id and address.
    pub fn duplicate(&self) -> (r: Join)
        ensures
            r == *self,
    {
        Join { id: self.id, addr: self.addr.duplicate() }
    }

    /// The peer record that the receiving member adds.
    pub fn peer(&self) -> (r: Peer)
        ensures
            r.id == self.id,
            r.addr == self.addr,
    {
        Peer { id: self.id, addr: self.addr.duplicate() }
    }
}

} // verus!
