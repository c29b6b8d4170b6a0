//! Gossip is an epidemic broadcast protocol for clusters of equal peers,
//! based on the Plumtree ("Epidemic Broadcast Trees") design: nodes push
//! broadcasts eagerly along an approximate spanning tree and keep the
//! remaining links lazy, announcing only digests over them so that the tree
//! can heal after failures.
//!
//! Leaf first: `codec` frames bytes, `wire` puts protocol messages in those
//! frames, `membership` keeps the eager and lazy peer sets, `engine`
//! disseminates broadcasts over them, `directory` and `health` keep the
//! address book and the liveness of peers, and `node` puts it all together
//! for one member of the cluster.

pub mod codec;
pub mod version;
pub mod tagged;
pub mod error;
pub mod peer;
pub mod membership;
pub mod directory;
pub mod engine;
pub mod health;
pub mod wire;
pub mod node;
pub mod transport;
pub mod net;
