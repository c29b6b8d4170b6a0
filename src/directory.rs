//! The address book of the cluster, keyed by node id.
use vstd::prelude::*;
use crate::engine::lemma_filter_push;
use crate::membership::NodeId;
use crate::peer::Peer;

verus! {

/// Position of the record of `id` in `s`, or -1 when there is none.
pub open spec fn peer_index(s: Seq<Peer>, id: NodeId) -> int
    decreases s.len(),
{
    if s.len() == 0 {
        -1
    } else if s.last().id == id {
        s.len() - 1
    } else {
        peer_index(s.drop_last(), id)
    }
}

pub open spec fn not_peer(id: NodeId) -> spec_fn(Peer) -> bool {
    |p: Peer| p.id != id
}

/// The records after `p` is registered: the record of its id is replaced,
/// or `p` is added at the end.
pub open spec fn spec_register(s: Seq<Peer>, p: Peer) -> Seq<Peer> {
    if peer_index(s, p.id) >= 0 {
        s.update(peer_index(s, p.id), p)
    } else {
        s.push(p)
    }
}

proof fn lemma_peer_index(s: Seq<Peer>, id: NodeId)
    ensures
        -1 <= peer_index(s, id) < s.len(),
        peer_index(s, id) >= 0 ==> s[peer_index(s, id)].id == id,
        peer_index(s, id) == -1 ==> forall|i: int| 0 <= i < s.len() ==> (#[trigger] s[i]).id != id,
    decreases s.len(),
{
    if s.len() > 0 {
        lemma_peer_index(s.drop_last(), id);
        if s.last().id != id {
            assert forall|i: int| 0 <= i < s.len() && peer_index(s, id) == -1 implies (
            #[trigger] s[i]).id != id by {
                if i < s.len() - 1 {
                    assert(s[i] == s.drop_last()[i]);
                }
            }
        }
    }
}

/// Records of the cluster's members, one per node id.
pub struct Directory {
    peers: Vec<Peer>,
}

impl View for Directory {
    type V = Seq<Peer>;

    closed spec fn view(&self) -> Seq<Peer> {
        self.peers@
    }
}

impl Directory {
    /// An empty directory.
    pub fn new() -> (r: Directory)
        ensures
            r@ == Seq::<Peer>::empty(),
    {
        Directory { peers: Vec::new() }
    }

    /// The number of records.
    pub fn len(&self) -> (r: usize)
        ensures
            r == self@.len(),
    {
        self.peers.len()
    }

    fn index_of(&self, id: NodeId) -> (r: Option<usize>)
        ensures
            r matches Some(i) ==> i as int == peer_index(self@, id),
            r is None ==> peer_index(self@, id) == -1,
    {
        let mut i: usize = self.peers.len();
        assert(self@.subrange(0, i as int) =~= self@);
        while i > 0
            invariant
                i <= self@.len(),
                peer_index(self@, id) == peer_index(self@.subrange(0, i as int), id),
            decreases i,
        {
            assert(self@.subrange(0, i as int).drop_last() =~= self@.subrange(0, i as int - 1));
            if self.peers[i - 1].id == id {
                return Some(i - 1);
            }
            i = i - 1;
        }
        None
    }

    /// Adds `p`, or replaces the address of its id.
    pub fn register(&mut self, p: Peer)
        ensures
            final(self)@ == spec_register(old(self)@, p),
    {
        proof {
            lemma_peer_index(self@, p.id);
        }
        match self.index_of(p.id) {
            Some(i) => {
                self.peers.set(i, p);
            },
            None => {
                self.peers.push(p);
            },
        }
    }

    /// Drops the record of `id`.
    pub fn remove(&mut self, id: NodeId)
        ensures
            final(self)@ == old(self)@.filter(not_peer(id)),
    {
        let mut kept: Vec<Peer> = Vec::new();
        let mut i: usize = 0;
        while i < self.peers.len()
            invariant
                i <= self@.len(),
                kept@ == self@.subrange(0, i as int).filter(not_peer(id)),
            decreases self@.len() - i,
        {
            let p = self.peers[i].duplicate();
            proof {
                assert(p == self@[i as int]) by {
                    assert(p.addr == self@[i as int].addr);
                }
                assert(self@.subrange(0, i as int + 1) =~= self@.subrange(0, i as int).push(p));
                lemma_filter_push(self@.subrange(0, i as int), p, not_peer(id));
            }
            if p.id != id {
                kept.push(p);
            }
            i = i + 1;
        }
        assert(self@.subrange(0, self@.len() as int) =~= self@);
        self.peers = kept;
    }

    /// The record of `id`, if there is one.
    pub fn lookup(&self, id: NodeId) -> (r: Option<Peer>)
        ensures
            r is Some <==> peer_index(self@, id) >= 0,
            r matches Some(p) ==> p == self@[peer_index(self@, id)],
    {
        proof {
            lemma_peer_index(self@, id);
        }
        match self.index_of(id) {
            Some(i) => Some(self.peers[i].duplicate()),
            None => None,
        }
    }

    /// Every record, in the order of registration.
    pub fn all(&self) -> (r: Vec<Peer>)
        ensures
            r@ == self@,
    {
        let mut r: Vec<Peer> = Vec::new();
        let mut i: usize = 0;
        while i < self.peers.len()
            invariant
                i <= self@.len(),
                r@ == self@.subrange(0, i as int),
            decreases self@.len() - i,
        {
            let p = self.peers[i].duplicate();
            r.push(p);
            i = i + 1;
            assert(r@ =~= self@.subrange(0, i as int));
        }
        assert(self@.subrange(0, self@.len() as int) =~= self@);
        r
    }
}

} // verus!
