//! The eager and lazy peer sets of the local node.
//!
//! Broadcast payloads are pushed at once to eager peers; lazy peers only
//! hear a digest. Graft moves a peer from lazy to eager, prune moves it
//! back, and the two sets never share a peer.
use vstd::prelude::*;

verus! {

/// Identifier of a cluster member: a 128-bit random number.
pub type NodeId = u128;

/// The predicate that keeps every identifier but `x`.
pub open spec fn other_than(x: NodeId) -> spec_fn(NodeId) -> bool {
    |y: NodeId| y != x
}

/// `s` without `x`, order kept.
pub open spec fn without(s: Seq<NodeId>, x: NodeId) -> Seq<NodeId> {
    s.filter(other_than(x))
}

/// Mathematical model of the peer sets, each in the order of its arrivals.
pub struct MembershipView {
    pub local: NodeId,
    pub eager: Seq<NodeId>,
    pub lazy: Seq<NodeId>,
}

/// No peer is both eager and lazy.
pub open spec fn disjoint(m: MembershipView) -> bool {
    forall|x: NodeId| #![trigger m.eager.contains(x), m.lazy.contains(x)]
        !(m.eager.contains(x) && m.lazy.contains(x))
}

/// The invariant of the peer sets: each lists a peer once, they are
/// disjoint, and the local node is in neither.
pub open spec fn wf_view(m: MembershipView) -> bool {
    &&& m.eager.no_duplicates()
    &&& m.lazy.no_duplicates()
    &&& disjoint(m)
    &&& !m.eager.contains(m.local)
    &&& !m.lazy.contains(m.local)
}

/// Whether `id` is in either set.
pub open spec fn known(m: MembershipView, id: NodeId) -> bool {
    m.eager.contains(id) || m.lazy.contains(id)
}

/// First contact with `id`: it becomes eager, unless it is the local node or
/// already known.
pub open spec fn spec_add_peer(m: MembershipView, id: NodeId) -> MembershipView {
    if id == m.local || known(m, id) {
        m
    } else {
        MembershipView { eager: m.eager.push(id), ..m }
    }
}

/// A lazy `id` becomes eager; otherwise nothing changes.
pub open spec fn spec_graft(m: MembershipView, id: NodeId) -> MembershipView {
    if m.lazy.contains(id) {
        MembershipView { eager: m.eager.push(id), lazy: without(m.lazy, id), ..m }
    } else {
        m
    }
}

/// An eager `id` becomes lazy; otherwise nothing changes.
pub open spec fn spec_prune(m: MembershipView, id: NodeId) -> MembershipView {
    if m.eager.contains(id) {
        MembershipView { eager: without(m.eager, id), lazy: m.lazy.push(id), ..m }
    } else {
        m
    }
}

/// `id` leaves both sets.
pub open spec fn spec_remove_peer(m: MembershipView, id: NodeId) -> MembershipView {
    MembershipView { eager: without(m.eager, id), lazy: without(m.lazy, id), ..m }
}

/// One change of the peer sets.
pub enum MembershipOp {
    AddPeer(NodeId),
    Graft(NodeId),
    Prune(NodeId),
    RemovePeer(NodeId),
}

pub open spec fn apply_op(m: MembershipView, op: MembershipOp) -> MembershipView {
    match op {
        MembershipOp::AddPeer(id) => spec_add_peer(m, id),
        MembershipOp::Graft(id) => spec_graft(m, id),
        MembershipOp::Prune(id) => spec_prune(m, id),
        MembershipOp::RemovePeer(id) => spec_remove_peer(m, id),
    }
}

/// The peer sets after `ops`, applied in order.
pub open spec fn apply_ops(m: MembershipView, ops: Seq<MembershipOp>) -> MembershipView
    decreases ops.len(),
{
    if ops.len() == 0 {
        m
    } else {
        apply_op(apply_ops(m, ops.drop_last()), ops.last())
    }
}

pub proof fn lemma_push_contains(s: Seq<NodeId>, a: NodeId, y: NodeId)
    ensures
        s.push(a).contains(y) <==> (s.contains(y) || a == y),
{
    if s.contains(y) {
        let i = choose|i: int| 0 <= i < s.len() && s[i] == y;
        assert(s.push(a)[i] == y);
    }
    if a == y {
        assert(s.push(a)[s.len() as int] == y);
    }
    if s.push(a).contains(y) {
        let i = choose|i: int| 0 <= i < s.push(a).len() && s.push(a)[i] == y;
        if i < s.len() {
            assert(s[i] == y);
        }
    }
}

proof fn lemma_without_push(s: Seq<NodeId>, a: NodeId, x: NodeId)
    ensures
        without(s.push(a), x) == (if a != x {
            without(s, x).push(a)
        } else {
            without(s, x)
        }),
{
    reveal(Seq::filter);
    assert(s.push(a).drop_last() =~= s);
}

pub proof fn lemma_without(s: Seq<NodeId>, x: NodeId)
    ensures
        !without(s, x).contains(x),
        forall|y: NodeId| y != x ==> (#[trigger] without(s, x).contains(y) <==> s.contains(y)),
        s.no_duplicates() ==> without(s, x).no_duplicates(),
        !s.contains(x) ==> without(s, x) == s,
    decreases s.len(),
{
    if s.len() > 0 {
        let t = s.drop_last();
        let l = s.last();
        let w = without(t, x);
        lemma_without(t, x);
        assert(t.push(l) =~= s);
        lemma_without_push(t, l, x);
        assert forall|y: NodeId| y != x implies (#[trigger] without(s, x).contains(y)
            <==> s.contains(y)) by {
            lemma_push_contains(t, l, y);
            lemma_push_contains(w, l, y);
        }
        lemma_push_contains(w, l, x);
        lemma_push_contains(t, l, x);
        if s.no_duplicates() {
            assert(t.no_duplicates());
            assert(!t.contains(l)) by {
                if t.contains(l) {
                    let i = choose|i: int| 0 <= i < t.len() && t[i] == l;
                    assert(s[i] == s[s.len() - 1]);
                }
            }
            if l != x {
                lemma_push_contains(w, l, l);
                assert(!w.contains(l));
                assert forall|i: int, j: int|
                    0 <= i < w.push(l).len() && 0 <= j < w.push(l).len() && i != j
                    implies w.push(l)[i] != w.push(l)[j] by {
                    if i < w.len() && j < w.len() {
                        assert(w[i] != w[j]);
                    } else if i < w.len() {
                        assert(w.contains(w[i]));
                    } else {
                        assert(w.contains(w[j]));
                    }
                }
            }
        }
    }
}

/// Every change keeps the sets disjoint.
pub proof fn lemma_op_keeps_disjoint(m: MembershipView, op: MembershipOp)
    requires
        disjoint(m),
    ensures
        disjoint(apply_op(m, op)),
{
    match op {
        MembershipOp::AddPeer(id) => {
            assert forall|y: NodeId| #![trigger m.eager.push(id).contains(y)]
                !known(m, id) ==> !(m.eager.push(id).contains(y) && m.lazy.contains(y)) by {
                lemma_push_contains(m.eager, id, y);
            }
        },
        MembershipOp::Graft(id) => {
            lemma_without(m.lazy, id);
            assert forall|y: NodeId| #![trigger m.eager.push(id).contains(y)]
                !(m.eager.push(id).contains(y) && without(m.lazy, id).contains(y)) by {
                lemma_push_contains(m.eager, id, y);
            }
        },
        MembershipOp::Prune(id) => {
            lemma_without(m.eager, id);
            assert forall|y: NodeId| #![trigger m.lazy.push(id).contains(y)]
                !(without(m.eager, id).contains(y) && m.lazy.push(id).contains(y)) by {
                lemma_push_contains(m.lazy, id, y);
            }
        },
        MembershipOp::RemovePeer(id) => {
            lemma_without(m.eager, id);
            lemma_without(m.lazy, id);
        },
    }
}

/// After any sequence of adds, grafts, prunes and removals the eager and
/// lazy sets share no peer.
pub proof fn lemma_ops_keep_disjoint(m: MembershipView, ops: Seq<MembershipOp>)
    requires
        disjoint(m),
    ensures
        disjoint(apply_ops(m, ops)),
    decreases ops.len(),
{
    if ops.len() > 0 {
        lemma_ops_keep_disjoint(m, ops.drop_last());
        lemma_op_keeps_disjoint(apply_ops(m, ops.drop_last()), ops.last());
    }
}

/// Every change keeps the whole invariant.
pub proof fn lemma_op_keeps_wf(m: MembershipView, op: MembershipOp)
    requires
        wf_view(m),
    ensures
        wf_view(apply_op(m, op)),
{
    lemma_op_keeps_disjoint(m, op);
    match op {
        MembershipOp::AddPeer(id) => {
            lemma_push_contains(m.eager, id, id);
            lemma_push_contains(m.eager, id, m.local);
            if !known(m, id) && id != m.local {
                assert forall|i: int, j: int|
                    0 <= i < m.eager.push(id).len() && 0 <= j < m.eager.push(id).len() && i != j
                    implies m.eager.push(id)[i] != m.eager.push(id)[j] by {
                    if i < m.eager.len() && j < m.eager.len() {
                    } else if i < m.eager.len() {
                        assert(m.eager.contains(m.eager[i]));
                    } else {
                        assert(m.eager.contains(m.eager[j]));
                    }
                }
            }
        },
        MembershipOp::Graft(id) => {
            lemma_without(m.lazy, id);
            lemma_push_contains(m.eager, id, m.local);
            if m.lazy.contains(id) {
                lemma_push_unique(m.eager, id);
            }
        },
        MembershipOp::Prune(id) => {
            lemma_without(m.eager, id);
            lemma_push_contains(m.lazy, id, m.local);
            if m.eager.contains(id) {
                lemma_push_unique(m.lazy, id);
            }
        },
        MembershipOp::RemovePeer(id) => {
            lemma_without(m.eager, id);
            lemma_without(m.lazy, id);
        },
    }
}

proof fn lemma_push_unique(s: Seq<NodeId>, a: NodeId)
    requires
        s.no_duplicates(),
        !s.contains(a),
    ensures
        s.push(a).no_duplicates(),
{
    assert forall|i: int, j: int|
        0 <= i < s.push(a).len() && 0 <= j < s.push(a).len() && i != j
        implies s.push(a)[i] != s.push(a)[j] by {
        if i < s.len() && j < s.len() {
        } else if i < s.len() {
            assert(s.contains(s[i]));
        } else {
            assert(s.contains(s[j]));
        }
    }
}

/// Whether `x` is in `v`.
pub(crate) fn vec_contains(v: &Vec<NodeId>, x: NodeId) -> (r: bool)
    ensures
        r == v@.contains(x),
{
    let mut i: usize = 0;
    while i < v.len()
        invariant
            i <= v@.len(),
            forall|k: int| 0 <= k < i ==> v@[k] != x,
        decreases v@.len() - i,
    {
        if v[i] == x {
            return true;
        }
        i = i + 1;
    }
    false
}

/// `v` without `x`, order kept.
pub(crate) fn vec_without(v: &Vec<NodeId>, x: NodeId) -> (r: Vec<NodeId>)
    ensures
        r@ == without(v@, x),
{
    let mut r: Vec<NodeId> = Vec::new();
    let mut i: usize = 0;
    while i < v.len()
        invariant
            i <= v@.len(),
            r@ == without(v@.subrange(0, i as int), x),
        decreases v@.len() - i,
    {
        assert(v@.subrange(0, i as int + 1) =~= v@.subrange(0, i as int).push(v@[i as int]));
        proof {
            lemma_without_push(v@.subrange(0, i as int), v@[i as int], x);
        }
        if v[i] != x {
            r.push(v[i]);
        }
        i = i + 1;
    }
    assert(v@.subrange(0, v@.len() as int) =~= v@);
    r
}

/// The eager and lazy sets of the local node.
pub struct Membership {
    local: NodeId,
    eager: Vec<NodeId>,
    lazy: Vec<NodeId>,
}

impl View for Membership {
    type V = MembershipView;

    closed spec fn view(&self) -> MembershipView {
        MembershipView { local: self.local, eager: self.eager@, lazy: self.lazy@ }
    }
}

impl Membership {
    pub open spec fn wf(&self) -> bool {
        wf_view(self@)
    }

    /// Empty sets for the node `local`.
    pub fn new(local: NodeId) -> (r: Membership)
        ensures
            r.wf(),
            r@ == (MembershipView { local, eager: Seq::empty(), lazy: Seq::empty() }),
    {
        Membership { local, eager: Vec::new(), lazy: Vec::new() }
    }

    /// The local node.
    pub fn local(&self) -> (r: NodeId)
        ensures
            r == self@.local,
    {
        self.local
    }

    /// The eager peers.
    pub fn eager(&self) -> (r: &Vec<NodeId>)
        ensures
            r@ == self@.eager,
    {
        &self.eager
    }

    /// The lazy peers.
    pub fn lazy(&self) -> (r: &Vec<NodeId>)
        ensures
            r@ == self@.lazy,
    {
        &self.lazy
    }

    pub fn is_eager(&self, id: NodeId) -> (r: bool)
        ensures
            r == self@.eager.contains(id),
    {
        vec_contains(&self.eager, id)
    }

    pub fn is_lazy(&self, id: NodeId) -> (r: bool)
        ensures
            r == self@.lazy.contains(id),
    {
        vec_contains(&self.lazy, id)
    }

    /// First contact with a peer: it joins the eager set.
    pub fn add_peer(&mut self, id: NodeId)
        requires
            old(self).wf(),
        ensures
            final(self).wf(),
            final(self)@ == spec_add_peer(old(self)@, id),
    {
        proof {
            lemma_op_keeps_wf(self@, MembershipOp::AddPeer(id));
        }
        if id != self.local && !vec_contains(&self.eager, id) && !vec_contains(&self.lazy, id) {
            self.eager.push(id);
        }
    }

    /// Moves a lazy peer to the eager set; a peer that is not lazy is left
    /// where it is.
    pub fn record_graft(&mut self, id: NodeId)
        requires
            old(self).wf(),
        ensures
            final(self).wf(),
            final(self)@ == spec_graft(old(self)@, id),
    {
        proof {
            lemma_op_keeps_wf(self@, MembershipOp::Graft(id));
        }
        if vec_contains(&self.lazy, id) {
            self.lazy = vec_without(&self.lazy, id);
            self.eager.push(id);
        }
    }

    /// Moves an eager peer to the lazy set; a peer that is not eager is left
    /// where it is.
    pub fn record_prune(&mut self, id: NodeId)
        requires
            old(self).wf(),
        ensures
            final(self).wf(),
            final(self)@ == spec_prune(old(self)@, id),
    {
        proof {
            lemma_op_keeps_wf(self@, MembershipOp::Prune(id));
        }
        if vec_contains(&self.eager, id) {
            self.eager = vec_without(&self.eager, id);
            self.lazy.push(id);
        }
    }

    /// Removes a peer from both sets.
    pub fn remove_peer(&mut self, id: NodeId)
        requires
            old(self).wf(),
        ensures
            final(self).wf(),
            final(self)@ == spec_remove_peer(old(self)@, id),
    {
        proof {
            lemma_op_keeps_wf(self@, MembershipOp::RemovePeer(id));
        }
        self.eager = vec_without(&self.eager, id);
        self.lazy = vec_without(&self.lazy, id);
    }
}

} // verus!
