//! The broadcast engine: deduplication, commit tracking and dissemination.
//!
//! A broadcast is unseen until it is first originated or received. On first
//! sight its payload is pushed to every eager peer and announced by digest
//! (`IHAVE`) to every lazy peer, the sender excepted, and it is committed. A
//! later copy of it is redundant: its sender is recorded as holding it, is
//! told to prune the link, and is moved to the lazy set. Each peer's
//! announcement of an unseen broadcast waits for the payload; once its
//! deadline passes, that peer is grafted and asked for the payload. A committed broadcast is
//! forgotten once its retention window has passed.
use vstd::prelude::*;
use crate::peer::{random_id, RANDOM_ID_BITS, RANDOM_ID_MASK};
use crate::membership::{
    lemma_push_contains, lemma_without, other_than, spec_add_peer, spec_graft, spec_prune, spec_remove_peer, vec_contains, without,
    Membership, MembershipView, NodeId, wf_view,
};

verus! {

/// Identifier of a broadcast: a 128-bit random number.
pub type BroadcastId = u128;

/// An application message: a unique id, a tag naming the payload's type,
/// and the opaque payload.
#[derive(Clone, Debug, PartialEq, Eq)]
pub struct Broadcast {
    pub id: BroadcastId,
    pub tag: String,
    pub payload: Vec<u8>,
}

/// Mathematical model of a broadcast.
pub struct BroadcastView {
    pub id: BroadcastId,
    pub tag: Seq<char>,
    pub payload: Seq<u8>,
}

impl View for Broadcast {
    type V = BroadcastView;

    open spec fn view(&self) -> BroadcastView {
        BroadcastView { id: self.id, tag: self.tag@, payload: self.payload@ }
    }
}

impl Broadcast {
    /// A broadcast with a fresh random id.
    pub fn new(tag: String, payload: Vec<u8>) -> (r: Broadcast)
        ensures
            r.id & RANDOM_ID_MASK == RANDOM_ID_BITS,
            r.tag == tag,
            r.payload == payload,
    {
        Broadcast { id: random_id(), tag, payload }
    }

    /// A broadcast with the given id, tag and payload.
    pub fn with_id(id: BroadcastId, tag: String, payload: Vec<u8>) -> (r: Broadcast)
        ensures
            r.id == id,
            r.tag == tag,
            r.payload == payload,
    {
        Broadcast { id, tag, payload }
    }

    /// The broadcast's id.
    pub fn id(&self) -> (r: BroadcastId)
        ensures
            r == self.id,
    {
        self.id
    }

    /// A copy with the same contents.
    pub fn duplicate(&self) -> (r: Broadcast)
        ensures
            r@ == self@,
    {
        let payload = self.payload.clone();
        assert(payload@ =~= self.payload@);
        Broadcast { id: self.id, tag: self.tag.clone(), payload }
    }
}

/// The kind of a protocol message sent to a peer.
#[derive(Clone, Copy, Debug, PartialEq, Eq, Structural)]
pub enum Kind {
    /// The full payload of the broadcast.
    Message,
    /// A digest: the id alone.
    IHave,
    /// A request for the payload, which also makes the link eager.
    Graft,
    /// A notice that the link is redundant and becomes lazy.
    Prune,
}

/// A protocol message that the engine asks the transport to send: its
/// receiver, its kind and the broadcast that it is about.
#[derive(Clone, Copy, Debug, PartialEq, Eq, Structural)]
pub struct Envelope {
    pub to: NodeId,
    pub kind: Kind,
    pub id: BroadcastId,
}

/// An inbound protocol message.
pub enum Protocol {
    Message(Broadcast),
    IHave(BroadcastId),
    Graft(BroadcastId),
    Prune(BroadcastId),
}

/// Where a broadcast stands in its life.
#[derive(Clone, Copy, Debug, PartialEq, Eq, Structural)]
pub enum BroadcastState {
    /// Neither originated nor received.
    Unseen,
    /// Received, with its dissemination not yet done. The engine
    /// disseminates within the call that receives, so it never reports this
    /// state between calls.
    Seen,
    /// Received and disseminated.
    Committed,
}

/// An announcement of an unseen broadcast, waiting for its payload.
#[derive(Clone, Copy, Debug, PartialEq, Eq, Structural)]
pub struct Pending {
    pub id: BroadcastId,
    pub from: NodeId,
    pub deadline: u64,
}

/// A broadcast held by the engine with the peers known to have it.
pub struct Entry {
    broadcast: Broadcast,
    committed: Vec<NodeId>,
    since: u64,
}

/// Mathematical model of an entry.
pub struct EntryView {
    pub broadcast: BroadcastView,
    pub committed: Seq<NodeId>,
    /// When it was committed.
    pub since: u64,
}

impl View for Entry {
    type V = EntryView;

    closed spec fn view(&self) -> EntryView {
        EntryView { broadcast: self.broadcast@, committed: self.committed@, since: self.since }
    }
}

/// Mathematical model of the engine.
pub struct EngineView {
    pub membership: MembershipView,
    pub entries: Map<BroadcastId, EntryView>,
    pub pending: Seq<Pending>,
    pub timeout: u64,
}

/// The entries of `s` by broadcast id.
pub open spec fn entry_map(s: Seq<EntryView>) -> Map<BroadcastId, EntryView>
    decreases s.len(),
{
    if s.len() == 0 {
        Map::empty()
    } else {
        entry_map(s.drop_last()).insert(s.last().broadcast.id, s.last())
    }
}

pub open spec fn unique_ids(s: Seq<EntryView>) -> bool {
    forall|i: int, j: int|
        0 <= i < s.len() && 0 <= j < s.len() && #[trigger] s[i].broadcast.id
            == #[trigger] s[j].broadcast.id ==> i == j
}

/// `s` with `x` added at the end unless it is there already.
pub open spec fn add_once(s: Seq<NodeId>, x: NodeId) -> Seq<NodeId> {
    if s.contains(x) {
        s
    } else {
        s.push(x)
    }
}

/// The state of broadcast `id`.
pub open spec fn spec_state(e: EngineView, id: BroadcastId) -> BroadcastState {
    if e.entries.contains_key(id) {
        BroadcastState::Committed
    } else {
        BroadcastState::Unseen
    }
}

pub open spec fn message_to(id: BroadcastId) -> spec_fn(NodeId) -> Envelope {
    |p: NodeId| Envelope { to: p, kind: Kind::Message, id }
}

pub open spec fn ihave_to(id: BroadcastId) -> spec_fn(NodeId) -> Envelope {
    |p: NodeId| Envelope { to: p, kind: Kind::IHave, id }
}

pub open spec fn prune_to(id: BroadcastId) -> spec_fn(NodeId) -> Envelope {
    |p: NodeId| Envelope { to: p, kind: Kind::Prune, id }
}

pub open spec fn graft_for() -> spec_fn(Pending) -> Envelope {
    |p: Pending| Envelope { to: p.from, kind: Kind::Graft, id: p.id }
}

/// The messages of a first sighting of `id` received from `from`: the
/// payload to each eager peer and a digest to each lazy peer, `from`
/// excepted, in the order of the sets.
pub open spec fn spec_disseminate(m: MembershipView, from: NodeId, id: BroadcastId) -> Seq<
    Envelope,
> {
    without(m.eager, from).map_values(message_to(id)) + without(m.lazy, from).map_values(
        ihave_to(id),
    )
}

pub open spec fn not_for(id: BroadcastId) -> spec_fn(Pending) -> bool {
    |p: Pending| p.id != id
}

pub open spec fn expired(now: u64) -> spec_fn(Pending) -> bool {
    |p: Pending| p.deadline <= now
}

pub open spec fn waiting(now: u64) -> spec_fn(Pending) -> bool {
    |p: Pending| p.deadline > now
}

/// The peer sets after grafting the announcer of each of `s`, in order.
pub open spec fn graft_all(m: MembershipView, s: Seq<Pending>) -> MembershipView
    decreases s.len(),
{
    if s.len() == 0 {
        m
    } else {
        spec_graft(graft_all(m, s.drop_last()), s.last().from)
    }
}

/// The engine after `b` is originated locally at time `now`, and the
/// messages it sends; a broadcast whose id is already held changes nothing.
pub open spec fn spec_originate(e: EngineView, b: BroadcastView, now: u64) -> (EngineView, Seq<Envelope>) {
    if e.entries.contains_key(b.id) {
        (e, Seq::empty())
    } else {
        (
            EngineView {
                entries: e.entries.insert(
                    b.id,
                    EntryView { broadcast: b, committed: Seq::empty(), since: now },
                ),
                pending: e.pending.filter(not_for(b.id)),
                ..e
            },
            spec_disseminate(e.membership, e.membership.local, b.id),
        )
    }
}

/// The engine after `from` delivers the payload of `b` at time `now`, and
/// the messages it sends.
pub open spec fn spec_receive_message(e: EngineView, from: NodeId, b: BroadcastView, now: u64) -> (
    EngineView,
    Seq<Envelope>,
) {
    if e.entries.contains_key(b.id) {
        let old_entry = e.entries[b.id];
        (
            EngineView {
                membership: spec_prune(e.membership, from),
                entries: e.entries.insert(
                    b.id,
                    EntryView { committed: add_once(old_entry.committed, from), ..old_entry },
                ),
                ..e
            },
            seq![Envelope { to: from, kind: Kind::Prune, id: b.id }],
        )
    } else {
        (
            EngineView {
                entries: e.entries.insert(
                    b.id,
                    EntryView { broadcast: b, committed: seq![from], since: now },
                ),
                pending: e.pending.filter(not_for(b.id)),
                ..e
            },
            spec_disseminate(e.membership, from, b.id),
        )
    }
}

/// The engine after `from` announces `id` at time `now`: a held broadcast
/// records `from` as holding it; for an unseen one, `from`'s announcement
/// waits until `now` plus the timeout, saturated, unless `from` announced it
/// already. Each announcer of an unseen broadcast has a record of its own.
pub open spec fn spec_receive_ihave(e: EngineView, from: NodeId, id: BroadcastId, now: u64) -> EngineView {
    if e.entries.contains_key(id) {
        let old_entry = e.entries[id];
        EngineView {
            entries: e.entries.insert(
                id,
                EntryView { committed: add_once(old_entry.committed, from), ..old_entry },
            ),
            ..e
        }
    } else if exists|i: int|
        0 <= i < e.pending.len() && (#[trigger] e.pending[i]).id == id && e.pending[i].from == from {
        e
    } else {
        let deadline = if now as int + e.timeout as int > u64::MAX as int {
            u64::MAX
        } else {
            (now + e.timeout) as u64
        };
        EngineView { pending: e.pending.push(Pending { id, from, deadline }), ..e }
    }
}

/// The engine after `from` asks for `id`, and the messages it sends: for a
/// held broadcast `from` is grafted and gets the payload; a request for any
/// other id is ignored.
pub open spec fn spec_receive_graft(e: EngineView, from: NodeId, id: BroadcastId) -> (
    EngineView,
    Seq<Envelope>,
) {
    if e.entries.contains_key(id) {
        (
            EngineView { membership: spec_graft(e.membership, from), ..e },
            seq![Envelope { to: from, kind: Kind::Message, id }],
        )
    } else {
        (e, Seq::empty())
    }
}

/// The engine after `from` prunes the link: `from` becomes lazy, and is
/// recorded as holding `id` if that is held.
pub open spec fn spec_receive_prune(e: EngineView, from: NodeId, id: BroadcastId) -> EngineView {
    let pruned = EngineView { membership: spec_prune(e.membership, from), ..e };
    if e.entries.contains_key(id) {
        let old_entry = e.entries[id];
        EngineView {
            entries: e.entries.insert(
                id,
                EntryView { committed: add_once(old_entry.committed, from), ..old_entry },
            ),
            ..pruned
        }
    } else {
        pruned
    }
}

/// The engine at time `now`, and the messages it sends: every announcement
/// whose deadline has come is dropped, its announcer grafted and asked for
/// the payload.
pub open spec fn spec_tick(e: EngineView, now: u64) -> (EngineView, Seq<Envelope>) {
    let due = e.pending.filter(expired(now));
    (
        EngineView {
            membership: graft_all(e.membership, due),
            pending: e.pending.filter(waiting(now)),
            ..e
        },
        due.map_values(graft_for()),
    )
}

/// Whether an entry is still inside the retention window at `now`.
pub open spec fn retained(now: u64, retention: u64) -> spec_fn(EntryView) -> bool {
    |en: EntryView| en.since as int + retention as int > now as int
}

/// The entries of `m` still inside the retention window at `now`.
pub open spec fn retain_entries(m: Map<BroadcastId, EntryView>, now: u64, retention: u64) -> Map<
    BroadcastId,
    EntryView,
> {
    Map::new(|id: BroadcastId| m.contains_key(id) && retained(now, retention)(m[id]), |id: BroadcastId| m[id])
}

/// The engine after forgetting every broadcast committed `retention` or
/// more time units before `now`. A forgotten broadcast counts as unseen.
pub open spec fn spec_expire(e: EngineView, now: u64, retention: u64) -> EngineView {
    EngineView { entries: retain_entries(e.entries, now, retention), ..e }
}

pub proof fn lemma_filter_push<A>(s: Seq<A>, a: A, f: spec_fn(A) -> bool)
    ensures
        s.push(a).filter(f) == (if f(a) {
            s.filter(f).push(a)
        } else {
            s.filter(f)
        }),
{
    reveal(Seq::filter);
    assert(s.push(a).drop_last() =~= s);
}

proof fn lemma_entry_map(s: Seq<EntryView>)
    requires
        unique_ids(s),
    ensures
        forall|id: BroadcastId|
            #[trigger] entry_map(s).contains_key(id) <==> exists|i: int|
                0 <= i < s.len() && s[i].broadcast.id == id,
        forall|i: int| 0 <= i < s.len() ==> entry_map(s)[#[trigger] s[i].broadcast.id] == s[i],
    decreases s.len(),
{
    if s.len() > 0 {
        let t = s.drop_last();
        assert(unique_ids(t));
        lemma_entry_map(t);
        assert forall|id: BroadcastId|
            #[trigger] entry_map(s).contains_key(id) <==> exists|i: int|
                0 <= i < s.len() && s[i].broadcast.id == id by {
            if entry_map(t).contains_key(id) {
                let i = choose|i: int| 0 <= i < t.len() && t[i].broadcast.id == id;
                assert(s[i].broadcast.id == id);
            }
            if exists|i: int| 0 <= i < s.len() && s[i].broadcast.id == id {
                let i = choose|i: int| 0 <= i < s.len() && s[i].broadcast.id == id;
                if i < t.len() {
                    assert(t[i].broadcast.id == id);
                }
            }
        }
        assert forall|i: int| 0 <= i < s.len() implies entry_map(s)[#[trigger] s[i].broadcast.id]
            == s[i] by {
            if i < t.len() {
                assert(t[i] == s[i]);
                assert(s[i].broadcast.id != s.last().broadcast.id);
            }
        }
    }
}

proof fn lemma_entry_map_update(s: Seq<EntryView>, i: int, v: EntryView)
    requires
        unique_ids(s),
        0 <= i < s.len(),
        v.broadcast.id == s[i].broadcast.id,
    ensures
        unique_ids(s.update(i, v)),
        entry_map(s.update(i, v)) == entry_map(s).insert(v.broadcast.id, v),
    decreases s.len(),
{
    let u = s.update(i, v);
    assert forall|a: int, b: int|
        0 <= a < u.len() && 0 <= b < u.len() && #[trigger] u[a].broadcast.id
            == #[trigger] u[b].broadcast.id implies a == b by {
        assert(s[a].broadcast.id == u[a].broadcast.id);
        assert(s[b].broadcast.id == u[b].broadcast.id);
    }
    let t = s.drop_last();
    if i == s.len() - 1 {
        assert(u.drop_last() =~= t);
        assert(entry_map(u) =~= entry_map(s).insert(v.broadcast.id, v));
    } else {
        assert(unique_ids(t));
        lemma_entry_map_update(t, i, v);
        assert(u.drop_last() =~= t.update(i, v));
        assert(s.last().broadcast.id != v.broadcast.id);
        assert(entry_map(u) =~= entry_map(s).insert(v.broadcast.id, v));
    }
}

proof fn lemma_entry_map_push(s: Seq<EntryView>, v: EntryView)
    requires
        unique_ids(s),
        !entry_map(s).contains_key(v.broadcast.id),
    ensures
        unique_ids(s.push(v)),
        entry_map(s.push(v)) == entry_map(s).insert(v.broadcast.id, v),
{
    lemma_entry_map(s);
    let u = s.push(v);
    assert(u.drop_last() =~= s);
    assert forall|a: int, b: int|
        0 <= a < u.len() && 0 <= b < u.len() && #[trigger] u[a].broadcast.id
            == #[trigger] u[b].broadcast.id implies a == b by {
        if a < s.len() && b < s.len() {
            assert(s[a].broadcast.id == s[b].broadcast.id);
        } else if a < s.len() {
            assert(s[a].broadcast.id == v.broadcast.id);
        } else if b < s.len() {
            assert(s[b].broadcast.id == v.broadcast.id);
        }
    }
}

proof fn lemma_entry_map_len(s: Seq<EntryView>)
    requires
        unique_ids(s),
    ensures
        entry_map(s).dom().finite(),
        entry_map(s).len() == s.len(),
    decreases s.len(),
{
    if s.len() > 0 {
        let t = s.drop_last();
        assert(unique_ids(t));
        lemma_entry_map_len(t);
        lemma_entry_map(t);
        assert(!entry_map(t).contains_key(s.last().broadcast.id)) by {
            if entry_map(t).contains_key(s.last().broadcast.id) {
                let i = choose|i: int| 0 <= i < t.len() && t[i].broadcast.id == s.last().broadcast.id;
                assert(s[i].broadcast.id == s[s.len() - 1].broadcast.id);
            }
        }
    }
}

proof fn lemma_entry_map_filter(s: Seq<EntryView>, p: spec_fn(EntryView) -> bool, now: u64, retention: u64)
    requires
        unique_ids(s),
        p == retained(now, retention),
    ensures
        unique_ids(s.filter(p)),
        entry_map(s.filter(p)) == retain_entries(entry_map(s), now, retention),
    decreases s.len(),
{
    broadcast use vstd::seq_lib::group_filter_ensures;

    if s.len() == 0 {
        assert(s.filter(p) =~= s) by {
            reveal(Seq::filter);
        }
        assert(entry_map(s.filter(p)) =~= retain_entries(entry_map(s), now, retention));
    } else {
        let t = s.drop_last();
        let l = s.last();
        assert(unique_ids(t));
        lemma_entry_map_filter(t, p, now, retention);
        lemma_entry_map(t);
        assert(t.push(l) =~= s);
        lemma_filter_push(t, l, p);
        let ft = t.filter(p);
        assert(!entry_map(t).contains_key(l.broadcast.id)) by {
            if entry_map(t).contains_key(l.broadcast.id) {
                let i = choose|i: int| 0 <= i < t.len() && t[i].broadcast.id == l.broadcast.id;
                assert(s[i].broadcast.id == s[s.len() - 1].broadcast.id);
            }
        }
        if p(l) {
            assert forall|a: int, b: int|
                0 <= a < ft.push(l).len() && 0 <= b < ft.push(l).len() && #[trigger] ft.push(l)[a].broadcast.id
                    == #[trigger] ft.push(l)[b].broadcast.id implies a == b by {
                if a < ft.len() && b < ft.len() {
                } else if a < ft.len() {
                    assert(ft.contains(ft[a]));
                    t.lemma_filter_contains_rev(p, ft[a]);
                    let j = choose|j: int| 0 <= j < t.len() && t[j] == ft[a];
                    assert(t[j].broadcast.id == l.broadcast.id);
                } else if b < ft.len() {
                    assert(ft.contains(ft[b]));
                    t.lemma_filter_contains_rev(p, ft[b]);
                    let j = choose|j: int| 0 <= j < t.len() && t[j] == ft[b];
                    assert(t[j].broadcast.id == l.broadcast.id);
                }
            }
            assert(ft.push(l).drop_last() =~= ft);
        }
        assert(entry_map(s.filter(p)) =~= retain_entries(entry_map(s), now, retention));
    }
}

/// The engine of the local node: its peer sets, the broadcasts it holds,
/// and the announcements that it awaits.
pub struct Engine {
    membership: Membership,
    entries: Vec<Entry>,
    pending: Vec<Pending>,
    timeout: u64,
}

impl Engine {
    pub closed spec fn entry_views(&self) -> Seq<EntryView> {
        self.entries@.map_values(|e: Entry| e@)
    }

    pub closed spec fn view(&self) -> EngineView {
        EngineView {
            membership: self.membership@,
            entries: entry_map(self.entry_views()),
            pending: self.pending@,
            timeout: self.timeout,
        }
    }

    pub closed spec fn wf(&self) -> bool {
        &&& self.membership.wf()
        &&& unique_ids(self.entry_views())
    }

    /// A well-formed engine's peer sets list each peer once, share no peer,
    /// and hold neither the local node.
    pub proof fn lemma_wf(&self)
        ensures
            self.wf() ==> wf_view(self.view().membership),
    {
    }

    /// An engine for the node `local` with no peers and no broadcasts; an
    /// announcement waits `timeout` time units for its payload.
    pub fn new(local: NodeId, timeout: u64) -> (r: Engine)
        ensures
            r.wf(),
            r.view() == (EngineView {
                membership: MembershipView { local, eager: Seq::empty(), lazy: Seq::empty() },
                entries: Map::empty(),
                pending: Seq::empty(),
                timeout,
            }),
    {
        let r = Engine { membership: Membership::new(local), entries: Vec::new(), pending: Vec::new(), timeout };
        assert(r.entry_views() =~= Seq::empty());
        r
    }

    /// The peer sets.
    pub fn membership(&self) -> (r: &Membership)
        ensures
            r@ == self.view().membership,
    {
        &self.membership
    }

    /// The time that an announcement waits for its payload.
    pub fn timeout(&self) -> (r: u64)
        ensures
            r == self.view().timeout,
    {
        self.timeout
    }

    /// The announcements awaiting their payload.
    pub fn pending(&self) -> (r: &Vec<Pending>)
        ensures
            r@ == self.view().pending,
    {
        &self.pending
    }

    /// The number of broadcasts held.
    pub fn len(&self) -> (r: usize)
        requires
            self.wf(),
        ensures
            r == self.view().entries.len(),
    {
        proof {
            lemma_entry_map_len(self.entry_views());
        }
        self.entries.len()
    }

    fn find(&self, id: BroadcastId) -> (r: Option<usize>)
        requires
            self.wf(),
        ensures
            r matches Some(i) ==> i < self.entries@.len() && self.entries@[i as int].broadcast.id
                == id && self.view().entries[id] == self.entries@[i as int]@,
            r is Some <==> self.view().entries.contains_key(id),
    {
        proof {
            lemma_entry_map(self.entry_views());
        }
        let mut i: usize = 0;
        while i < self.entries.len()
            invariant
                i <= self.entries@.len(),
                forall|k: int| 0 <= k < i ==> self.entries@[k].broadcast.id != id,
                self.wf(),
            decreases self.entries@.len() - i,
        {
            if self.entries[i].broadcast.id == id {
                proof {
                    lemma_entry_map(self.entry_views());
                    assert(self.entry_views()[i as int] == self.entries@[i as int]@);
                    assert(self.entry_views()[i as int].broadcast.id == id);
                    assert(entry_map(self.entry_views())[id] == self.entry_views()[i as int]);
                }
                return Some(i);
            }
            i = i + 1;
        }
        assert forall|k: int| 0 <= k < self.entry_views().len() implies self.entry_views()[k].broadcast.id != id by {
            assert(self.entry_views()[k] == self.entries@[k]@);
        }
        proof {
            lemma_entry_map(self.entry_views());
        }
        None
    }

    /// Where broadcast `id` stands.
    pub fn state(&self, id: BroadcastId) -> (r: BroadcastState)
        requires
            self.wf(),
        ensures
            r == spec_state(self.view(), id),
    {
        match self.find(id) {
            Some(_) => BroadcastState::Committed,
            None => BroadcastState::Unseen,
        }
    }

    /// The broadcast `id`, if it is held.
    pub fn broadcast(&self, id: BroadcastId) -> (r: Option<&Broadcast>)
        requires
            self.wf(),
        ensures
            r is Some <==> self.view().entries.contains_key(id),
            r matches Some(b) ==> b@ == self.view().entries[id].broadcast,
    {
        match self.find(id) {
            Some(i) => Some(&self.entries[i].broadcast),
            None => None,
        }
    }

    /// The peers known to hold broadcast `id`, if it is held.
    pub fn committed(&self, id: BroadcastId) -> (r: Option<&Vec<NodeId>>)
        requires
            self.wf(),
        ensures
            r is Some <==> self.view().entries.contains_key(id),
            r matches Some(c) ==> c@ == self.view().entries[id].committed,
    {
        match self.find(id) {
            Some(i) => Some(&self.entries[i].committed),
            None => None,
        }
    }

    /// Records `from` as holding the entry at `i`.
    fn add_committed(&mut self, i: usize, from: NodeId)
        requires
            old(self).wf(),
            i < old(self).entries@.len(),
        ensures
            final(self).wf(),
            final(self).membership == old(self).membership,
            final(self).pending == old(self).pending,
            final(self).timeout == old(self).timeout,
            ({
                let id = old(self).entries@[i as int].broadcast.id;
                let old_entry = old(self).view().entries[id];
                final(self).view().entries == old(self).view().entries.insert(
                    id,
                    EntryView { committed: add_once(old_entry.committed, from), ..old_entry },
                )
            }),
    {
        proof {
            lemma_entry_map(self.entry_views());
        }
        let ghost old_views = self.entry_views();
        let ghost id = self.entries@[i as int].broadcast.id;
        assert(old_views[i as int] == self.entries@[i as int]@);
        if !vec_contains(&self.entries[i].committed, from) {
            let mut entry = self.entries.remove(i);
            entry.committed.push(from);
            self.entries.insert(i, entry);
        }
        proof {
            let v = EntryView { committed: add_once(old_views[i as int].committed, from), ..old_views[i as int] };
            assert(self.entry_views() =~= old_views.update(i as int, v));
            lemma_entry_map_update(old_views, i as int, v);
        }
    }

    /// Adds a new entry for `b`.
    fn add_entry(&mut self, b: Broadcast, committed: Vec<NodeId>, since: u64)
        requires
            old(self).wf(),
            !old(self).view().entries.contains_key(b.id),
        ensures
            final(self).wf(),
            final(self).membership == old(self).membership,
            final(self).pending == old(self).pending,
            final(self).timeout == old(self).timeout,
            final(self).view().entries == old(self).view().entries.insert(
                b.id,
                EntryView { broadcast: b@, committed: committed@, since },
            ),
    {
        let ghost old_views = self.entry_views();
        let ghost v = EntryView { broadcast: b@, committed: committed@, since };
        self.entries.push(Entry { broadcast: b, committed, since });
        proof {
            assert(self.entry_views() =~= old_views.push(v));
            lemma_entry_map_push(old_views, v);
        }
    }

    /// Drops the announcements of `id`.
    fn drop_pending(&mut self, id: BroadcastId)
        ensures
            final(self).pending@ == old(self).pending@.filter(not_for(id)),
            final(self).membership == old(self).membership,
            final(self).entries == old(self).entries,
            final(self).timeout == old(self).timeout,
    {
        let mut kept: Vec<Pending> = Vec::new();
        let mut i: usize = 0;
        while i < self.pending.len()
            invariant
                i <= self.pending@.len(),
                kept@ == self.pending@.subrange(0, i as int).filter(not_for(id)),
            decreases self.pending@.len() - i,
        {
            let p = self.pending[i];
            proof {
                assert(self.pending@.subrange(0, i as int + 1) =~= self.pending@.subrange(0, i as int).push(p));
                lemma_filter_push(self.pending@.subrange(0, i as int), p, not_for(id));
            }
            if p.id != id {
                kept.push(p);
            }
            i = i + 1;
        }
        assert(self.pending@.subrange(0, self.pending@.len() as int) =~= self.pending@);
        self.pending = kept;
    }

    /// The messages of a first sighting of `id` received from `from`.
    fn disseminate(&self, from: NodeId, id: BroadcastId) -> (r: Vec<Envelope>)
        ensures
            r@ == spec_disseminate(self.membership@, from, id),
    {
        let mut out: Vec<Envelope> = Vec::new();
        let eager = self.membership.eager();
        let mut i: usize = 0;
        while i < eager.len()
            invariant
                i <= eager@.len(),
                eager@ == self.membership@.eager,
                out@ == without(eager@.subrange(0, i as int), from).map_values(message_to(id)),
            decreases eager@.len() - i,
        {
            let p = eager[i];
            proof {
                assert(eager@.subrange(0, i as int + 1) =~= eager@.subrange(0, i as int).push(p));
                lemma_filter_push(eager@.subrange(0, i as int), p, other_than(from));
            }
            if p != from {
                out.push(Envelope { to: p, kind: Kind::Message, id });
                assert(out@ =~= without(eager@.subrange(0, i as int + 1), from).map_values(message_to(id)));
            } else {
                assert(out@ =~= without(eager@.subrange(0, i as int + 1), from).map_values(message_to(id)));
            }
            i = i + 1;
        }
        assert(eager@.subrange(0, eager@.len() as int) =~= eager@);
        let ghost pushes = out@;
        let lazy = self.membership.lazy();
        let mut j: usize = 0;
        while j < lazy.len()
            invariant
                j <= lazy@.len(),
                lazy@ == self.membership@.lazy,
                out@ == pushes + without(lazy@.subrange(0, j as int), from).map_values(ihave_to(id)),
            decreases lazy@.len() - j,
        {
            let p = lazy[j];
            proof {
                assert(lazy@.subrange(0, j as int + 1) =~= lazy@.subrange(0, j as int).push(p));
                lemma_filter_push(lazy@.subrange(0, j as int), p, other_than(from));
            }
            if p != from {
                out.push(Envelope { to: p, kind: Kind::IHave, id });
                assert(out@ =~= pushes + without(lazy@.subrange(0, j as int + 1), from).map_values(ihave_to(id)));
            } else {
                assert(out@ =~= pushes + without(lazy@.subrange(0, j as int + 1), from).map_values(ihave_to(id)));
            }
            j = j + 1;
        }
        assert(lazy@.subrange(0, lazy@.len() as int) =~= lazy@);
        out
    }

    /// Originates `b` at the local node at time `now`: pushes it to the
    /// eager peers, announces it to the lazy ones and commits it, with no
    /// peer yet known to hold it. A broadcast whose id is already held
    /// changes nothing.
    pub fn originate(&mut self, b: Broadcast, now: u64) -> (r: Vec<Envelope>)
        requires
            old(self).wf(),
        ensures
            final(self).wf(),
            (final(self).view(), r@) == spec_originate(old(self).view(), b@, now),
    {
        if self.find(b.id).is_some() {
            return Vec::new();
        }
        let id = b.id;
        let out = self.disseminate(self.membership.local(), id);
        let nobody: Vec<NodeId> = Vec::new();
        assert(nobody@ =~= Seq::<NodeId>::empty());
        self.add_entry(b, nobody, now);
        self.drop_pending(id);
        out
    }

    /// Handles the payload of `b` delivered by `from` at time `now`.
    pub fn receive_message(&mut self, from: NodeId, b: Broadcast, now: u64) -> (r: Vec<Envelope>)
        requires
            old(self).wf(),
        ensures
            final(self).wf(),
            (final(self).view(), r@) == spec_receive_message(old(self).view(), from, b@, now),
    {
        match self.find(b.id) {
            Some(i) => {
                self.add_committed(i, from);
                self.membership.record_prune(from);
                let mut out: Vec<Envelope> = Vec::new();
                out.push(Envelope { to: from, kind: Kind::Prune, id: b.id });
                assert(out@ =~= seq![Envelope { to: from, kind: Kind::Prune, id: b.id }]);
                out
            },
            None => {
                let id = b.id;
                let out = self.disseminate(from, id);
                let mut committed: Vec<NodeId> = Vec::new();
                committed.push(from);
                assert(committed@ =~= seq![from]);
                self.add_entry(b, committed, now);
                self.drop_pending(id);
                out
            },
        }
    }

    /// Handles an announcement of `id` by `from` at time `now`.
    pub fn receive_ihave(&mut self, from: NodeId, id: BroadcastId, now: u64)
        requires
            old(self).wf(),
        ensures
            final(self).wf(),
            final(self).view() == spec_receive_ihave(old(self).view(), from, id, now),
    {
        match self.find(id) {
            Some(i) => {
                self.add_committed(i, from);
            },
            None => {
                let mut k: usize = 0;
                while k < self.pending.len()
                    invariant
                        k <= self.pending@.len(),
                        forall|q: int|
                            0 <= q < k ==> !(self.pending@[q].id == id && self.pending@[q].from == from),
                        self.wf(),
                        self == old(self),
                        !self.view().entries.contains_key(id),
                    decreases self.pending@.len() - k,
                {
                    if self.pending[k].id == id && self.pending[k].from == from {
                        return;
                    }
                    k = k + 1;
                }
                let deadline = if now > u64::MAX - self.timeout {
                    u64::MAX
                } else {
                    now + self.timeout
                };
                self.pending.push(Pending { id, from, deadline });
            },
        }
    }

    /// Handles a request by `from` for the payload of `id`.
    pub fn receive_graft(&mut self, from: NodeId, id: BroadcastId) -> (r: Vec<Envelope>)
        requires
            old(self).wf(),
        ensures
            final(self).wf(),
            (final(self).view(), r@) == spec_receive_graft(old(self).view(), from, id),
    {
        let mut out: Vec<Envelope> = Vec::new();
        if self.find(id).is_some() {
            self.membership.record_graft(from);
            out.push(Envelope { to: from, kind: Kind::Message, id });
            assert(out@ =~= seq![Envelope { to: from, kind: Kind::Message, id }]);
        }
        out
    }

    /// Handles a prune notice by `from` about `id`.
    pub fn receive_prune(&mut self, from: NodeId, id: BroadcastId)
        requires
            old(self).wf(),
        ensures
            final(self).wf(),
            final(self).view() == spec_receive_prune(old(self).view(), from, id),
    {
        match self.find(id) {
            Some(i) => {
                self.add_committed(i, from);
            },
            None => {},
        }
        self.membership.record_prune(from);
    }

    /// Grafts and asks every announcer whose deadline has come by `now`.
    pub fn tick(&mut self, now: u64) -> (r: Vec<Envelope>)
        requires
            old(self).wf(),
        ensures
            final(self).wf(),
            (final(self).view(), r@) == spec_tick(old(self).view(), now),
    {
        let ghost m0 = self.membership@;
        let mut out: Vec<Envelope> = Vec::new();
        let mut kept: Vec<Pending> = Vec::new();
        let mut i: usize = 0;
        while i < self.pending.len()
            invariant
                i <= self.pending@.len(),
                self.pending == old(self).pending,
                self.entries == old(self).entries,
                self.timeout == old(self).timeout,
                self.membership.wf(),
                self.membership@ == graft_all(m0, self.pending@.subrange(0, i as int).filter(expired(now))),
                out@ == self.pending@.subrange(0, i as int).filter(expired(now)).map_values(graft_for()),
                kept@ == self.pending@.subrange(0, i as int).filter(waiting(now)),
            decreases self.pending@.len() - i,
        {
            let p = self.pending[i];
            let ghost before = self.pending@.subrange(0, i as int);
            proof {
                assert(self.pending@.subrange(0, i as int + 1) =~= before.push(p));
                lemma_filter_push(before, p, expired(now));
                lemma_filter_push(before, p, waiting(now));
            }
            if p.deadline <= now {
                out.push(Envelope { to: p.from, kind: Kind::Graft, id: p.id });
                self.membership.record_graft(p.from);
                proof {
                    assert(before.filter(expired(now)).push(p).drop_last() =~= before.filter(expired(now)));
                }
                assert(out@ =~= before.filter(expired(now)).push(p).map_values(graft_for()));
            } else {
                kept.push(p);
            }
            i = i + 1;
        }
        assert(self.pending@.subrange(0, self.pending@.len() as int) =~= self.pending@);
        self.pending = kept;
        out
    }

    /// Forgets every broadcast committed `retention` or more time units
    /// before `now`.
    pub fn expire(&mut self, now: u64, retention: u64)
        requires
            old(self).wf(),
        ensures
            final(self).wf(),
            final(self).view() == spec_expire(old(self).view(), now, retention),
    {
        let ghost orig = self.entries@;
        let ghost keep = retained(now, retention);
        let n = self.entries.len();
        let mut rest: Vec<Entry> = Vec::new();
        core::mem::swap(&mut self.entries, &mut rest);
        let ghost views = orig.map_values(|e: Entry| e@);
        let mut k: usize = 0;
        while rest.len() > 0
            invariant
                k <= orig.len(),
                n == orig.len(),
                self.membership == old(self).membership,
                self.pending == old(self).pending,
                self.timeout == old(self).timeout,
                old(self).wf(),
                orig == old(self).entries@,
                rest@ == orig.subrange(k as int, orig.len() as int),
                self.entries@.map_values(|e: Entry| e@) == views.subrange(0, k as int).filter(keep),
                views == orig.map_values(|e: Entry| e@),
                keep == retained(now, retention),
            decreases rest@.len(),
        {
            let en = rest.remove(0);
            proof {
                assert(en == orig[k as int]);
                assert(views.subrange(0, k as int + 1) =~= views.subrange(0, k as int).push(en@));
                lemma_filter_push(views.subrange(0, k as int), en@, keep);
            }
            let ghost before = self.entries@;
            if (en.since as u128) + (retention as u128) > now as u128 {
                self.entries.push(en);
                assert(self.entries@.map_values(|e: Entry| e@) =~= before.map_values(|e: Entry| e@).push(en@));
            }
            k = k + 1;
            assert(rest@ =~= orig.subrange(k as int, orig.len() as int));
        }
        proof {
            assert(views.subrange(0, k as int) =~= views);
            lemma_entry_map_filter(views, keep, now, retention);
        }
    }

    /// First contact with peer `id`: it joins the eager set.
    pub fn add_peer(&mut self, id: NodeId)
        requires
            old(self).wf(),
        ensures
            final(self).wf(),
            final(self).view() == (EngineView {
                membership: spec_add_peer(old(self).view().membership, id),
                ..old(self).view()
            }),
    {
        self.membership.add_peer(id);
    }

    /// Peer `id` left or failed: it leaves both sets.
    pub fn remove_peer(&mut self, id: NodeId)
        requires
            old(self).wf(),
        ensures
            final(self).wf(),
            final(self).view() == (EngineView {
                membership: spec_remove_peer(old(self).view().membership, id),
                ..old(self).view()
            }),
    {
        self.membership.remove_peer(id);
    }
}

/// The engine and every message sent after each of `senders` in turn
/// delivers the payload of `b`.
pub open spec fn deliver_all(e: EngineView, b: BroadcastView, senders: Seq<NodeId>, now: u64) -> (
    EngineView,
    Seq<Envelope>,
)
    decreases senders.len(),
{
    if senders.len() == 0 {
        (e, Seq::empty())
    } else {
        let before = deliver_all(e, b, senders.drop_last(), now);
        let step = spec_receive_message(before.0, senders.last(), b, now);
        (step.0, before.1 + step.1)
    }
}

pub open spec fn is_message() -> spec_fn(Envelope) -> bool {
    |m: Envelope| m.kind == Kind::Message
}

proof fn lemma_filter_all<A>(s: Seq<A>, f: spec_fn(A) -> bool)
    requires
        forall|i: int| 0 <= i < s.len() ==> f(#[trigger] s[i]),
    ensures
        s.filter(f) == s,
    decreases s.len(),
{
    if s.len() > 0 {
        lemma_filter_all(s.drop_last(), f);
        lemma_filter_push(s.drop_last(), s.last(), f);
        assert(s.drop_last().push(s.last()) =~= s);
    }
}

proof fn lemma_filter_none<A>(s: Seq<A>, f: spec_fn(A) -> bool)
    requires
        forall|i: int| 0 <= i < s.len() ==> !f(#[trigger] s[i]),
    ensures
        s.filter(f) == Seq::<A>::empty(),
    decreases s.len(),
{
    if s.len() > 0 {
        lemma_filter_none(s.drop_last(), f);
        lemma_filter_push(s.drop_last(), s.last(), f);
        assert(s.drop_last().push(s.last()) =~= s);
    } else {
        assert(s =~= Seq::<A>::empty());
    }
}

proof fn lemma_deliver_all(e: EngineView, b: BroadcastView, senders: Seq<NodeId>, now: u64)
    requires
        !e.entries.contains_key(b.id),
        senders.len() >= 1,
    ensures
        deliver_all(e, b, senders, now).1 == spec_disseminate(e.membership, senders[0], b.id)
            + senders.drop_first().map_values(prune_to(b.id)),
        deliver_all(e, b, senders, now).0.entries.contains_key(b.id),
        deliver_all(e, b, senders, now).0.entries[b.id].broadcast == b,
        forall|k: int|
            1 <= k < senders.len() ==> (#[trigger] deliver_all(e, b, senders.take(k), now)).0.entries.contains_key(
                b.id,
            ),
    decreases senders.len(),
{
    let prunes = senders.drop_first().map_values(prune_to(b.id));
    let diss = spec_disseminate(e.membership, senders[0], b.id);
    if senders.len() == 1 {
        assert(senders.drop_last() =~= Seq::<NodeId>::empty());
        assert(deliver_all(e, b, senders.drop_last(), now) == (e, Seq::<Envelope>::empty()));
        assert(senders.last() == senders[0]);
        let step = spec_receive_message(e, senders[0], b, now);
        assert(step.1 == diss);
        assert(prunes =~= Seq::<Envelope>::empty());
        assert(Seq::<Envelope>::empty() + step.1 =~= diss + prunes);
    } else {
        let t = senders.drop_last();
        lemma_deliver_all(e, b, t, now);
        let before = deliver_all(e, b, t, now);
        let step = spec_receive_message(before.0, senders.last(), b, now);
        assert(before.0.entries.contains_key(b.id));
        assert(step.1 == seq![Envelope { to: senders.last(), kind: Kind::Prune, id: b.id }]);
        assert(step.0.entries.contains_key(b.id));
        assert(step.0.entries[b.id].broadcast == b);
        assert(t[0] == senders[0]);
        assert(senders.drop_first() =~= t.drop_first().push(senders.last()));
        assert(prunes =~= t.drop_first().map_values(prune_to(b.id)).push(
            Envelope { to: senders.last(), kind: Kind::Prune, id: b.id },
        ));
        assert(before.1 + step.1 =~= diss + prunes);
        assert forall|k: int| 1 <= k < senders.len() implies (#[trigger] deliver_all(e, b, senders.take(k), now)).0.entries.contains_key(b.id) by {
            if k < t.len() {
                assert(senders.take(k) =~= t.take(k));
            } else {
                assert(senders.take(k) =~= t);
            }
        }
    }
}

/// Delivering one broadcast again and again: the first delivery finds it
/// unseen and commits it; every later one finds it committed already. All
/// the messages sent are the first delivery's payload pushes and digests,
/// and one prune notice to the sender of each later copy. The payload
/// messages go to the eager peers other than the first sender, each of them
/// once, and never again.
pub proof fn lemma_dedup(e: EngineView, b: BroadcastView, senders: Seq<NodeId>, now: u64)
    requires
        wf_view(e.membership),
        !e.entries.contains_key(b.id),
        senders.len() >= 1,
    ensures
        forall|p: NodeId|
            #[trigger] without(e.membership.eager, senders[0]).contains(p) <==> (
            e.membership.eager.contains(p) && p != senders[0]),
        without(e.membership.eager, senders[0]).no_duplicates(),
        deliver_all(e, b, senders, now).1 == spec_disseminate(e.membership, senders[0], b.id)
            + senders.drop_first().map_values(prune_to(b.id)),
        deliver_all(e, b, senders, now).1.filter(is_message()) == without(
            e.membership.eager,
            senders[0],
        ).map_values(message_to(b.id)),
        deliver_all(e, b, senders, now).0.entries.contains_key(b.id),
        deliver_all(e, b, senders, now).0.entries[b.id].broadcast == b,
        forall|k: int|
            1 <= k < senders.len() ==> (#[trigger] deliver_all(e, b, senders.take(k), now)).0.entries.contains_key(
                b.id,
            ),
{
    lemma_without(e.membership.eager, senders[0]);
    lemma_deliver_all(e, b, senders, now);
    let pushes = without(e.membership.eager, senders[0]).map_values(message_to(b.id));
    let digests = without(e.membership.lazy, senders[0]).map_values(ihave_to(b.id));
    let prunes = senders.drop_first().map_values(prune_to(b.id));
    lemma_filter_all(pushes, is_message());
    lemma_filter_none(digests, is_message());
    lemma_filter_none(prunes, is_message());
    Seq::filter_distributes_over_add(pushes + digests, prunes, is_message());
    Seq::filter_distributes_over_add(pushes, digests, is_message());
    assert((pushes + digests + prunes).filter(is_message()) =~= pushes);
}

/// A copy of a committed broadcast is redundant: its sender gets a prune
/// notice and nothing else, and leaves the eager set for the lazy one.
pub proof fn lemma_prune_on_redundancy(e: EngineView, from: NodeId, b: BroadcastView, now: u64)
    requires
        e.entries.contains_key(b.id),
        wf_view(e.membership),
    ensures
        spec_receive_message(e, from, b, now).1 == seq![Envelope { to: from, kind: Kind::Prune, id: b.id }],
        spec_receive_message(e, from, b, now).0.membership == spec_prune(e.membership, from),
        !spec_receive_message(e, from, b, now).0.membership.eager.contains(from),
        e.membership.eager.contains(from) ==> spec_receive_message(e, from, b, now).0.membership.lazy.contains(from),
{
    lemma_without(e.membership.eager, from);
    lemma_push_contains(e.membership.lazy, from, from);
}

/// Every announcement whose deadline has come by `now` gets its announcer
/// a graft request at the sweep of `now`.
pub proof fn lemma_tick_grafts_due(e: EngineView, now: u64, i: int)
    requires
        0 <= i < e.pending.len(),
        e.pending[i].deadline <= now,
    ensures
        spec_tick(e, now).1.contains(
            Envelope { to: e.pending[i].from, kind: Kind::Graft, id: e.pending[i].id },
        ),
{
    let p = e.pending[i];
    e.pending.lemma_filter_contains(expired(now), i);
    let due = e.pending.filter(expired(now));
    let k = choose|k: int| 0 <= k < due.len() && due[k] == p;
    assert(due.map_values(graft_for())[k] == Envelope { to: p.from, kind: Kind::Graft, id: p.id });
}

/// Tree healing: after `from` announces a broadcast that is not held, a
/// record of `from`'s announcement waits, whoever announced it before, and
/// the first sweep at or after its deadline sends `from` a graft request.
/// A new record's deadline is the announcement's time plus the timeout.
pub proof fn lemma_announcer_grafted(e: EngineView, from: NodeId, id: BroadcastId, t0: u64, now: u64)
    requires
        !e.entries.contains_key(id),
    ensures
        exists|i: int|
            0 <= i < spec_receive_ihave(e, from, id, t0).pending.len() && (#[trigger] spec_receive_ihave(
                e,
                from,
                id,
                t0,
            ).pending[i]).id == id && spec_receive_ihave(e, from, id, t0).pending[i].from == from && (
            spec_receive_ihave(e, from, id, t0).pending[i].deadline <= now ==> spec_tick(
                spec_receive_ihave(e, from, id, t0),
                now,
            ).1.contains(Envelope { to: from, kind: Kind::Graft, id })),
        (forall|i: int|
            0 <= i < e.pending.len() ==> !((#[trigger] e.pending[i]).id == id && e.pending[i].from
                == from)) ==> spec_receive_ihave(e, from, id, t0).pending == e.pending.push(
            Pending {
                id,
                from,
                deadline: if t0 as int + e.timeout as int > u64::MAX as int {
                    u64::MAX
                } else {
                    (t0 + e.timeout) as u64
                },
            },
        ),
{
    let e1 = spec_receive_ihave(e, from, id, t0);
    if exists|i: int| 0 <= i < e.pending.len() && (#[trigger] e.pending[i]).id == id && e.pending[i].from == from {
        let i = choose|i: int| 0 <= i < e.pending.len() && (#[trigger] e.pending[i]).id == id && e.pending[i].from == from;
        if e1.pending[i].deadline <= now {
            lemma_tick_grafts_due(e1, now, i);
        }
    } else {
        let i = e.pending.len() as int;
        assert(e1.pending[i].id == id);
        if e1.pending[i].deadline <= now {
            lemma_tick_grafts_due(e1, now, i);
        }
    }
}

/// A payload that arrives in time cancels the wait: once `from` delivers a
/// broadcast that was not held, no sweep asks anyone for it until a new
/// announcement of it comes.
pub proof fn lemma_payload_cancels_graft(
    e: EngineView,
    from: NodeId,
    b: BroadcastView,
    t: u64,
    now: u64,
    to: NodeId,
)
    requires
        !e.entries.contains_key(b.id),
    ensures
        !spec_tick(spec_receive_message(e, from, b, t).0, now).1.contains(
            Envelope { to, kind: Kind::Graft, id: b.id },
        ),
{
    let e1 = spec_receive_message(e, from, b, t).0;
    let due = e1.pending.filter(expired(now));
    let outs = due.map_values(graft_for());
    if outs.contains(Envelope { to, kind: Kind::Graft, id: b.id }) {
        let k = choose|k: int|
            0 <= k < outs.len() && outs[k] == Envelope { to, kind: Kind::Graft, id: b.id };
        let p = due[k];
        assert(due.contains(p));
        e1.pending.lemma_filter_contains_rev(expired(now), p);
        let j = choose|j: int| 0 <= j < e1.pending.len() && e1.pending[j] == p;
        e.pending.lemma_filter_pred(not_for(b.id), j);
    }
}

} // verus!
