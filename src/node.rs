//! The local member: its life cycle and the protocol state that it owns.
use vstd::prelude::*;
use crate::directory::{not_peer, spec_register, Directory};
use crate::engine::{
    spec_originate, spec_receive_graft, spec_receive_ihave, spec_receive_message,
    spec_expire, spec_receive_prune, spec_tick, Broadcast, BroadcastId, BroadcastState,
    BroadcastView, Engine,
    EngineView, Envelope, Protocol,
};
use crate::error::{Error, GossipError};
use crate::health::{
    health_of, spec_report_failure, spec_report_success, unreachable_count, Health, HealthConfig,
    HealthMonitor, PeerHealth,
};
use crate::membership::{known, spec_add_peer, spec_remove_peer, wf_view, NodeId};
use crate::peer::{random_id, Addr, Join, Peer, RANDOM_ID_BITS, RANDOM_ID_MASK};
use crate::codec::{
    decode, encode, encodable, lemma_round_trip, spec_decode, spec_encode, DecodeError, TaggedView,
};
use crate::wire::{from_tagged, lemma_frame_parses, lemma_join_frame_id, spec_tagged, to_tagged, Frame};

verus! {

/// Time that an announcement waits for its payload, by default.
pub const DEFAULT_GRAFT_TIMEOUT: u64 = 1000;

/// Failures in a row after which a peer counts as unreachable, by default.
pub const DEFAULT_FAILURE_THRESHOLD: u32 = 3;

/// Share of unreachable peers, in percent, that is still healthy, by default.
pub const DEFAULT_GREEN_PERCENT: u32 = 10;

/// Life cycle of a node.
#[derive(Clone, Copy, Debug, PartialEq, Eq, Structural)]
pub enum Status {
    Initializing,
    Running,
    ShuttingDown,
    Failing,
}

/// Commands to the node from its owner.
#[derive(Clone, Copy, Debug, PartialEq, Eq, Structural)]
pub enum ProcessMessage {
    Shutdown,
}

/// A member of the graph with the members that it forwards to.
#[derive(Clone, Debug, PartialEq, Eq)]
pub struct Vertex {
    pub peer: NodeId,
    pub edges: Vec<NodeId>,
}

/// A view of the communication graph, and whether its eager links form a
/// spanning tree. It is diagnostic only: dissemination never depends on it.
pub struct Graph {
    vertices: Vec<Vertex>,
    spanning: bool,
}

impl Graph {
    pub closed spec fn spec_len(&self) -> nat {
        self.vertices@.len()
    }

    pub closed spec fn spec_spanning(&self) -> bool {
        self.spanning
    }

    /// An empty graph, not known to be a spanning tree.
    pub fn new() -> (r: Graph)
        ensures
            r.spec_len() == 0,
            !r.spec_spanning(),
    {
        Graph { vertices: Vec::new(), spanning: false }
    }

    /// The number of vertices.
    pub fn len(&self) -> (r: usize)
        ensures
            r == self.spec_len(),
    {
        self.vertices.len()
    }

    /// Whether the eager links were last found to form a spanning tree.
    pub fn is_spanning(&self) -> (r: bool)
        ensures
            r == self.spec_spanning(),
    {
        self.spanning
    }
}

/// The engine after inbound message `msg` from `from` at time `now`, and the
/// messages it sends.
pub open spec fn spec_receive(e: EngineView, from: NodeId, msg: Protocol, now: u64) -> (
    EngineView,
    Seq<Envelope>,
) {
    match msg {
        Protocol::Message(b) => spec_receive_message(e, from, b@, now),
        Protocol::IHave(id) => (spec_receive_ihave(e, from, id, now), Seq::empty()),
        Protocol::Graft(id) => spec_receive_graft(e, from, id),
        Protocol::Prune(id) => (spec_receive_prune(e, from, id), Seq::empty()),
    }
}

/// Tag of the broadcasts that announce a new member.
pub const MEMBERSHIP_TAG: &'static str = "membership";

/// `b` announces that member `j` joined: its tag says so and its payload is
/// the frame of `j`'s join request.
pub open spec fn announces(b: BroadcastView, j: Join) -> bool {
    &&& b.tag == MEMBERSHIP_TAG@
    &&& spec_decode(b.payload) == Ok::<TaggedView, DecodeError>(spec_tagged(Frame::Join(j)))
}

/// How many random ids `announce_member` tries before it gives up.
pub const MAX_ID_DRAWS: u32 = 4;

/// The broadcast, with id `id`, that announces `j`.
pub open spec fn announcement(j: Join, id: BroadcastId) -> BroadcastView {
    BroadcastView {
        id,
        tag: MEMBERSHIP_TAG@,
        payload: spec_encode(spec_tagged(Frame::Join(j))),
    }
}

/// An announcement does announce its member.
pub proof fn lemma_announcement(j: Join, id: BroadcastId)
    requires
        encodable(spec_tagged(Frame::Join(j))),
    ensures
        announces(announcement(j, id), j),
{
    lemma_round_trip(spec_tagged(Frame::Join(j)));
}

/// No broadcast held has an id with the bits that random ids fix, so no
/// random draw can hit a held id.
pub open spec fn holds_no_random_id(e: EngineView) -> bool {
    forall|id: BroadcastId| #[trigger] e.entries.contains_key(id) ==> id & RANDOM_ID_MASK != RANDOM_ID_BITS
}

/// How announcing `j` at time `now` changes the engine `e0` into `e`,
/// sending `out`: an announcement under an id not held before is
/// originated, and is then held as it is; a request whose frame the codec
/// cannot carry, or a run of draws that only hit held ids, changes nothing.
/// When the frame can be carried and no held id looks random, no draw can
/// fail, and the announcement, under a random id, is made.
pub open spec fn announced(e0: EngineView, j: Join, now: u64, e: EngineView, out: Seq<Envelope>) -> bool {
    &&& {
        ||| exists|id: BroadcastId|
            {
                &&& encodable(spec_tagged(Frame::Join(j)))
                &&& !e0.entries.contains_key(id)
                &&& announces(announcement(j, id), j)
                &&& (e, out) == spec_originate(e0, announcement(j, id), now)
                &&& e.entries.contains_key(id)
                &&& #[trigger] e.entries[id].broadcast == announcement(j, id)
            }
        ||| (e == e0 && out.len() == 0)
    }
    &&& (encodable(spec_tagged(Frame::Join(j))) && holds_no_random_id(e0)) ==> exists|id: BroadcastId|
        id & RANDOM_ID_MASK == RANDOM_ID_BITS && #[trigger] spec_originate(e0, announcement(j, id), now)
            == (e, out)
}

/// `msg` is the first sighting of a broadcast announcing `j`, another node.
pub open spec fn joins_via(e: EngineView, msg: Protocol, j: Join) -> bool {
    &&& msg matches Protocol::Message(b)
    &&& !e.entries.contains_key(b.id)
    &&& announces(b@, j)
    &&& j.id != e.membership.local
}

/// How receiving `msg` changes the engine `e0` and address book `d0` into
/// `e` and `d`, sending `out`: as the engine handles it, and a member that
/// the message announces for the first time is added.
pub open spec fn receive_effect(
    e0: EngineView,
    d0: Seq<Peer>,
    from: NodeId,
    msg: Protocol,
    now: u64,
    e: EngineView,
    d: Seq<Peer>,
    out: Seq<Envelope>,
) -> bool {
    let step = spec_receive(e0, from, msg, now);
    &&& out == step.1
    &&& if exists|j: Join| joins_via(e0, msg, j) {
        exists|j: Join|
            joins_via(e0, msg, j) && e == (EngineView {
                membership: spec_add_peer(step.0.membership, j.id),
                ..step.0
            }) && d == spec_register(d0, Peer { id: j.id, addr: j.addr })
    } else {
        e == step.0 && d == d0
    }
}

/// The member that `b` announces, if it announces one.
fn announced_member(b: &Broadcast) -> (r: Option<Join>)
    ensures
        r matches Some(j) ==> announces(b@, j),
        r is None ==> forall|j: Join| !announces(b@, j),
{
    let tag = MEMBERSHIP_TAG.to_owned();
    if b.tag != tag {
        return None;
    }
    match decode(b.payload.as_slice()) {
        Ok(v) => {
            let ghost view = v@;
            match from_tagged(v) {
                Ok(Frame::Join(j)) => Some(j),
                Ok(Frame::Protocol(from, msg)) => {
                    proof {
                        assert forall|j: Join| !announces(b@, j) by {
                            assert(spec_tagged(Frame::Join(j)).bytes[0] == 0);
                            assert(spec_tagged(Frame::Protocol(from, msg)).bytes[0] != 0);
                        }
                    }
                    None
                },
                Err(_) => {
                    proof {
                        assert forall|j: Join| !announces(b@, j) by {
                            lemma_frame_parses(Frame::Join(j));
                        }
                    }
                    None
                },
            }
        },
        Err(_) => None,
    }
}

/// Everything the protocol task of a node owns: the broadcast engine with
/// its peer sets, the address book and the health monitor.
pub struct State {
    engine: Engine,
    directory: Directory,
    monitor: HealthMonitor,
}

impl State {
    pub closed spec fn engine_view(&self) -> EngineView {
        self.engine.view()
    }

    pub closed spec fn directory_view(&self) -> Seq<Peer> {
        self.directory@
    }

    pub closed spec fn health_view(&self) -> Seq<PeerHealth> {
        self.monitor@
    }

    pub closed spec fn health_config(&self) -> HealthConfig {
        self.monitor.spec_config()
    }

    pub closed spec fn wf(&self) -> bool {
        self.engine.wf()
    }

    /// A well-formed state's peer sets list each peer once, share no peer,
    /// and hold neither the local node.
    pub proof fn lemma_wf(&self)
        ensures
            self.wf() ==> wf_view(self.engine_view().membership),
    {
        self.engine.lemma_wf();
    }

    /// A state for node `local` with no peers and no broadcasts.
    pub fn with_config(local: NodeId, graft_timeout: u64, health: HealthConfig) -> (r: State)
        ensures
            r.wf(),
            r.engine_view().membership.local == local,
            r.engine_view().membership.eager.len() == 0,
            r.engine_view().membership.lazy.len() == 0,
            r.engine_view().entries.len() == 0,
            r.engine_view().pending.len() == 0,
            r.engine_view().timeout == graft_timeout,
            r.directory_view().len() == 0,
            r.health_view().len() == 0,
            r.health_config() == health,
    {
        State {
            engine: Engine::new(local, graft_timeout),
            directory: Directory::new(),
            monitor: HealthMonitor::new(health),
        }
    }

    /// A state for a node with a fresh random id and the default settings.
    pub fn new() -> (r: State)
        ensures
            r.wf(),
            r.engine_view().membership.local & RANDOM_ID_MASK == RANDOM_ID_BITS,
            r.engine_view().membership.eager.len() == 0,
            r.engine_view().membership.lazy.len() == 0,
            r.engine_view().entries.len() == 0,
            r.engine_view().pending.len() == 0,
            r.engine_view().timeout == DEFAULT_GRAFT_TIMEOUT,
            r.directory_view().len() == 0,
            r.health_view().len() == 0,
            r.health_config() == (HealthConfig {
                failure_threshold: DEFAULT_FAILURE_THRESHOLD,
                green_percent: DEFAULT_GREEN_PERCENT,
            }),
    {
        State::with_config(
            random_id(),
            DEFAULT_GRAFT_TIMEOUT,
            HealthConfig {
                failure_threshold: DEFAULT_FAILURE_THRESHOLD,
                green_percent: DEFAULT_GREEN_PERCENT,
            },
        )
    }

    /// The local node's id.
    pub fn local(&self) -> (r: NodeId)
        ensures
            r == self.engine_view().membership.local,
    {
        self.engine.membership().local()
    }

    /// The eager peers.
    pub fn eager(&self) -> (r: &Vec<NodeId>)
        ensures
            r@ == self.engine_view().membership.eager,
    {
        self.engine.membership().eager()
    }

    /// The lazy peers.
    pub fn lazy(&self) -> (r: &Vec<NodeId>)
        ensures
            r@ == self.engine_view().membership.lazy,
    {
        self.engine.membership().lazy()
    }

    /// The number of broadcasts held.
    pub fn broadcasts(&self) -> (r: usize)
        requires
            self.wf(),
        ensures
            r == self.engine_view().entries.len(),
    {
        self.engine.len()
    }

    /// The broadcast engine.
    pub fn engine(&self) -> (r: &Engine)
        ensures
            r.view() == self.engine_view(),
            self.wf() ==> r.wf(),
    {
        &self.engine
    }

    /// The address book.
    pub fn directory(&self) -> (r: &Directory)
        ensures
            r@ == self.directory_view(),
    {
        &self.directory
    }

    /// The health of the cluster now.
    pub fn health(&self) -> (r: Health)
        ensures
            r == health_of(
                unreachable_count(self.health_view(), self.health_config().failure_threshold),
                self.health_view().len(),
                self.health_config().green_percent,
            ),
    {
        self.monitor.current()
    }

    /// First contact with `p`: it is recorded in the address book and joins
    /// the eager set.
    pub fn add_peer(&mut self, p: Peer)
        requires
            old(self).wf(),
        ensures
            final(self).wf(),
            final(self).engine_view() == (EngineView {
                membership: spec_add_peer(old(self).engine_view().membership, p.id),
                ..old(self).engine_view()
            }),
            final(self).directory_view() == spec_register(old(self).directory_view(), p),
            final(self).health_view() == old(self).health_view(),
            final(self).health_config() == old(self).health_config(),
    {
        let id = p.id;
        self.directory.register(p);
        self.engine.add_peer(id);
    }

    /// Peer `id` left or failed: it leaves the peer sets and the address
    /// book.
    pub fn remove_peer(&mut self, id: NodeId)
        requires
            old(self).wf(),
        ensures
            final(self).wf(),
            final(self).engine_view() == (EngineView {
                membership: spec_remove_peer(old(self).engine_view().membership, id),
                ..old(self).engine_view()
            }),
            final(self).directory_view() == old(self).directory_view().filter(not_peer(id)),
            final(self).health_view() == old(self).health_view(),
            final(self).health_config() == old(self).health_config(),
    {
        self.directory.remove(id);
        self.engine.remove_peer(id);
    }

    /// Originates `b` at the local node at time `now`.
    pub fn originate(&mut self, b: Broadcast, now: u64) -> (r: Vec<Envelope>)
        requires
            old(self).wf(),
        ensures
            final(self).wf(),
            (final(self).engine_view(), r@) == spec_originate(old(self).engine_view(), b@, now),
            final(self).directory_view() == old(self).directory_view(),
            final(self).health_view() == old(self).health_view(),
            final(self).health_config() == old(self).health_config(),
    {
        self.engine.originate(b, now)
    }

    /// Forgets every broadcast committed `retention` or more time units
    /// before `now`.
    pub fn expire(&mut self, now: u64, retention: u64)
        requires
            old(self).wf(),
        ensures
            final(self).wf(),
            final(self).engine_view() == spec_expire(old(self).engine_view(), now, retention),
            final(self).directory_view() == old(self).directory_view(),
            final(self).health_view() == old(self).health_view(),
            final(self).health_config() == old(self).health_config(),
    {
        self.engine.expire(now, retention)
    }

    /// Handles message `msg` from `from` at time `now`. The first sighting
    /// of a broadcast that announces a new member also adds that member.
    pub fn receive(&mut self, from: NodeId, msg: Protocol, now: u64) -> (r: Vec<Envelope>)
        requires
            old(self).wf(),
        ensures
            final(self).wf(),
            receive_effect(
                old(self).engine_view(),
                old(self).directory_view(),
                from,
                msg,
                now,
                final(self).engine_view(),
                final(self).directory_view(),
                r@,
            ),
            final(self).health_view() == old(self).health_view(),
            final(self).health_config() == old(self).health_config(),
    {
        let ghost e0 = self.engine_view();
        let ghost d0 = self.directory_view();
        let announced = match &msg {
            Protocol::Message(b) => {
                if self.engine.state(b.id) == BroadcastState::Unseen {
                    announced_member(b)
                } else {
                    None
                }
            },
            _ => None,
        };
        let out = match msg {
            Protocol::Message(b) => self.engine.receive_message(from, b, now),
            Protocol::IHave(id) => {
                self.engine.receive_ihave(from, id, now);
                Vec::new()
            },
            Protocol::Graft(id) => self.engine.receive_graft(from, id),
            Protocol::Prune(id) => {
                self.engine.receive_prune(from, id);
                Vec::new()
            },
        };
        let ghost step = spec_receive(e0, from, msg, now);
        assert(self.engine_view() == step.0 && out@ == step.1);
        assert(self.directory_view() == d0);
        match announced {
            Some(j) => {
                if j.id != self.engine.membership().local() {
                    let p = j.peer();
                    assert(p == Peer { id: j.id, addr: j.addr });
                    self.add_peer(p);
                    assert(joins_via(e0, msg, j));
                } else {
                    proof {
                        assert forall|j2: Join| !joins_via(e0, msg, j2) by {
                            if joins_via(e0, msg, j2) {
                                lemma_join_frame_id(j, j2);
                            }
                        }
                    }
                }
            },
            None => {},
        }
        out
    }

    /// Broadcasts that `j` joined, at time `now`, under broadcast id `id`:
    /// the broadcast `announcement(j, id)`. A request whose frame the codec
    /// cannot carry is not announced.
    pub fn announce_member_with_id(&mut self, j: &Join, id: BroadcastId, now: u64) -> (r: Vec<Envelope>)
        requires
            old(self).wf(),
        ensures
            final(self).wf(),
            encodable(spec_tagged(Frame::Join(*j))) ==> (final(self).engine_view(), r@)
                == spec_originate(old(self).engine_view(), announcement(*j, id), now),
            !encodable(spec_tagged(Frame::Join(*j))) ==> final(self).engine_view()
                == old(self).engine_view() && r@.len() == 0,
            final(self).directory_view() == old(self).directory_view(),
            final(self).health_view() == old(self).health_view(),
            final(self).health_config() == old(self).health_config(),
    {
        let frame = to_tagged(&Frame::Join(j.duplicate()));
        if !frame.is_encodable() {
            return Vec::new();
        }
        let bytes = encode(&frame);
        let b = Broadcast::with_id(id, MEMBERSHIP_TAG.to_owned(), bytes);
        assert(b@ == announcement(*j, id));
        self.engine.originate(b, now)
    }

    /// Broadcasts that `j` joined, at time `now`, under a fresh random id
    /// that this node does not hold yet. Should `MAX_ID_DRAWS` draws all hit
    /// held ids, nothing is announced.
    pub fn announce_member(&mut self, j: &Join, now: u64) -> (r: Vec<Envelope>)
        requires
            old(self).wf(),
        ensures
            final(self).wf(),
            announced(old(self).engine_view(), *j, now, final(self).engine_view(), r@),
            final(self).directory_view() == old(self).directory_view(),
            final(self).health_view() == old(self).health_view(),
            final(self).health_config() == old(self).health_config(),
    {
        let mut draws: u32 = 0;
        while draws < MAX_ID_DRAWS
            invariant
                self.wf(),
                self == old(self),
                (encodable(spec_tagged(Frame::Join(*j))) && holds_no_random_id(old(self).engine_view()))
                    ==> draws == 0,
            decreases MAX_ID_DRAWS - draws,
        {
            let id = random_id();
            if self.engine.state(id) != BroadcastState::Unseen {
                assert(self.engine_view().entries.contains_key(id));
                assert(old(self).engine_view().entries.contains_key(id));
            }
            if self.engine.state(id) == BroadcastState::Unseen {
                let ghost e0 = self.engine_view();
                let r = self.announce_member_with_id(j, id, now);
                proof {
                    if encodable(spec_tagged(Frame::Join(*j))) {
                        lemma_announcement(*j, id);
                        assert(!e0.entries.contains_key(id));
                        assert(self.engine_view().entries.contains_key(id));
                        assert(self.engine_view().entries[id].broadcast == announcement(*j, id));
                    }
                }
                return r;
            }
            draws = draws + 1;
        }
        Vec::new()
    }

    /// Grafts and asks every announcer whose deadline has come by `now`.
    pub fn tick(&mut self, now: u64) -> (r: Vec<Envelope>)
        requires
            old(self).wf(),
        ensures
            final(self).wf(),
            (final(self).engine_view(), r@) == spec_tick(old(self).engine_view(), now),
            final(self).directory_view() == old(self).directory_view(),
            final(self).health_view() == old(self).health_view(),
            final(self).health_config() == old(self).health_config(),
    {
        self.engine.tick(now)
    }

    /// An exchange with `id` succeeded.
    pub fn report_success(&mut self, id: NodeId)
        requires
            old(self).wf(),
        ensures
            final(self).wf(),
            final(self).engine_view() == old(self).engine_view(),
            final(self).directory_view() == old(self).directory_view(),
            final(self).health_view() == spec_report_success(old(self).health_view(), id),
            final(self).health_config() == old(self).health_config(),
    {
        self.monitor.report_success(id);
    }

    /// An exchange with `id` failed.
    pub fn report_failure(&mut self, id: NodeId)
        requires
            old(self).wf(),
        ensures
            final(self).wf(),
            final(self).engine_view() == old(self).engine_view(),
            final(self).directory_view() == old(self).directory_view(),
            final(self).health_view() == spec_report_failure(old(self).health_view(), id),
            final(self).health_config() == old(self).health_config(),
    {
        self.monitor.report_failure(id);
    }
}

/// A member of the cluster: its id, where it listens, its life cycle and
/// its protocol state.
pub struct Node {
    addr: Option<Addr>,
    status: Status,
    state: State,
}

impl Node {
    pub closed spec fn spec_addr(&self) -> Option<Addr> {
        self.addr
    }

    pub closed spec fn spec_status(&self) -> Status {
        self.status
    }

    pub closed spec fn spec_state(&self) -> &State {
        &self.state
    }

    pub closed spec fn wf(&self) -> bool {
        self.state.wf()
    }

    /// A well-formed node's peer sets list each peer once, share no peer,
    /// and hold neither the node itself.
    pub proof fn lemma_wf(&self)
        ensures
            self.wf() ==> wf_view(self.spec_state().engine_view().membership),
    {
        self.state.lemma_wf();
    }

    /// A node with a fresh random id that listens nowhere yet and knows no
    /// member.
    pub fn new() -> (r: Node)
        ensures
            r.wf(),
            r.spec_addr() is None,
            r.spec_status() == Status::Initializing,
            r.spec_state().engine_view().membership.local & RANDOM_ID_MASK == RANDOM_ID_BITS,
            r.spec_state().directory_view().len() == 0,
            r.spec_state().engine_view().membership.eager.len() == 0,
            r.spec_state().engine_view().membership.lazy.len() == 0,
            r.spec_state().engine_view().entries.len() == 0,
    {
        Node { addr: None, status: Status::Initializing, state: State::new() }
    }

    /// The node's id.
    pub fn id(&self) -> (r: NodeId)
        ensures
            r == self.spec_state().engine_view().membership.local,
    {
        self.state.local()
    }

    /// Where the node listens, once it does.
    pub fn addr(&self) -> (r: &Option<Addr>)
        ensures
            *r == self.spec_addr(),
    {
        &self.addr
    }

    pub fn status(&self) -> (r: Status)
        ensures
            r == self.spec_status(),
    {
        self.status
    }

    /// The members that the node knows.
    pub fn members(&self) -> (r: &Directory)
        ensures
            r@ == self.spec_state().directory_view(),
    {
        self.state.directory()
    }

    /// The protocol state.
    pub fn state(&self) -> (r: &State)
        ensures
            r == self.spec_state(),
    {
        &self.state
    }

    /// Records that the node listens at `host`:`port`; it is then running.
    pub fn listen(&mut self, host: &str, port: u16)
        ensures
            final(self).spec_addr() matches Some(a) && a.ip@ == host@ && a.port == port,
            final(self).spec_status() == Status::Running,
            final(self).spec_state() == old(self).spec_state(),
    {
        self.addr = Some(Addr::new(host, port));
        self.status = Status::Running;
    }

    /// The request that this node sends to a member in order to join its
    /// cluster; a node that does not listen yet cannot join.
    pub fn join(&self) -> (r: Result<Join, GossipError>)
        ensures
            self.spec_addr() is None <==> r is Err,
            r matches Err(e) ==> e.error == Error::NotListening,
            r matches Ok(j) ==> j.id == self.spec_state().engine_view().membership.local
                && Some(j.addr) == self.spec_addr(),
    {
        match &self.addr {
            Some(a) => Ok(Join::new(self.state.local(), a.duplicate())),
            None => Err(GossipError::new("the node does not listen yet", Error::NotListening)),
        }
    }

    /// Handles the join request of a member: one that this node did not
    /// know yet is recorded and joins the eager set, and the result is
    /// `true`; such a member does not know this node yet either, and should
    /// get this node's own join request in turn.
    pub fn accept_join(&mut self, j: &Join) -> (r: bool)
        requires
            old(self).wf(),
        ensures
            final(self).wf(),
            r == !(j.id == old(self).spec_state().engine_view().membership.local || known(
                old(self).spec_state().engine_view().membership,
                j.id,
            )),
            final(self).spec_state().engine_view() == (EngineView {
                membership: spec_add_peer(old(self).spec_state().engine_view().membership, j.id),
                ..old(self).spec_state().engine_view()
            }),
            final(self).spec_state().directory_view() == spec_register(
                old(self).spec_state().directory_view(),
                Peer { id: j.id, addr: j.addr },
            ),
            final(self).spec_addr() == old(self).spec_addr(),
            final(self).spec_status() == old(self).spec_status(),
    {
        let membership = self.state.engine().membership();
        let new_member = !(j.id == membership.local() || membership.is_eager(j.id)
            || membership.is_lazy(j.id));
        let p = j.peer();
        assert(p == Peer { id: j.id, addr: j.addr });
        self.state.add_peer(p);
        new_member
    }

    /// Originates `b` at this node at time `now`.
    pub fn originate(&mut self, b: Broadcast, now: u64) -> (r: Vec<Envelope>)
        requires
            old(self).wf(),
        ensures
            final(self).wf(),
            (final(self).spec_state().engine_view(), r@) == spec_originate(
                old(self).spec_state().engine_view(),
                b@,
                now,
            ),
            final(self).spec_addr() == old(self).spec_addr(),
            final(self).spec_status() == old(self).spec_status(),
    {
        self.state.originate(b, now)
    }

    /// Forgets every broadcast committed `retention` or more time units
    /// before `now`.
    pub fn expire(&mut self, now: u64, retention: u64)
        requires
            old(self).wf(),
        ensures
            final(self).wf(),
            final(self).spec_state().engine_view() == spec_expire(
                old(self).spec_state().engine_view(),
                now,
                retention,
            ),
            final(self).spec_addr() == old(self).spec_addr(),
            final(self).spec_status() == old(self).spec_status(),
    {
        self.state.expire(now, retention)
    }

    /// Handles message `msg` from `from` at time `now`.
    pub fn receive(&mut self, from: NodeId, msg: Protocol, now: u64) -> (r: Vec<Envelope>)
        requires
            old(self).wf(),
        ensures
            final(self).wf(),
            receive_effect(
                old(self).spec_state().engine_view(),
                old(self).spec_state().directory_view(),
                from,
                msg,
                now,
                final(self).spec_state().engine_view(),
                final(self).spec_state().directory_view(),
                r@,
            ),
            final(self).spec_addr() == old(self).spec_addr(),
            final(self).spec_status() == old(self).spec_status(),
    {
        self.state.receive(from, msg, now)
    }

    /// Member `id` left or failed: it leaves the peer sets and the address
    /// book.
    pub fn remove_peer(&mut self, id: NodeId)
        requires
            old(self).wf(),
        ensures
            final(self).wf(),
            final(self).spec_state().engine_view() == (EngineView {
                membership: spec_remove_peer(old(self).spec_state().engine_view().membership, id),
                ..old(self).spec_state().engine_view()
            }),
            final(self).spec_state().directory_view() == old(self).spec_state().directory_view().filter(
                not_peer(id),
            ),
            final(self).spec_state().health_view() == old(self).spec_state().health_view(),
            final(self).spec_state().health_config() == old(self).spec_state().health_config(),
            final(self).spec_addr() == old(self).spec_addr(),
            final(self).spec_status() == old(self).spec_status(),
    {
        self.state.remove_peer(id);
    }

    /// Broadcasts that `j` joined, at time `now`, under a fresh random id.
    pub fn announce_member(&mut self, j: &Join, now: u64) -> (r: Vec<Envelope>)
        requires
            old(self).wf(),
        ensures
            final(self).wf(),
            announced(
                old(self).spec_state().engine_view(),
                *j,
                now,
                final(self).spec_state().engine_view(),
                r@,
            ),
            final(self).spec_state().directory_view() == old(self).spec_state().directory_view(),
            final(self).spec_addr() == old(self).spec_addr(),
            final(self).spec_status() == old(self).spec_status(),
    {
        self.state.announce_member(j, now)
    }

    /// Handles the join request of a member. A member that this node did
    /// not know yet is recorded, joins the eager set and is announced to the
    /// cluster; it is also owed this node's own join request, which is the
    /// first result when this node listens. A member already known changes
    /// nothing.
    pub fn welcome(&mut self, j: &Join, now: u64) -> (r: (Option<Join>, Vec<Envelope>))
        requires
            old(self).wf(),
        ensures
            final(self).wf(),
            ({
                let e0 = old(self).spec_state().engine_view();
                let new_member = !(j.id == e0.membership.local || known(e0.membership, j.id));
                let added = EngineView { membership: spec_add_peer(e0.membership, j.id), ..e0 };
                &&& new_member ==> announced(
                    added,
                    *j,
                    now,
                    final(self).spec_state().engine_view(),
                    r.1@,
                )
                &&& !new_member ==> final(self).spec_state().engine_view() == e0 && r.1@.len() == 0
                &&& (r.0 is Some <==> new_member && old(self).spec_addr() is Some)
                &&& r.0 matches Some(k) ==> k.id == e0.membership.local && Some(k.addr)
                    == old(self).spec_addr()
            }),
            final(self).spec_state().directory_view() == spec_register(
                old(self).spec_state().directory_view(),
                Peer { id: j.id, addr: j.addr },
            ),
            final(self).spec_addr() == old(self).spec_addr(),
            final(self).spec_status() == old(self).spec_status(),
    {
        let ghost e0 = self.state.engine_view();
        if !self.accept_join(j) {
            assert(spec_add_peer(e0.membership, j.id) == e0.membership);
            return (None, Vec::new());
        }
        let reply = match self.join() {
            Ok(k) => Some(k),
            Err(_) => None,
        };
        let out = self.state.announce_member(j, now);
        (reply, out)
    }

    /// Grafts and asks every announcer whose deadline has come by `now`.
    pub fn tick(&mut self, now: u64) -> (r: Vec<Envelope>)
        requires
            old(self).wf(),
        ensures
            final(self).wf(),
            (final(self).spec_state().engine_view(), r@) == spec_tick(
                old(self).spec_state().engine_view(),
                now,
            ),
            final(self).spec_addr() == old(self).spec_addr(),
            final(self).spec_status() == old(self).spec_status(),
    {
        self.state.tick(now)
    }

    /// An exchange with `id` succeeded.
    pub fn report_success(&mut self, id: NodeId)
        requires
            old(self).wf(),
        ensures
            final(self).wf(),
            final(self).spec_state().engine_view() == old(self).spec_state().engine_view(),
            final(self).spec_state().directory_view() == old(self).spec_state().directory_view(),
            final(self).spec_state().health_view() == spec_report_success(
                old(self).spec_state().health_view(),
                id,
            ),
            final(self).spec_addr() == old(self).spec_addr(),
            final(self).spec_status() == old(self).spec_status(),
    {
        self.state.report_success(id);
    }

    /// An exchange with `id` failed.
    pub fn report_failure(&mut self, id: NodeId)
        requires
            old(self).wf(),
        ensures
            final(self).wf(),
            final(self).spec_state().engine_view() == old(self).spec_state().engine_view(),
            final(self).spec_state().directory_view() == old(self).spec_state().directory_view(),
            final(self).spec_state().health_view() == spec_report_failure(
                old(self).spec_state().health_view(),
                id,
            ),
            final(self).spec_addr() == old(self).spec_addr(),
            final(self).spec_status() == old(self).spec_status(),
    {
        self.state.report_failure(id);
    }

    /// The node stops: it is shutting down from now on.
    pub fn shutdown(&mut self)
        ensures
            final(self).spec_status() == Status::ShuttingDown,
            final(self).spec_addr() == old(self).spec_addr(),
            final(self).spec_state() == old(self).spec_state(),
    {
        self.status = Status::ShuttingDown;
    }

    /// Carries out a command of the node's owner.
    pub fn process(&mut self, msg: ProcessMessage)
        ensures
            msg == ProcessMessage::Shutdown ==> final(self).spec_status() == Status::ShuttingDown,
            final(self).spec_addr() == old(self).spec_addr(),
            final(self).spec_state() == old(self).spec_state(),
    {
        match msg {
            ProcessMessage::Shutdown => self.shutdown(),
        }
    }
}

} // verus!
