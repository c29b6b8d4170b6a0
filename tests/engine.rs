use gossip::engine::{Broadcast, BroadcastState, Engine, Envelope, Kind, Protocol};
use gossip::membership::Membership;
use gossip::node::State;
use gossip::health::HealthConfig;

const LOCAL: u128 = 1;
const A: u128 = 10;
const B: u128 = 11;
const C: u128 = 12;
const D: u128 = 13;

fn msg(to: u128, kind: Kind, id: u128) -> Envelope {
    Envelope { to, kind, id }
}

fn b1() -> Broadcast {
    Broadcast::with_id(100, "kv".to_string(), vec![1, 2, 3])
}

/// Eager {A, B}, lazy {C}.
fn engine_abc() -> Engine {
    let mut e = Engine::new(LOCAL, 50);
    e.add_peer(A);
    e.add_peer(B);
    e.add_peer(C);
    e.receive_prune(C, 999);
    assert_eq!(e.membership().eager(), &vec![A, B]);
    assert_eq!(e.membership().lazy(), &vec![C]);
    e
}

#[test]
fn simple_fan_out() {
    let mut e = engine_abc();
    let out = e.originate(b1(), 0);
    assert_eq!(out, vec![msg(A, Kind::Message, 100), msg(B, Kind::Message, 100), msg(C, Kind::IHave, 100)]);
    assert_eq!(e.state(100), BroadcastState::Committed);
    assert_eq!(e.committed(100), Some(&vec![]));
    assert_eq!(e.broadcast(100), Some(&b1()));
}

#[test]
fn tree_healing() {
    // The originating node: eager {A, B}, lazy {C}.
    let mut n = engine_abc();
    let out = n.originate(b1(), 0);
    assert!(out.contains(&msg(C, Kind::IHave, 100)));

    // C hears of b1 from the originator only by digest.
    let mut c = Engine::new(C, 50);
    c.add_peer(LOCAL);
    c.receive_prune(LOCAL, 999);
    c.receive_ihave(LOCAL, 100, 0);
    assert_eq!(c.state(100), BroadcastState::Unseen);
    assert_eq!(c.tick(49), vec![]);
    assert_eq!(c.tick(50), vec![msg(LOCAL, Kind::Graft, 100)]);
    assert!(c.membership().is_eager(LOCAL));
    assert!(!c.membership().is_lazy(LOCAL));
    assert_eq!(c.tick(1000), vec![]);

    // The originator gets the graft: C becomes eager and gets the payload.
    let out = n.receive_graft(C, 100);
    assert_eq!(out, vec![msg(C, Kind::Message, 100)]);
    assert!(n.membership().is_eager(C));
    assert!(!n.membership().is_lazy(C));

    // The payload reaches C, which forwards it to nobody else.
    let out = c.receive_message(LOCAL, b1(), 0);
    assert_eq!(out, vec![]);
    assert_eq!(c.state(100), BroadcastState::Committed);
    assert_eq!(c.pending().len(), 0);
}

#[test]
fn dedup_idempotence() {
    let mut e = Engine::new(LOCAL, 50);
    for p in [A, B, C, D] {
        e.add_peer(p);
    }
    let mut all = Vec::new();
    all.extend(e.receive_message(A, b1(), 0));
    all.extend(e.receive_message(B, b1(), 0));
    all.extend(e.receive_message(C, b1(), 0));
    all.extend(e.receive_message(A, b1(), 0));
    let pushes: Vec<&Envelope> = all.iter().filter(|m| m.kind == Kind::Message).collect();
    assert_eq!(pushes, vec![&msg(B, Kind::Message, 100), &msg(C, Kind::Message, 100), &msg(D, Kind::Message, 100)]);
    assert_eq!(e.len(), 1);
    assert_eq!(e.state(100), BroadcastState::Committed);
    assert_eq!(e.committed(100), Some(&vec![A, B, C]));
}

#[test]
fn prune_on_redundancy() {
    let mut e = engine_abc();
    e.originate(b1(), 0);
    let out = e.receive_message(B, b1(), 0);
    assert_eq!(out, vec![msg(B, Kind::Prune, 100)]);
    assert!(!e.membership().is_eager(B));
    assert!(e.membership().is_lazy(B));
    // A redundant copy from a lazy peer still gets a prune notice.
    let out = e.receive_message(C, b1(), 0);
    assert_eq!(out, vec![msg(C, Kind::Prune, 100)]);
    assert!(e.membership().is_lazy(C));
    assert_eq!(e.membership().eager(), &vec![A]);
}

#[test]
fn first_copy_skips_its_sender() {
    let mut e = engine_abc();
    let out = e.receive_message(A, b1(), 0);
    assert_eq!(out, vec![msg(B, Kind::Message, 100), msg(C, Kind::IHave, 100)]);
    assert_eq!(e.committed(100), Some(&vec![A]));
}

#[test]
fn originating_twice_sends_nothing() {
    let mut e = engine_abc();
    e.originate(b1(), 0);
    assert_eq!(e.originate(b1(), 0), vec![]);
    assert_eq!(e.len(), 1);
}

#[test]
fn digest_of_a_held_broadcast_records_its_sender() {
    let mut e = engine_abc();
    e.originate(b1(), 0);
    e.receive_ihave(C, 100, 7);
    e.receive_ihave(C, 100, 8);
    assert_eq!(e.committed(100), Some(&vec![C]));
    assert_eq!(e.pending().len(), 0);
}

#[test]
fn every_announcer_of_an_awaited_broadcast_is_recorded() {
    let mut e = engine_abc();
    e.receive_ihave(C, 100, 0);
    e.receive_ihave(A, 100, 10);
    e.receive_ihave(C, 100, 20);
    assert_eq!(e.pending().len(), 2);
    assert_eq!((e.pending()[0].from, e.pending()[0].deadline), (C, 50));
    assert_eq!((e.pending()[1].from, e.pending()[1].deadline), (A, 60));
    assert_eq!(e.tick(55), vec![msg(C, Kind::Graft, 100)]);
    assert_eq!(e.tick(60), vec![msg(A, Kind::Graft, 100)]);
    assert_eq!(e.pending().len(), 0);
}

#[test]
fn a_dead_first_announcer_does_not_stop_healing() {
    // M announces first and then never answers; L announces later.
    let mut c = Engine::new(C, 50);
    c.add_peer(A);
    c.add_peer(B);
    c.receive_prune(A, 999);
    c.receive_prune(B, 999);
    c.receive_ihave(A, 100, 0);
    assert_eq!(c.tick(50), vec![msg(A, Kind::Graft, 100)]);
    c.receive_ihave(B, 100, 70);
    assert_eq!(c.tick(119), vec![]);
    assert_eq!(c.tick(120), vec![msg(B, Kind::Graft, 100)]);
    assert!(c.membership().is_eager(B));
}

#[test]
fn deadline_saturates() {
    let mut e = Engine::new(LOCAL, 50);
    e.receive_ihave(C, 100, u64::MAX - 1);
    assert_eq!(e.pending()[0].deadline, u64::MAX);
}

#[test]
fn graft_for_unknown_broadcast_is_ignored() {
    let mut e = engine_abc();
    assert_eq!(e.receive_graft(C, 555), vec![]);
    assert!(e.membership().is_lazy(C));
}

#[test]
fn prune_for_unknown_broadcast_still_prunes() {
    let mut e = engine_abc();
    e.receive_prune(A, 555);
    assert_eq!(e.membership().eager(), &vec![B]);
    assert_eq!(e.membership().lazy(), &vec![C, A]);
    assert_eq!(e.state(555), BroadcastState::Unseen);
}

#[test]
fn remove_peer_leaves_both_sets() {
    let mut e = engine_abc();
    e.remove_peer(C);
    e.remove_peer(A);
    assert_eq!(e.membership().eager(), &vec![B]);
    assert_eq!(e.membership().lazy(), &Vec::<u128>::new());
}

#[test]
fn membership_operations() {
    let mut m = Membership::new(LOCAL);
    m.add_peer(LOCAL);
    m.add_peer(A);
    m.add_peer(A);
    m.add_peer(B);
    assert_eq!(m.eager(), &vec![A, B]);
    m.record_graft(A);
    assert_eq!(m.eager(), &vec![A, B]);
    m.record_prune(A);
    m.record_prune(A);
    assert_eq!(m.eager(), &vec![B]);
    assert_eq!(m.lazy(), &vec![A]);
    m.add_peer(A);
    assert_eq!(m.lazy(), &vec![A]);
    m.record_graft(A);
    assert_eq!(m.eager(), &vec![B, A]);
    assert_eq!(m.lazy(), &Vec::<u128>::new());
    m.record_prune(C);
    m.record_graft(C);
    assert_eq!(m.eager(), &vec![B, A]);
    m.remove_peer(B);
    assert_eq!(m.eager(), &vec![A]);
    assert_eq!(m.local(), LOCAL);
}

#[test]
fn sets_stay_disjoint_over_a_sequence() {
    let mut m = Membership::new(LOCAL);
    let ids = [A, B, C, D];
    for step in 0..200u32 {
        let id = ids[(step * 7 % 4) as usize];
        match step % 4 {
            0 => m.add_peer(id),
            1 => m.record_prune(id),
            2 => m.record_graft(id),
            _ => {
                if step % 3 == 0 {
                    m.remove_peer(id)
                } else {
                    m.add_peer(id)
                }
            }
        }
        for x in m.eager() {
            assert!(!m.lazy().contains(x));
        }
    }
}

#[test]
fn state_dispatches_protocol_messages() {
    let mut s = State::with_config(LOCAL, 50, HealthConfig { failure_threshold: 3, green_percent: 10 });
    s.add_peer(gossip::peer::Peer::new(A, "10.0.0.1", 5000));
    s.add_peer(gossip::peer::Peer::new(B, "10.0.0.2", 5000));
    let out = s.receive(A, Protocol::Message(b1()), 0);
    assert_eq!(out, vec![msg(B, Kind::Message, 100)]);
    let out = s.receive(B, Protocol::Graft(100), 0);
    assert_eq!(out, vec![msg(B, Kind::Message, 100)]);
    let out = s.receive(B, Protocol::Prune(100), 0);
    assert_eq!(out, vec![]);
    assert_eq!(s.lazy(), &vec![B]);
    let out = s.receive(A, Protocol::IHave(200), 5);
    assert_eq!(out, vec![]);
    assert_eq!(s.tick(55), vec![msg(A, Kind::Graft, 200)]);
    assert_eq!(s.broadcasts(), 1);
}

#[test]
fn fresh_broadcast_ids_are_version_4() {
    let b = Broadcast::new("t".to_string(), vec![]);
    assert_eq!((b.id() >> 76) & 0xF, 4);
    assert_eq!((b.id() >> 62) & 0x3, 2);
    let c = b.duplicate();
    assert_eq!(c, b);
}

#[test]
fn committed_broadcasts_expire_after_the_retention_window() {
    let mut e = engine_abc();
    e.originate(b1(), 100);
    e.originate(Broadcast::with_id(200, "kv".to_string(), vec![]), 150);
    e.expire(199, 100);
    assert_eq!(e.len(), 2);
    e.expire(200, 100);
    assert_eq!(e.state(100), BroadcastState::Unseen);
    assert_eq!(e.state(200), BroadcastState::Committed);
    assert_eq!(e.len(), 1);
    e.expire(u64::MAX, u64::MAX);
    assert_eq!(e.len(), 1);
    e.expire(250, 100);
    assert_eq!(e.len(), 0);
}

#[test]
fn redundant_copies_keep_the_commit_time() {
    let mut e = engine_abc();
    e.receive_message(A, b1(), 10);
    e.receive_message(B, b1(), 90);
    e.expire(110, 100);
    assert_eq!(e.state(100), BroadcastState::Unseen);
}
