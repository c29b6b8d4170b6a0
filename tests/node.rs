use gossip::directory::Directory;
use gossip::error::Error;
use gossip::health::{Health, HealthConfig, HealthMonitor};
use gossip::net::{fast, flaky, slow};
use gossip::engine::{Kind, Protocol};
use gossip::node::{Graph, Node, ProcessMessage, State, Status};
use gossip::peer::{Addr, Join, Peer};
use gossip::transport::{AcceptingManager, AcceptingMsg};

#[test]
fn state_default_state() {
    let s = State::new();
    assert_eq!(s.eager().len(), 0);
    assert_eq!(s.lazy().len(), 0);
    assert_eq!(s.broadcasts(), 0);
    assert_eq!(s.health(), Health::Yellow);
}

#[test]
fn server_default_state() {
    let s = State::new();
    assert_eq!(s.eager().len(), 0);
    assert_eq!(s.lazy().len(), 0);
    assert_eq!(s.broadcasts(), 0);
    assert_eq!(s.health(), Health::Yellow);
}

#[test]
fn graph_default_graph() {
    let g = Graph::new();
    assert_eq!(g.is_spanning(), false);
    assert_eq!(g.len(), 0);
}

#[test]
fn server_default_graph() {
    let g = Graph::new();
    assert_eq!(g.is_spanning(), false);
    assert_eq!(g.len(), 0);
}

#[test]
fn node_empty_member_set() {
    let node = Node::new();
    assert_eq!(node.members().len(), 0);
}

#[test]
fn protocol_empty_member_set() {
    let node = Node::new();
    assert_eq!(node.members().len(), 0);
}

#[test]
fn node_life_cycle() {
    let mut node = Node::new();
    assert_eq!(node.status(), Status::Initializing);
    assert!(node.addr().is_none());
    assert_eq!(node.join().unwrap_err().error, Error::NotListening);
    node.listen("0.0.0.0", 5666);
    assert_eq!(node.status(), Status::Running);
    assert_eq!(node.addr(), &Some(Addr::new("0.0.0.0", 5666)));
    let j = node.join().unwrap();
    assert_eq!(j.id, node.id());
    assert_eq!(j.addr.ip.as_str(), "0.0.0.0");
    assert_eq!(j.addr.port, 5666);
    node.process(ProcessMessage::Shutdown);
    assert_eq!(node.status(), Status::ShuttingDown);
}

#[test]
fn accepting_a_join_adds_an_eager_member() {
    let mut node = Node::new();
    let j = Join::new(42, Addr::new("10.1.1.1", 7000));
    assert!(node.accept_join(&j));
    assert!(!node.accept_join(&j));
    assert_eq!(node.members().len(), 1);
    assert_eq!(node.state().eager(), &vec![42u128]);
    let p = node.members().lookup(42).unwrap();
    assert_eq!(p.addr.ip.as_str(), "10.1.1.1");
}

#[test]
fn peers_are_equal_by_id() {
    let a = Peer::new(7, "host-a", 1);
    let b = Peer::new(7, "host-b", 2);
    let c = Peer::new(8, "host-a", 1);
    assert!(a == b);
    assert!(a != c);
    let e = Peer::empty();
    assert_eq!(e.addr.ip.as_str(), "localhost");
    assert_eq!(e.addr.port, 3444);
    assert_eq!((e.id >> 76) & 0xF, 4);
}

#[test]
fn directory_register_lookup_remove() {
    let mut d = Directory::new();
    d.register(Peer::new(1, "a", 1));
    d.register(Peer::new(2, "b", 2));
    d.register(Peer::new(1, "c", 3));
    assert_eq!(d.len(), 2);
    let p = d.lookup(1).unwrap();
    assert_eq!(p.addr.ip.as_str(), "c");
    assert_eq!(p.addr.port, 3);
    let all = d.all();
    assert_eq!(all.iter().map(|p| p.id).collect::<Vec<_>>(), vec![1, 2]);
    d.remove(1);
    assert!(d.lookup(1).is_none());
    assert_eq!(d.len(), 1);
    d.remove(9);
    assert_eq!(d.len(), 1);
}

#[test]
fn health_with_no_peers_is_yellow() {
    let m = HealthMonitor::new(HealthConfig { failure_threshold: 2, green_percent: 10 });
    assert_eq!(m.current(), Health::Yellow);
}

#[test]
fn health_follows_unreachable_share() {
    let mut m = HealthMonitor::new(HealthConfig { failure_threshold: 2, green_percent: 10 });
    for id in 0..10u128 {
        m.report_success(id);
    }
    assert_eq!(m.current(), Health::Green);
    m.report_failure(0);
    assert_eq!(m.unreachable(), 0);
    m.report_failure(0);
    assert_eq!(m.unreachable(), 1);
    assert_eq!(m.current(), Health::Green);
    m.report_failure(1);
    m.report_failure(1);
    assert_eq!(m.current(), Health::Yellow);
    for id in 2..6u128 {
        m.report_failure(id);
        m.report_failure(id);
    }
    assert_eq!(m.unreachable(), 6);
    assert_eq!(m.current(), Health::Red);
    m.report_success(0);
    assert_eq!(m.failures(0), 0);
    assert_eq!(m.current(), Health::Yellow);
    assert!(Health::Green.severity() < Health::Yellow.severity());
    assert!(Health::Yellow.severity() < Health::Red.severity());
}

#[test]
fn state_reports_health() {
    let mut s = State::new();
    s.report_failure(5);
    s.report_failure(5);
    assert_eq!(s.health(), Health::Green);
    s.report_failure(5);
    assert_eq!(s.health(), Health::Red);
    s.report_success(5);
    assert_eq!(s.health(), Health::Green);
}

#[test]
fn network_condition_arguments() {
    assert_eq!(
        slow(),
        vec!["qdisc", "add", "dev", "eth0", "root", "netem", "delay", "50ms", "10ms", "distribution", "normal"]
    );
    assert_eq!(flaky(), vec!["qdisc", "add", "dev", "eth0", "root", "netem", "loss", "20%", "75%"]);
    assert_eq!(fast(), vec!["qdisc", "del", "dev", "eth0", "root"]);
}

#[test]
fn accepting_manager_stops_on_exit() {
    let mut m = AcceptingManager::new(Addr::new("127.0.0.1", 6553));
    assert!(m.is_accepting());
    assert!(m.on_message(AcceptingMsg::Noop));
    assert!(!m.on_message(AcceptingMsg::Exit));
    assert!(!m.on_message(AcceptingMsg::Noop));
    assert_eq!(m.addr().port, 6553);
}

#[test]
fn new_members_are_announced_to_the_cluster() {
    let mut a = Node::new();
    a.listen("10.0.0.1", 1);
    let mut b = Node::new();
    b.listen("10.0.0.2", 2);
    assert!(a.accept_join(&b.join().unwrap()));
    let n = Join::new(77, Addr::new("10.0.0.9", 9));
    assert!(a.accept_join(&n));
    let out = a.announce_member(&n, 0);
    assert_eq!(out.len(), 2);
    assert!(out.iter().all(|e| e.kind == Kind::Message));
    let env = out.iter().find(|e| e.to == b.id()).unwrap();
    let announcement = a.state().engine().broadcast(env.id).unwrap().duplicate();
    assert_eq!(announcement.tag.as_str(), "membership");
    b.receive(a.id(), Protocol::Message(announcement.duplicate()), 0);
    let p = b.members().lookup(77).unwrap();
    assert_eq!(p.addr, Addr::new("10.0.0.9", 9));
    assert_eq!(b.state().eager(), &vec![77u128]);
    // A second copy changes nothing but the sender's link.
    b.receive(a.id(), Protocol::Message(announcement), 0);
    assert_eq!(b.members().len(), 1);
}

#[test]
fn own_announcement_is_not_added() {
    let mut a = Node::new();
    a.listen("10.0.0.1", 1);
    let me = a.join().unwrap();
    let mut b = Node::new();
    b.listen("10.0.0.2", 2);
    b.accept_join(&me);
    let out = b.announce_member(&me, 0);
    let env = out.iter().find(|e| e.to == a.id()).unwrap();
    let announcement = b.state().engine().broadcast(env.id).unwrap().duplicate();
    a.receive(b.id(), Protocol::Message(announcement), 0);
    assert_eq!(a.members().len(), 0);
}

#[test]
fn default_server() {
    let mut s = Node::new();
    s.listen("0.0.0.0", 5666);
    let addr = s.addr().as_ref().unwrap();
    assert_eq!(addr.ip.as_str(), "0.0.0.0");
    assert_eq!(addr.port, 5666);
}

#[test]
fn should_have_no_addr_or_port() {
    let server = Node::new();
    assert!(server.addr().is_none());
}

#[test]
fn should_have_empty_server_list() {
    let server = Node::new();
    assert!(server.members().len() == 0);
}

#[test]
fn server_should_change_status_when_listening() {
    let mut server = Node::new();
    server.listen("localhost", 5999);
    assert!(server.status() == Status::Running);
    server.shutdown();
}

#[test]
fn should_not_hang_when_calling_listen() {
    let mut server = Node::new();
    server.listen("localhost", 5666);
    server.shutdown();
    assert_eq!(server.status(), Status::ShuttingDown);
}

#[test]
fn node_bind_listening() {
    let node = Node::new();
    assert_eq!(node.status(), Status::Initializing);
}

#[test]
fn protocol_bind_listening() {
    let node = Node::new();
    assert_eq!(node.status(), Status::Initializing);
}

#[test]
fn welcome_answers_and_announces_new_members_once() {
    let mut a = Node::new();
    a.listen("10.0.0.1", 1);
    let b = Join::new(5, Addr::new("10.0.0.2", 2));
    a.accept_join(&b);
    let n = Join::new(77, Addr::new("10.0.0.9", 9));
    let (reply, out) = a.welcome(&n, 0);
    let own = reply.unwrap();
    assert_eq!(own.id, a.id());
    assert_eq!(own.addr, Addr::new("10.0.0.1", 1));
    let mut to: Vec<u128> = out.iter().map(|e| e.to).collect();
    to.sort();
    assert_eq!(to, vec![5, 77]);
    let (reply, out) = a.welcome(&n, 1);
    assert!(reply.is_none());
    assert!(out.is_empty());
    assert_eq!(a.state().broadcasts(), 1);
}

#[test]
fn welcome_without_listening_does_not_answer() {
    let mut a = Node::new();
    let (reply, out) = a.welcome(&Join::new(77, Addr::new("10.0.0.9", 9)), 0);
    assert!(reply.is_none());
    assert_eq!(out.len(), 1);
    assert_eq!(a.members().len(), 1);
}

#[test]
fn announcement_under_a_held_id_sends_nothing() {
    let mut s = State::new();
    s.add_peer(Peer::new(5, "10.0.0.2", 2));
    let n = Join::new(77, Addr::new("10.0.0.9", 9));
    let out = s.announce_member_with_id(&n, 1234, 0);
    assert_eq!(out.len(), 1);
    assert_eq!(s.engine().broadcast(1234).unwrap().tag.as_str(), "membership");
    assert!(s.announce_member_with_id(&n, 1234, 1).is_empty());
    assert_eq!(s.broadcasts(), 1);
}

#[test]
fn removed_members_leave_the_sets_and_the_address_book() {
    let mut node = Node::new();
    node.accept_join(&Join::new(5, Addr::new("10.0.0.2", 2)));
    node.accept_join(&Join::new(6, Addr::new("10.0.0.3", 3)));
    node.remove_peer(5);
    assert_eq!(node.state().eager(), &vec![6u128]);
    assert!(node.members().lookup(5).is_none());
    assert_eq!(node.members().len(), 1);
}

#[test]
fn a_fresh_node_always_announces() {
    let mut node = Node::new();
    let out = node.announce_member(&Join::new(5, Addr::new("10.0.0.2", 2)), 0);
    assert!(out.is_empty());
    assert_eq!(node.state().broadcasts(), 1);
}
