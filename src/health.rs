//! Cluster health, derived from how each peer's recent exchanges went.
//!
//! A peer counts as unreachable once its latest exchanges have failed
//! `failure_threshold` times in a row; one success makes it reachable
//! again. The cluster is `Red` when most known peers are unreachable,
//! `Green` when the unreachable share is at most `green_percent` percent,
//! and `Yellow` otherwise, or while no peer is known. The signal is only
//! observed: nothing in the library acts on it.
use vstd::prelude::*;
use crate::membership::NodeId;

verus! {

/// The state of the cluster, from best to worst.
#[derive(Clone, Copy, Debug, PartialEq, Eq, Structural)]
pub enum Health {
    /// Everything is in good shape.
    Green,
    /// Some peers fail, but most are reachable.
    Yellow,
    /// Most known peers are unreachable.
    Red,
}

/// 0 for `Green`, 1 for `Yellow`, 2 for `Red`.
pub open spec fn severity(h: Health) -> nat {
    match h {
        Health::Green => 0,
        Health::Yellow => 1,
        Health::Red => 2,
    }
}

impl Health {
    /// How bad the state is: 0 for `Green`, 1 for `Yellow`, 2 for `Red`.
    pub fn severity(&self) -> (r: u8)
        ensures
            r as nat == severity(*self),
    {
        match self {
            Health::Green => 0,
            Health::Yellow => 1,
            Health::Red => 2,
        }
    }
}

/// The thresholds of the health signal.
#[derive(Clone, Copy, Debug, PartialEq, Eq, Structural)]
pub struct HealthConfig {
    /// Failures in a row after which a peer counts as unreachable.
    pub failure_threshold: u32,
    /// Largest share of unreachable peers, in percent, that is still `Green`.
    pub green_percent: u32,
}

/// Failures in a row of one peer.
#[derive(Clone, Copy, Debug, PartialEq, Eq, Structural)]
pub struct PeerHealth {
    pub id: NodeId,
    pub failures: u32,
}

/// Position of the record of `id` in `s`, or -1 when there is none.
pub open spec fn record_index(s: Seq<PeerHealth>, id: NodeId) -> int
    decreases s.len(),
{
    if s.len() == 0 {
        -1
    } else if s.last().id == id {
        s.len() - 1
    } else {
        record_index(s.drop_last(), id)
    }
}

/// The records after `id`'s latest exchange ended with `failures` failures
/// in a row; a peer not seen before is added at the end.
pub open spec fn set_failures(s: Seq<PeerHealth>, id: NodeId, failures: u32) -> Seq<PeerHealth> {
    if record_index(s, id) >= 0 {
        s.update(record_index(s, id), PeerHealth { id, failures })
    } else {
        s.push(PeerHealth { id, failures })
    }
}

/// Failures in a row of `id` so far: 0 for a peer not seen before.
pub open spec fn failures_of(s: Seq<PeerHealth>, id: NodeId) -> u32 {
    if record_index(s, id) >= 0 {
        s[record_index(s, id)].failures
    } else {
        0
    }
}

pub open spec fn spec_report_failure(s: Seq<PeerHealth>, id: NodeId) -> Seq<PeerHealth> {
    let f = failures_of(s, id);
    set_failures(s, id, if f == u32::MAX { f } else { (f + 1) as u32 })
}

pub open spec fn spec_report_success(s: Seq<PeerHealth>, id: NodeId) -> Seq<PeerHealth> {
    set_failures(s, id, 0)
}

/// The number of records of unreachable peers.
pub open spec fn unreachable_count(s: Seq<PeerHealth>, threshold: u32) -> nat
    decreases s.len(),
{
    if s.len() == 0 {
        0
    } else {
        unreachable_count(s.drop_last(), threshold) + if s.last().failures >= threshold {
            1nat
        } else {
            0nat
        }
    }
}

/// The health of a cluster of `known` peers of which `unreachable` are
/// unreachable.
pub open spec fn health_of(unreachable: nat, known: nat, green_percent: u32) -> Health {
    if known == 0 {
        Health::Yellow
    } else if 2 * unreachable > known {
        Health::Red
    } else if 100 * unreachable <= green_percent * known {
        Health::Green
    } else {
        Health::Yellow
    }
}

/// More unreachable peers never make the health better.
pub proof fn lemma_health_monotonic(u1: nat, u2: nat, known: nat, green_percent: u32)
    requires
        u1 <= u2,
    ensures
        severity(health_of(u1, known, green_percent)) <= severity(
            health_of(u2, known, green_percent),
        ),
{
}

proof fn lemma_unreachable_bound(s: Seq<PeerHealth>, threshold: u32)
    ensures
        unreachable_count(s, threshold) <= s.len(),
    decreases s.len(),
{
    if s.len() > 0 {
        lemma_unreachable_bound(s.drop_last(), threshold);
    }
}

proof fn lemma_record_index(s: Seq<PeerHealth>, id: NodeId)
    ensures
        -1 <= record_index(s, id) < s.len(),
    decreases s.len(),
{
    if s.len() > 0 {
        lemma_record_index(s.drop_last(), id);
    }
}

/// Per-peer liveness and the health of the cluster derived from it.
pub struct HealthMonitor {
    config: HealthConfig,
    records: Vec<PeerHealth>,
}

impl View for HealthMonitor {
    type V = Seq<PeerHealth>;

    closed spec fn view(&self) -> Seq<PeerHealth> {
        self.records@
    }
}

impl HealthMonitor {
    pub closed spec fn spec_config(&self) -> HealthConfig {
        self.config
    }

    /// A monitor that has heard of no peer.
    pub fn new(config: HealthConfig) -> (r: HealthMonitor)
        ensures
            r@ == Seq::<PeerHealth>::empty(),
            r.spec_config() == config,
    {
        HealthMonitor { config, records: Vec::new() }
    }

    /// The thresholds.
    pub fn config(&self) -> (r: HealthConfig)
        ensures
            r == self.spec_config(),
    {
        self.config
    }

    fn index_of(&self, id: NodeId) -> (r: Option<usize>)
        ensures
            r matches Some(i) ==> i as int == record_index(self@, id),
            r is None ==> record_index(self@, id) == -1,
    {
        let mut i: usize = self.records.len();
        assert(self@.subrange(0, i as int) =~= self@);
        while i > 0
            invariant
                i <= self@.len(),
                record_index(self@, id) == record_index(self@.subrange(0, i as int), id),
            decreases i,
        {
            assert(self@.subrange(0, i as int).drop_last() =~= self@.subrange(0, i as int - 1));
            if self.records[i - 1].id == id {
                return Some(i - 1);
            }
            i = i - 1;
        }
        None
    }

    fn set(&mut self, id: NodeId, failures: u32)
        ensures
            final(self)@ == set_failures(old(self)@, id, failures),
            final(self).spec_config() == old(self).spec_config(),
    {
        proof {
            lemma_record_index(self@, id);
        }
        match self.index_of(id) {
            Some(i) => {
                self.records.set(i, PeerHealth { id, failures });
            },
            None => {
                self.records.push(PeerHealth { id, failures });
            },
        }
    }

    /// Failures in a row of `id` so far.
    pub fn failures(&self, id: NodeId) -> (r: u32)
        ensures
            r == failures_of(self@, id),
    {
        proof {
            lemma_record_index(self@, id);
        }
        match self.index_of(id) {
            Some(i) => self.records[i].failures,
            None => 0,
        }
    }

    /// An exchange with `id` failed.
    pub fn report_failure(&mut self, id: NodeId)
        ensures
            final(self)@ == spec_report_failure(old(self)@, id),
            final(self).spec_config() == old(self).spec_config(),
    {
        let f = self.failures(id);
        let next = if f == u32::MAX {
            f
        } else {
            f + 1
        };
        self.set(id, next);
    }

    /// An exchange with `id` succeeded.
    pub fn report_success(&mut self, id: NodeId)
        ensures
            final(self)@ == spec_report_success(old(self)@, id),
            final(self).spec_config() == old(self).spec_config(),
    {
        self.set(id, 0);
    }

    /// The number of unreachable peers.
    pub fn unreachable(&self) -> (r: usize)
        ensures
            r as nat == unreachable_count(self@, self.spec_config().failure_threshold),
    {
        let threshold = self.config.failure_threshold;
        let mut count: usize = 0;
        let mut i: usize = 0;
        while i < self.records.len()
            invariant
                i <= self@.len(),
                threshold == self.spec_config().failure_threshold,
                count as nat == unreachable_count(self@.subrange(0, i as int), threshold),
            decreases self@.len() - i,
        {
            proof {
                assert(self@.subrange(0, i as int + 1).drop_last() =~= self@.subrange(0, i as int));
                lemma_unreachable_bound(self@.subrange(0, i as int), threshold);
            }
            if self.records[i].failures >= threshold {
                count = count + 1;
            }
            i = i + 1;
        }
        assert(self@.subrange(0, self@.len() as int) =~= self@);
        count
    }

    /// The health of the cluster now.
    pub fn current(&self) -> (r: Health)
        ensures
            r == health_of(
                unreachable_count(self@, self.spec_config().failure_threshold),
                self@.len(),
                self.spec_config().green_percent,
            ),
    {
        let u = self.unreachable() as u128;
        let n = self.records.len() as u128;
        let g = self.config.green_percent as u128;
        proof {
            lemma_unreachable_bound(self@, self.spec_config().failure_threshold);
            assert(g * n <= 0xffff_ffffu128 * 0xffff_ffff_ffff_ffffu128) by (nonlinear_arith)
                requires
                    g <= 0xffff_ffffu128,
                    n <= 0xffff_ffff_ffff_ffffu128,
            ;
        }
        if n == 0 {
            Health::Yellow
        } else if 2 * u > n {
            Health::Red
        } else if 100 * u <= g * n {
            Health::Green
        } else {
            Health::Yellow
        }
    }
}

} // verus!
