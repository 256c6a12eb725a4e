//! Decisions of the background refresh task: how long to sleep, and which known peer
//! to contact next. Sleeping and contacting are left to the caller.
use vstd::prelude::*;
use rand_chacha::rand_core::SeedableRng;
use rand_distr::Distribution;
use crate::config::{REFRESH_TIMER_LOWER, REFRESH_TIMER_UPPER};
use crate::routing_table::{all_peers, holds_peer, NodeInfo, RoutingTable};

verus! {

#[verifier::external_type_specification]
#[verifier::external_body]
pub struct ExChaCha20Rng(rand_chacha::ChaCha20Rng);

/// Relies on rand_core's SeedableRng::from_rng for rand_chacha::ChaCha20Rng, fed by
/// rand_core's OsRng: a generator seeded from the operating system, or `None` when
/// the operating system's source fails.
#[verifier::external_body]
fn rng_from_os() -> Option<rand_chacha::ChaCha20Rng> {
    rand_chacha::ChaCha20Rng::from_rng(rand_chacha::rand_core::OsRng).ok()
}

/// Relies on rand_distr::Uniform::from(lo..=hi) and its sample: a value drawn
/// uniformly from `lo..=hi` (Uniform panics when `lo > hi`, which `requires` leaves out).
#[verifier::external_body]
fn sample_uniform(rng: &mut rand_chacha::ChaCha20Rng, lo: u64, hi: u64) -> (r: u64)
    requires
        lo <= hi,
    ensures
        lo <= r <= hi,
{
    rand_distr::Uniform::from(lo..=hi).sample(rng)
}

/// The refresh task's source of randomness.
pub struct RefreshSchedule {
    rng: rand_chacha::ChaCha20Rng,
}

impl RefreshSchedule {
    /// A schedule seeded from the operating system, or `None` when its entropy
    /// source fails.
    pub fn new() -> (r: Option<Self>) {
        match rng_from_os() {
            Some(rng) => Some(RefreshSchedule { rng }),
            None => None,
        }
    }

    /// Seconds to sleep before the next refresh, uniform in
    /// `[REFRESH_TIMER_LOWER, REFRESH_TIMER_UPPER]`.
    pub fn next_delay(&mut self) -> (r: u64)
        ensures
            REFRESH_TIMER_LOWER <= r <= REFRESH_TIMER_UPPER,
    {
        sample_uniform(&mut self.rng, REFRESH_TIMER_LOWER, REFRESH_TIMER_UPPER)
    }

    /// An index uniform in `0..n`.
    pub fn pick(&mut self, n: usize) -> (r: usize)
        requires
            n > 0,
        ensures
            r < n,
    {
        sample_uniform(&mut self.rng, 0, (n - 1) as u64) as usize
    }

    /// The peer to refresh from: one of the table's peers chosen uniformly, or `None`
    /// when the table is empty (that round is skipped).
    pub fn refresh_target(&mut self, table: &RoutingTable) -> (r: Option<NodeInfo>)
        requires
            table.wf(),
        ensures
            r.is_none() == (all_peers(table@).len() == 0),
            r.is_some() ==> holds_peer(all_peers(table@), r.unwrap()),
    {
        let n = table.len();
        if n == 0 {
            return None;
        }
        let pick = self.pick(n);
        let r = table.random_node(pick);
        proof {
            let all = all_peers(table@);
            vstd::arithmetic::div_mod::lemma_small_mod(pick as nat, n as nat);
            assert(crate::routing_table::same_peer(all[pick as int], r.unwrap()));
        }
        r
    }
}

} // verus!
