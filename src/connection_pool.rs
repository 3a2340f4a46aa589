//! Bookkeeping of the per-target connection pools: the key of a target and
//! the totals reported over all pools.
use crate::text::{chars_of, decimal, decimal_of, push_all, string_of};
use vstd::prelude::*;

verus! {

/// A pool target.
#[derive(Clone, Debug)]
pub struct TcpConnectionManager {
    pub host: String,
    pub port: u16,
}

impl TcpConnectionManager {
    /// The pool key and connect address, `host:port`.
    pub fn address(&self) -> (r: String)
        ensures
            r@ == self.host@ + seq![':'] + decimal(self.port as nat),
    {
        let mut v = chars_of(self.host.as_str());
        v.push(':');
        push_all(&mut v, &decimal_of(self.port as u64));
        string_of(&v)
    }
}

/// What one pool reports: its size, idle connections, and waiters.
#[derive(Clone, Copy, Debug)]
pub struct PoolStatus {
    pub size: usize,
    pub available: usize,
    pub waiting: usize,
}

#[derive(Clone, Copy, Debug)]
pub struct ConnectionPoolStats {
    pub total_pools: usize,
    pub total_size: usize,
    pub total_available: usize,
    pub total_waiting: usize,
}

pub open spec fn sum_size(s: Seq<PoolStatus>) -> nat
    decreases s.len(),
{
    if s.len() == 0 { 0 } else { (sum_size(s.drop_last()) + s.last().size) as nat }
}

pub open spec fn sum_available(s: Seq<PoolStatus>) -> nat
    decreases s.len(),
{
    if s.len() == 0 { 0 } else { (sum_available(s.drop_last()) + s.last().available) as nat }
}

pub open spec fn sum_waiting(s: Seq<PoolStatus>) -> nat
    decreases s.len(),
{
    if s.len() == 0 { 0 } else { (sum_waiting(s.drop_last()) + s.last().waiting) as nat }
}

pub open spec fn sat(n: nat) -> usize {
    if n <= usize::MAX { n as usize } else { usize::MAX }
}

/// Totals over all pools; a total too large for `usize` is reported as `usize::MAX`.
pub fn aggregate_stats(pools: &Vec<PoolStatus>) -> (r: ConnectionPoolStats)
    ensures
        r.total_pools == pools@.len(),
        r.total_size == sat(sum_size(pools@)),
        r.total_available == sat(sum_available(pools@)),
        r.total_waiting == sat(sum_waiting(pools@)),
{
    let mut size: usize = 0;
    let mut available: usize = 0;
    let mut waiting: usize = 0;
    let mut i: usize = 0;
    while i < pools.len()
        invariant
            i <= pools@.len(),
            size == sat(sum_size(pools@.take(i as int))),
            available == sat(sum_available(pools@.take(i as int))),
            waiting == sat(sum_waiting(pools@.take(i as int))),
        decreases pools@.len() - i,
    {
        assert(pools@.take(i + 1).drop_last() =~= pools@.take(i as int));
        let p = pools[i];
        size = size.saturating_add(p.size);
        available = available.saturating_add(p.available);
        waiting = waiting.saturating_add(p.waiting);
        i = i + 1;
    }
    assert(pools@.take(i as int) =~= pools@);
    ConnectionPoolStats { total_pools: pools.len(), total_size: size, total_available: available, total_waiting: waiting }
}

} // verus!
