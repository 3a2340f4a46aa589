//! The tier coordination of the three-level cache (memory, shared store,
//! disk): which tier a read asks next, and which upper tiers a hit fills.
//! The tiers themselves are reached by the caller.
use vstd::prelude::*;

verus! {

#[derive(Clone, Debug)]
pub struct CacheConfig {
    pub memory_capacity: u64,
    pub redis_url: Option<String>,
    pub disk_path: Option<String>,
    pub ttl_seconds: u64,
}

#[derive(Clone, Copy, Debug)]
pub struct CacheStats {
    pub memory_entries: u64,
    pub redis_entries: u64,
    pub disk_entries: u64,
}

#[derive(Clone, Copy, Debug, PartialEq, Eq, Structural)]
pub enum CacheTier {
    Memory,
    Shared,
    Disk,
}

pub open spec fn tier_rank(t: CacheTier) -> nat {
    match t {
        CacheTier::Memory => 0,
        CacheTier::Shared => 1,
        CacheTier::Disk => 2,
    }
}

pub open spec fn configured(cfg: CacheConfig, t: CacheTier) -> bool {
    match t {
        CacheTier::Memory => true,
        CacheTier::Shared => cfg.redis_url is Some,
        CacheTier::Disk => cfg.disk_path is Some,
    }
}

/// The next configured tier below rank `r`, if any.
pub open spec fn next_tier(cfg: CacheConfig, r: nat) -> Option<CacheTier> {
    if r < 1 && configured(cfg, CacheTier::Shared) {
        Some(CacheTier::Shared)
    } else if r < 2 && configured(cfg, CacheTier::Disk) {
        Some(CacheTier::Disk)
    } else {
        None
    }
}

/// What a read does after a tier answered.
#[derive(Debug)]
pub enum ReadStep {
    /// Ask this tier next.
    Ask(CacheTier),
    /// Write the value to these tiers, upper first, then return it.
    Fill { value: Vec<u8>, tiers: Vec<CacheTier> },
    /// No tier holds the key.
    Miss,
}

/// The configured tiers strictly above `t`, upper first.
pub open spec fn upper_tiers(cfg: CacheConfig, t: CacheTier) -> Seq<CacheTier> {
    match t {
        CacheTier::Memory => Seq::empty(),
        CacheTier::Shared => seq![CacheTier::Memory],
        CacheTier::Disk => if configured(cfg, CacheTier::Shared) {
            seq![CacheTier::Memory, CacheTier::Shared]
        } else {
            seq![CacheTier::Memory]
        },
    }
}

impl CacheConfig {
    /// The tier to start a read with.
    pub fn first_tier(&self) -> (r: CacheTier)
        ensures
            r == CacheTier::Memory,
    {
        CacheTier::Memory
    }

    /// The step of a read after `tier` answered `found`: a hit fills every
    /// configured tier above it and returns the value; a miss asks the next
    /// configured tier below, or ends the read.
    pub fn after_lookup(&self, tier: CacheTier, found: Option<Vec<u8>>) -> (r: ReadStep)
        ensures
            match found {
                Some(v) => r matches ReadStep::Fill { value, tiers } && value@ == v@ && tiers@ == upper_tiers(
                    *self,
                    tier,
                ),
                None => match next_tier(*self, tier_rank(tier)) {
                    Some(t) => r matches ReadStep::Ask(u) && u == t,
                    None => r is Miss,
                },
            },
    {
        match found {
            Some(v) => {
                let tiers = match tier {
                    CacheTier::Memory => Vec::new(),
                    CacheTier::Shared => vec![CacheTier::Memory],
                    CacheTier::Disk => if self.redis_url.is_some() {
                        vec![CacheTier::Memory, CacheTier::Shared]
                    } else {
                        vec![CacheTier::Memory]
                    },
                };
                assert(tiers@ =~= upper_tiers(*self, tier));
                ReadStep::Fill { value: v, tiers }
            },
            None => {
                let below_shared = match tier {
                    CacheTier::Memory => true,
                    _ => false,
                };
                let below_disk = match tier {
                    CacheTier::Disk => false,
                    _ => true,
                };
                if below_shared && self.redis_url.is_some() {
                    ReadStep::Ask(CacheTier::Shared)
                } else if below_disk && self.disk_path.is_some() {
                    ReadStep::Ask(CacheTier::Disk)
                } else {
                    ReadStep::Miss
                }
            },
        }
    }

    /// The tiers a write or a delete goes to, in order.
    pub fn write_tiers(&self) -> (r: Vec<CacheTier>)
        ensures
            r@ == seq![CacheTier::Memory] + (if self.redis_url is Some { seq![CacheTier::Shared] } else {
                Seq::empty()
            }) + (if self.disk_path is Some { seq![CacheTier::Disk] } else { Seq::empty() }),
    {
        let mut r = vec![CacheTier::Memory];
        if self.redis_url.is_some() {
            r.push(CacheTier::Shared);
        }
        if self.disk_path.is_some() {
            r.push(CacheTier::Disk);
        }
        assert(r@ =~= seq![CacheTier::Memory] + (if self.redis_url is Some { seq![CacheTier::Shared] } else {
            Seq::empty()
        }) + (if self.disk_path is Some { seq![CacheTier::Disk] } else { Seq::empty() }));
        r
    }
}

/// A hit in a tier fills exactly the configured tiers above it.
pub proof fn lemma_fill_is_upper(cfg: CacheConfig, t: CacheTier)
    ensures
        forall|i: int|
            0 <= i < upper_tiers(cfg, t).len() ==> tier_rank(#[trigger] upper_tiers(cfg, t)[i]) < tier_rank(t)
                && configured(cfg, upper_tiers(cfg, t)[i]),
        forall|u: CacheTier|
            tier_rank(u) < tier_rank(t) && configured(cfg, u) ==> #[trigger] upper_tiers(cfg, t).contains(u),
{
    let s = upper_tiers(cfg, t);
    assert forall|u: CacheTier| tier_rank(u) < tier_rank(t) && configured(cfg, u) implies #[trigger] s.contains(u) by {
        if u == CacheTier::Memory {
            assert(s[0] == u);
        } else {
            assert(s[1] == u);
        }
    }
}

} // verus!
