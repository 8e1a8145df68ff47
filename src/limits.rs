//! Caps on the growth of a guest's memories and tables.
//!
//! Each allowance is a remaining budget that only decreases.  A growth
//! request is denied when it exceeds the guest's own declared maximum or the
//! remaining budget; otherwise it is granted and the budget shrinks by the
//! growth.  The budget `UNLIMITED` stands for no cap and is never reduced.
use vstd::prelude::*;

use crate::config::Config;

verus! {

/// The budget that stands for no cap.
pub const UNLIMITED: u64 = 0xffff_ffff_ffff_ffff;

/// Remaining allowances for linear-memory bytes and table entries.
pub struct MemoryLimit {
    pub max_memory: u64,
    pub max_table_entries: u64,
}

/// Whether a request to grow from `current` to `desired` is granted against
/// `allowance`, and the allowance left afterwards.
pub open spec fn grow_outcome(allowance: u64, current: nat, desired: nat, max: Option<nat>) -> (bool, u64) {
    if max.is_some() && desired > max.unwrap() {
        (false, allowance)
    } else if allowance == UNLIMITED {
        (true, allowance)
    } else if desired - current <= allowance {
        (true, (allowance - (desired - current)) as u64)
    } else {
        (false, allowance)
    }
}

pub open spec fn opt_nat_usize(o: Option<usize>) -> Option<nat> {
    match o {
        Some(m) => Some(m as nat),
        None => None,
    }
}

fn grow(allowance: u64, current: u64, desired: u64, max: Option<u64>) -> (r: (bool, u64))
    requires
        current <= desired,
    ensures
        r == grow_outcome(
            allowance,
            current as nat,
            desired as nat,
            match max {
                Some(m) => Some(m as nat),
                None => None,
            },
        ),
{
    if let Some(m) = max {
        if desired > m {
            return (false, allowance);
        }
    }
    if allowance == UNLIMITED {
        return (true, allowance);
    }
    let delta = desired - current;
    if delta <= allowance {
        (true, allowance - delta)
    } else {
        (false, allowance)
    }
}

impl MemoryLimit {
    /// No caps.
    pub fn new() -> (r: MemoryLimit)
        ensures
            r.max_memory == UNLIMITED,
            r.max_table_entries == UNLIMITED,
    {
        MemoryLimit { max_memory: UNLIMITED, max_table_entries: UNLIMITED }
    }

    /// The caps that the configuration names, and no cap where it names none.
    pub fn from_config(config: &Config) -> (r: MemoryLimit)
        ensures
            r.max_memory == match config.max_memory {
                Some(v) => v,
                None => UNLIMITED,
            },
            r.max_table_entries == match config.max_entries {
                Some(v) => v,
                None => UNLIMITED,
            },
    {
        let mut ret = MemoryLimit::new();
        if let Some(v) = config.max_memory {
            ret.max_memory = v;
        }
        if let Some(v) = config.max_entries {
            ret.max_table_entries = v;
        }
        ret
    }

    /// Decides a request to grow a linear memory from `current` to `desired`
    /// bytes, where the guest declared the maximum `max`.
    pub fn memory_growing(&mut self, current: usize, desired: usize, max: Option<usize>) -> (r: bool)
        requires
            current <= desired,
        ensures
            (r, final(self).max_memory) == grow_outcome(
                old(self).max_memory,
                current as nat,
                desired as nat,
                opt_nat_usize(max),
            ),
            final(self).max_table_entries == old(self).max_table_entries,
    {
        let m = match max {
            Some(m) => Some(m as u64),
            None => None,
        };
        let (ok, left) = grow(self.max_memory, current as u64, desired as u64, m);
        self.max_memory = left;
        ok
    }

    /// Decides a request to grow a table from `current` to `desired` entries,
    /// where the guest declared the maximum `max`.
    pub fn table_growing(&mut self, current: usize, desired: usize, max: Option<usize>) -> (r: bool)
        requires
            current <= desired,
        ensures
            (r, final(self).max_table_entries) == grow_outcome(
                old(self).max_table_entries,
                current as nat,
                desired as nat,
                opt_nat_usize(max),
            ),
            final(self).max_memory == old(self).max_memory,
    {
        let m = match max {
            Some(m) => Some(m as u64),
            None => None,
        };
        let (ok, left) = grow(self.max_table_entries, current as u64, desired as u64, m);
        self.max_table_entries = left;
        ok
    }
}

/// A request beyond the remaining allowance is denied and leaves it as it
/// was; one within it is granted and takes its size off the allowance.
pub proof fn law_growth_against_allowance(allowance: u64, current: nat, desired: nat)
    requires
        allowance != UNLIMITED,
        current <= desired,
    ensures
        desired - current > allowance ==> grow_outcome(allowance, current, desired, None) == (
        false, allowance),
        desired - current <= allowance ==> grow_outcome(allowance, current, desired, None) == (
        true, (allowance - (desired - current)) as u64),
{
}

} // verus!
