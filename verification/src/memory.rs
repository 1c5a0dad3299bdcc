use vstd::prelude::*;

verus! {

/// The estimated footprint of one cached pattern in bytes: a 384-entry
/// four-byte vector plus bookkeeping overhead.
pub const ENTRY_ESTIMATE_BYTES: usize = 384 * 4 + 100;

/// The approximate bytes freed per evicted entry.
pub const EVICTED_ENTRY_BYTES: usize = 1500;

/// How many patterns a cache may hold for a memory budget in megabytes: the
/// budget divided by the per-entry estimate, with a floor of 100 entries
/// (also used when the budget would overflow the byte count).
pub open spec fn spec_lru_capacity(max_size_mb: usize) -> usize {
    if max_size_mb <= usize::MAX / 1048576 {
        let cap = ((max_size_mb * 1048576) as int / 1636) as usize;
        if cap == 0 {
            100
        } else {
            cap
        }
    } else {
        100
    }
}

/// The cache capacity for a memory budget in megabytes; never zero.
pub fn lru_capacity(max_size_mb: usize) -> (r: usize)
    ensures
        r == spec_lru_capacity(max_size_mb),
        r >= 1,
{
    if max_size_mb <= usize::MAX / 1048576 {
        let cap = (max_size_mb * 1048576) / ENTRY_ESTIMATE_BYTES;
        if cap == 0 {
            100
        } else {
            cap
        }
    } else {
        100
    }
}

/// Whether an optimize pass prunes: only once the cache holds more than nine
/// tenths of its capacity.
pub open spec fn spec_should_prune(len: usize, cap: usize) -> bool {
    cap <= usize::MAX / 9 && len > (cap * 9) / 10
}

/// How many least-recently-used entries an optimize pass evicts, and the
/// approximate bytes that frees: a tenth of capacity when the cache holds
/// more than nine tenths of it, else nothing. The byte estimate saturates.
pub fn prune_plan(len: usize, cap: usize) -> (r: (usize, usize))
    ensures
        spec_should_prune(len, cap) ==> r.0 == cap / 10 && r.1 == (if cap / 10 <= usize::MAX
            / 1500 {
            ((cap / 10) * 1500) as usize
        } else {
            usize::MAX
        }),
        !spec_should_prune(len, cap) ==> r == (0usize, 0usize),
{
    if cap <= usize::MAX / 9 && len > (cap * 9) / 10 {
        let to_remove = cap / 10;
        let freed = if to_remove <= usize::MAX / EVICTED_ENTRY_BYTES {
            to_remove * EVICTED_ENTRY_BYTES
        } else {
            usize::MAX
        };
        (to_remove, freed)
    } else {
        (0, 0)
    }
}

/// How many audio chunks the capture ring buffer holds for a sample rate and
/// chunk duration: ten chunks' worth of samples, saturating where the sample
/// count would overflow.
pub open spec fn spec_ring_capacity(sample_rate: u32, buffer_duration_ms: u32) -> usize {
    let samples: usize = if buffer_duration_ms == 0 {
        0
    } else if sample_rate <= u32::MAX / buffer_duration_ms {
        ((sample_rate * buffer_duration_ms) / 1000) as usize
    } else {
        (u32::MAX / 1000) as usize
    };
    if samples <= usize::MAX / 10 {
        (samples * 10) as usize
    } else {
        usize::MAX
    }
}

/// The capture ring-buffer capacity for a sample rate and chunk duration.
pub fn ring_capacity(sample_rate: u32, buffer_duration_ms: u32) -> (r: usize)
    ensures
        r == spec_ring_capacity(sample_rate, buffer_duration_ms),
{
    let samples: usize = if buffer_duration_ms == 0 {
        0
    } else if sample_rate <= u32::MAX / buffer_duration_ms {
        proof {
            assert(sample_rate * buffer_duration_ms <= u32::MAX) by (nonlinear_arith)
                requires
                    buffer_duration_ms > 0,
                    sample_rate <= u32::MAX / buffer_duration_ms,
            ;
        }
        ((sample_rate * buffer_duration_ms) / 1000) as usize
    } else {
        (u32::MAX / 1000) as usize
    };
    if samples <= usize::MAX / 10 {
        samples * 10
    } else {
        usize::MAX
    }
}

} // verus!
