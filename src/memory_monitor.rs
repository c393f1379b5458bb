//! Memory sampling: physical and swap space, usage percentages and a
//! high-pressure flag.

use vstd::prelude::*;
use vstd::string::*;
use crate::metric::{
    count_int, count_metric, lemma_not_usage_key, lemma_percent_bounds, percent, percent_of,
    usage_entries_in_range, MetricSnapshot, MetricValue, PERCENT_FULL,
};
use crate::text::owned;

verus! {

/// Physical and swap memory, in bytes, as read from the platform.
pub struct MemoryReading {
    pub total: u64,
    pub used: u64,
    pub available: u64,
    pub free: u64,
    pub swap_total: u64,
    pub swap_used: u64,
    pub swap_free: u64,
}

/// Memory is under pressure when more than nine tenths of it is in use.
pub open spec fn under_pressure(used: nat, total: nat) -> bool {
    total > 0 && 10 * (if used > total { total } else { used }) > 9 * total
}

/// Memory sampler; it keeps no state between samples.
pub struct MemoryMonitor {}

impl MemoryMonitor {
    /// The snapshot of one reading.
    pub open spec fn snapshot(r: MemoryReading) -> Map<Seq<char>, MetricValue> {
        Map::<Seq<char>, MetricValue>::empty().insert(
            "memory.total_bytes"@,
            MetricValue::Int(count_int(r.total as nat)),
        ).insert("memory.used_bytes"@, MetricValue::Int(count_int(r.used as nat))).insert(
            "memory.available_bytes"@,
            MetricValue::Int(count_int(r.available as nat)),
        ).insert("memory.free_bytes"@, MetricValue::Int(count_int(r.free as nat))).insert(
            "memory.usage_percent"@,
            MetricValue::Float(percent(r.used as nat, r.total as nat) as i64),
        ).insert("memory.swap_total_bytes"@, MetricValue::Int(count_int(r.swap_total as nat))).insert(
            "memory.swap_used_bytes"@,
            MetricValue::Int(count_int(r.swap_used as nat)),
        ).insert("memory.swap_free_bytes"@, MetricValue::Int(count_int(r.swap_free as nat))).insert(
            "memory.swap_usage_percent"@,
            MetricValue::Float(percent(r.swap_used as nat, r.swap_total as nat) as i64),
        ).insert(
            "memory.pressure_high"@,
            MetricValue::Int(if under_pressure(r.used as nat, r.total as nat) { 1 } else { 0 }),
        )
    }

    pub fn new() -> (r: Self) {
        MemoryMonitor {}
    }

    /// Samples one memory reading.
    pub fn get_metrics(&mut self, reading: &MemoryReading) -> (r: MetricSnapshot)
        ensures
            r.wf(),
            r@ == Self::snapshot(*reading),
    {
        let mut m = MetricSnapshot::new();
        m.insert(owned("memory.total_bytes"), count_metric(reading.total));
        m.insert(owned("memory.used_bytes"), count_metric(reading.used));
        m.insert(owned("memory.available_bytes"), count_metric(reading.available));
        m.insert(owned("memory.free_bytes"), count_metric(reading.free));
        m.insert(owned("memory.usage_percent"), MetricValue::Float(percent_of(reading.used, reading.total)));
        m.insert(owned("memory.swap_total_bytes"), count_metric(reading.swap_total));
        m.insert(owned("memory.swap_used_bytes"), count_metric(reading.swap_used));
        m.insert(owned("memory.swap_free_bytes"), count_metric(reading.swap_free));
        m.insert(
            owned("memory.swap_usage_percent"),
            MetricValue::Float(percent_of(reading.swap_used, reading.swap_total)),
        );
        let used: u64 = if reading.used > reading.total { reading.total } else { reading.used };
        let pressure: bool = reading.total > 0 && 10 * (used as u128) > 9 * (reading.total as u128);
        m.insert(owned("memory.pressure_high"), MetricValue::Int(if pressure { 1 } else { 0 }));
        m
    }
}

/// Both memory usage percentages lie between 0 and 100, and are 0 when their
/// total is 0.
pub proof fn lemma_memory_percent_bounds(r: MemoryReading)
    ensures
        MemoryMonitor::snapshot(r)["memory.usage_percent"@] == MetricValue::Float(
            percent(r.used as nat, r.total as nat) as i64,
        ),
        MemoryMonitor::snapshot(r)["memory.swap_usage_percent"@] == MetricValue::Float(
            percent(r.swap_used as nat, r.swap_total as nat) as i64,
        ),
        0 <= percent(r.used as nat, r.total as nat) <= PERCENT_FULL,
        0 <= percent(r.swap_used as nat, r.swap_total as nat) <= PERCENT_FULL,
        r.total == 0 ==> percent(r.used as nat, r.total as nat) == 0,
        r.swap_total == 0 ==> percent(r.swap_used as nat, r.swap_total as nat) == 0,
{
    reveal_strlit("memory.usage_percent");
    reveal_strlit("memory.swap_total_bytes");
    reveal_strlit("memory.swap_used_bytes");
    reveal_strlit("memory.swap_free_bytes");
    reveal_strlit("memory.swap_usage_percent");
    reveal_strlit("memory.pressure_high");
    assert("memory.usage_percent"@.len() == 20);
    assert("memory.swap_total_bytes"@.len() == 23);
    assert("memory.swap_used_bytes"@.len() == 22);
    assert("memory.swap_free_bytes"@.len() == 22);
    assert("memory.swap_usage_percent"@.len() == 25);
    assert("memory.pressure_high"@.len() == 20);
    assert("memory.usage_percent"@[7] != "memory.pressure_high"@[7]);
    lemma_percent_bounds(r.used as nat, r.total as nat);
    lemma_percent_bounds(r.swap_used as nat, r.swap_total as nat);
}

/// Every usage percentage of a memory sample lies between 0 and 100.
pub proof fn lemma_memory_usage_entries_in_range(r: MemoryReading)
    ensures
        usage_entries_in_range(MemoryMonitor::snapshot(r)),
{
    lemma_percent_bounds(r.used as nat, r.total as nat);
    lemma_percent_bounds(r.swap_used as nat, r.swap_total as nat);
    reveal_strlit("memory.total_bytes");
    assert("memory.total_bytes"@.len() == 18);
    assert("memory.total_bytes"@[5] != 'u');
    lemma_not_usage_key("memory.total_bytes"@);
    reveal_strlit("memory.used_bytes");
    assert("memory.used_bytes"@.len() == 17);
    assert("memory.used_bytes"@[4] != 'u');
    lemma_not_usage_key("memory.used_bytes"@);
    reveal_strlit("memory.available_bytes");
    assert("memory.available_bytes"@.len() == 22);
    assert("memory.available_bytes"@[9] != 'u');
    lemma_not_usage_key("memory.available_bytes"@);
    reveal_strlit("memory.free_bytes");
    assert("memory.free_bytes"@.len() == 17);
    assert("memory.free_bytes"@[4] != 'u');
    lemma_not_usage_key("memory.free_bytes"@);
    reveal_strlit("memory.swap_total_bytes");
    assert("memory.swap_total_bytes"@.len() == 23);
    assert("memory.swap_total_bytes"@[10] != 'u');
    lemma_not_usage_key("memory.swap_total_bytes"@);
    reveal_strlit("memory.swap_used_bytes");
    assert("memory.swap_used_bytes"@.len() == 22);
    assert("memory.swap_used_bytes"@[9] != 'u');
    lemma_not_usage_key("memory.swap_used_bytes"@);
    reveal_strlit("memory.swap_free_bytes");
    assert("memory.swap_free_bytes"@.len() == 22);
    assert("memory.swap_free_bytes"@[9] != 'u');
    lemma_not_usage_key("memory.swap_free_bytes"@);
    reveal_strlit("memory.pressure_high");
    assert("memory.pressure_high"@.len() == 20);
    assert("memory.pressure_high"@[7] != 'u');
    lemma_not_usage_key("memory.pressure_high"@);
}

} // verus!
