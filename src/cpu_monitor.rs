//! CPU sampling: per-core usage and frequency, their mean, load averages,
//! process and thread counts, model name and temperature.

use vstd::prelude::*;
use vstd::string::*;
use crate::metric::{
    count_int, count_metric, lemma_not_usage_key, usage_entries_in_range, MetricSnapshot, MetricValue,
    FRACTION_SCALE, PERCENT_FULL,
};
use crate::network_monitor::sat_add;
use crate::text::{decimal, indexed_key, owned};

verus! {

/// One logical core as read from the platform.
pub struct CoreReading {
    /// Usage in millionths of a percent.
    pub usage: i64,
    pub frequency_mhz: u64,
    /// Model name of the core.
    pub brand: String,
}

/// Load averages over 1, 5 and 15 minutes, in millionths.
pub struct LoadAverages {
    pub one: i64,
    pub five: i64,
    pub fifteen: i64,
}

/// What one CPU sample reads from the platform.
pub struct CpuReading {
    pub cores: Vec<CoreReading>,
    /// Absent on platforms without the concept.
    pub load_average: Option<LoadAverages>,
    /// Thread count of each running process; `None` where it could not be read.
    pub thread_counts: Vec<Option<u64>>,
    /// Temperature in millionths of a degree Celsius, where a sensor was readable.
    pub temperature: Option<i64>,
}

/// A usage reading held within 0 to 100 percent.
pub open spec fn clamp_usage(u: int) -> int {
    if u < 0 {
        0
    } else if u > PERCENT_FULL {
        PERCENT_FULL as int
    } else {
        u
    }
}

/// Sum of the clamped usage of the cores.
pub open spec fn usage_sum(s: Seq<CoreReading>) -> int
    decreases s.len(),
{
    if s.len() == 0 {
        0
    } else {
        usage_sum(s.drop_last()) + clamp_usage(s.last().usage as int)
    }
}

/// Mean clamped usage over the cores, rounded down; 0 with no core.
pub open spec fn overall_usage(s: Seq<CoreReading>) -> int {
    if s.len() == 0 {
        0
    } else {
        usage_sum(s) / (s.len() as int)
    }
}

/// Threads over all processes; a process whose count is unknown counts as one.
pub open spec fn thread_total(s: Seq<Option<u64>>) -> nat
    decreases s.len(),
{
    if s.len() == 0 {
        0
    } else {
        sat_add(
            thread_total(s.drop_last()),
            match s.last() {
                Some(n) => n as nat,
                None => 1,
            },
        )
    }
}

/// A whole number as a fractional metric value, capped at the signed maximum.
pub open spec fn whole_as_fraction(n: nat) -> i64 {
    if n * FRACTION_SCALE > i64::MAX {
        i64::MAX
    } else {
        (n * FRACTION_SCALE) as i64
    }
}

/// Adds the usage and frequency entries of each core to `m`.
pub open spec fn core_entries(m: Map<Seq<char>, MetricValue>, s: Seq<CoreReading>) -> Map<
    Seq<char>,
    MetricValue,
>
    decreases s.len(),
{
    if s.len() == 0 {
        m
    } else {
        let i = (s.len() - 1) as nat;
        core_entries(m, s.drop_last()).insert(
            "cpu.core"@ + decimal(i) + ".usage_percent"@,
            MetricValue::Float(clamp_usage(s.last().usage as int) as i64),
        ).insert(
            "cpu.core"@ + decimal(i) + ".frequency_mhz"@,
            MetricValue::Float(whole_as_fraction(s.last().frequency_mhz as nat)),
        )
    }
}

/// The snapshot of one CPU reading.
pub open spec fn cpu_snapshot(r: CpuReading) -> Map<Seq<char>, MetricValue> {
    let cores = r.cores@;
    let m1 = core_entries(Map::empty(), cores).insert(
        "cpu.count"@,
        MetricValue::Int(count_int(cores.len())),
    );
    let m2 = match r.load_average {
        Some(l) => m1.insert("cpu.load_avg_1min"@, MetricValue::Float(l.one)).insert(
            "cpu.load_avg_5min"@,
            MetricValue::Float(l.five),
        ).insert("cpu.load_avg_15min"@, MetricValue::Float(l.fifteen)),
        None => m1,
    };
    let m3 = m2.insert(
        "cpu.process_count"@,
        MetricValue::Int(count_int(r.thread_counts@.len())),
    ).insert("cpu.thread_count"@, MetricValue::Int(count_int(thread_total(r.thread_counts@))));
    let m4 = match r.temperature {
        Some(t) => m3.insert("cpu.temperature_celsius"@, MetricValue::Float(t)),
        None => m3,
    };
    let m5 = if cores.len() > 0 {
        m4.insert("cpu.brand"@, MetricValue::Text(cores[0].brand))
    } else {
        m4
    };
    m5.insert("cpu.usage_percent"@, MetricValue::Float(overall_usage(cores) as i64))
}

/// Usage of one core held within 0 to 100 percent.
pub fn core_usage(c: &CoreReading) -> (r: i64)
    ensures
        r == clamp_usage(c.usage as int),
        0 <= r <= PERCENT_FULL,
{
    if c.usage < 0 {
        0
    } else if c.usage > PERCENT_FULL {
        PERCENT_FULL
    } else {
        c.usage
    }
}

fn frequency_value(mhz: u64) -> (r: i64)
    ensures
        r == whole_as_fraction(mhz as nat),
{
    let m: u128 = mhz as u128;
    assert(m * 1000000 <= u64::MAX * 1000000) by (nonlinear_arith)
        requires
            m <= u64::MAX,
    ;
    let scaled: u128 = m * 1000000;
    if scaled > i64::MAX as u128 {
        i64::MAX
    } else {
        scaled as i64
    }
}

proof fn lemma_usage_sum_bounds(s: Seq<CoreReading>)
    ensures
        0 <= usage_sum(s) <= s.len() * PERCENT_FULL,
    decreases s.len(),
{
    if s.len() > 0 {
        lemma_usage_sum_bounds(s.drop_last());
    }
}

/// Mean usage over the cores (see `overall_usage`).
pub fn calculate_overall_cpu_usage(cores: &Vec<CoreReading>) -> (r: i64)
    ensures
        r == overall_usage(cores@),
        0 <= r <= PERCENT_FULL,
{
    if cores.len() == 0 {
        return 0;
    }
    let mut sum: i128 = 0;
    let mut i: usize = 0;
    while i < cores.len()
        invariant
            i <= cores.len(),
            sum == usage_sum(cores@.subrange(0, i as int)),
        decreases cores.len() - i,
    {
        proof {
            assert(cores@.subrange(0, i as int + 1).drop_last() =~= cores@.subrange(0, i as int));
            lemma_usage_sum_bounds(cores@.subrange(0, i as int));
            let k: int = i as int;
            assert(k * PERCENT_FULL + PERCENT_FULL <= usize::MAX * 100000000) by (nonlinear_arith)
                requires
                    0 <= k < usize::MAX,
            ;
        }
        sum = sum + core_usage(&cores[i]) as i128;
        i = i + 1;
    }
    assert(cores@.subrange(0, cores@.len() as int) =~= cores@);
    proof {
        lemma_usage_sum_bounds(cores@);
        let n = cores@.len() as int;
        assert(0 <= usage_sum(cores@) / n <= PERCENT_FULL) by (nonlinear_arith)
            requires
                0 <= usage_sum(cores@) <= n * PERCENT_FULL,
                n > 0,
        ;
    }
    (sum / (cores.len() as i128)) as i64
}

/// Threads over all processes (see `thread_total`).
pub fn total_threads(thread_counts: &Vec<Option<u64>>) -> (r: u64)
    ensures
        r == thread_total(thread_counts@),
{
    let mut total: u64 = 0;
    let mut i: usize = 0;
    while i < thread_counts.len()
        invariant
            i <= thread_counts.len(),
            total == thread_total(thread_counts@.subrange(0, i as int)),
        decreases thread_counts.len() - i,
    {
        proof {
            assert(thread_counts@.subrange(0, i as int + 1).drop_last() =~= thread_counts@.subrange(0, i as int));
        }
        let n: u64 = match thread_counts[i] {
            Some(n) => n,
            None => 1,
        };
        total = total.saturating_add(n);
        i = i + 1;
    }
    assert(thread_counts@.subrange(0, thread_counts@.len() as int) =~= thread_counts@);
    total
}

/// CPU sampler; usage figures come computed from the platform, so it keeps
/// no state between samples.
pub struct CpuMonitor {}

impl CpuMonitor {
    pub fn new() -> (r: Self) {
        CpuMonitor {}
    }

    /// Samples one CPU reading.
    pub fn get_metrics(&mut self, reading: &CpuReading) -> (r: MetricSnapshot)
        ensures
            r.wf(),
            r@ == cpu_snapshot(*reading),
    {
        let cores = &reading.cores;
        let mut m = MetricSnapshot::new();
        let mut i: usize = 0;
        while i < cores.len()
            invariant
                i <= cores.len(),
                m.wf(),
                m@ == core_entries(Map::empty(), cores@.subrange(0, i as int)),
            decreases cores.len() - i,
        {
            proof {
                let next = cores@.subrange(0, i as int + 1);
                assert(next.drop_last() =~= cores@.subrange(0, i as int));
                assert(next.last() == cores@[i as int]);
            }
            m.insert(
                indexed_key("cpu.core", i as u64, ".usage_percent"),
                MetricValue::Float(core_usage(&cores[i])),
            );
            m.insert(
                indexed_key("cpu.core", i as u64, ".frequency_mhz"),
                MetricValue::Float(frequency_value(cores[i].frequency_mhz)),
            );
            i = i + 1;
        }
        assert(cores@.subrange(0, cores@.len() as int) =~= cores@);
        m.insert(owned("cpu.count"), count_metric(cores.len() as u64));
        match &reading.load_average {
            Some(l) => {
                m.insert(owned("cpu.load_avg_1min"), MetricValue::Float(l.one));
                m.insert(owned("cpu.load_avg_5min"), MetricValue::Float(l.five));
                m.insert(owned("cpu.load_avg_15min"), MetricValue::Float(l.fifteen));
            },
            None => {},
        }
        m.insert(owned("cpu.process_count"), count_metric(reading.thread_counts.len() as u64));
        m.insert(owned("cpu.thread_count"), count_metric(total_threads(&reading.thread_counts)));
        match reading.temperature {
            Some(t) => {
                m.insert(owned("cpu.temperature_celsius"), MetricValue::Float(t));
            },
            None => {},
        }
        if cores.len() > 0 {
            m.insert(owned("cpu.brand"), MetricValue::Text(cores[0].brand.clone()));
        }
        m.insert(owned("cpu.usage_percent"), MetricValue::Float(calculate_overall_cpu_usage(cores)));
        m
    }
}

/// The overall usage of a sample lies between 0 and 100 percent, and is 0
/// when no core was read.
pub proof fn lemma_cpu_usage_bounds(r: CpuReading)
    ensures
        cpu_snapshot(r)["cpu.usage_percent"@] == MetricValue::Float(overall_usage(r.cores@) as i64),
        0 <= overall_usage(r.cores@) <= PERCENT_FULL,
        r.cores@.len() == 0 ==> overall_usage(r.cores@) == 0,
{
    lemma_usage_sum_bounds(r.cores@);
    if r.cores@.len() > 0 {
        let n = r.cores@.len() as int;
        assert(0 <= usage_sum(r.cores@) / n <= PERCENT_FULL) by (nonlinear_arith)
            requires
                0 <= usage_sum(r.cores@) <= n * PERCENT_FULL,
                n > 0,
        ;
    }
}

proof fn lemma_core_entries_in_range(s: Seq<CoreReading>)
    ensures
        usage_entries_in_range(core_entries(Map::empty(), s)),
    decreases s.len(),
{
    if s.len() > 0 {
        lemma_core_entries_in_range(s.drop_last());
        let i = (s.len() - 1) as nat;
        reveal_strlit(".frequency_mhz");
        assert(".frequency_mhz"@.len() == 14);
        let kf = "cpu.core"@ + decimal(i) + ".frequency_mhz"@;
        assert(kf[kf.len() - 13] == ".frequency_mhz"@[1]);
        assert(".frequency_mhz"@[1] == 'f');
        lemma_not_usage_key(kf);
    }
}

/// Every usage percentage of a CPU sample, per core and overall, lies
/// between 0 and 100.
pub proof fn lemma_cpu_usage_entries_in_range(r: CpuReading)
    ensures
        usage_entries_in_range(cpu_snapshot(r)),
{
    lemma_core_entries_in_range(r.cores@);
    lemma_cpu_usage_bounds(r);
    reveal_strlit("cpu.count");
    assert("cpu.count"@.len() == 9);
    lemma_not_usage_key("cpu.count"@);
    reveal_strlit("cpu.load_avg_1min");
    assert("cpu.load_avg_1min"@.len() == 17);
    assert("cpu.load_avg_1min"@[4] != 'u');
    lemma_not_usage_key("cpu.load_avg_1min"@);
    reveal_strlit("cpu.load_avg_5min");
    assert("cpu.load_avg_5min"@.len() == 17);
    assert("cpu.load_avg_5min"@[4] != 'u');
    lemma_not_usage_key("cpu.load_avg_5min"@);
    reveal_strlit("cpu.load_avg_15min");
    assert("cpu.load_avg_15min"@.len() == 18);
    assert("cpu.load_avg_15min"@[5] != 'u');
    lemma_not_usage_key("cpu.load_avg_15min"@);
    reveal_strlit("cpu.process_count");
    assert("cpu.process_count"@.len() == 17);
    assert("cpu.process_count"@[4] != 'u');
    lemma_not_usage_key("cpu.process_count"@);
    reveal_strlit("cpu.thread_count");
    assert("cpu.thread_count"@.len() == 16);
    assert("cpu.thread_count"@[3] != 'u');
    lemma_not_usage_key("cpu.thread_count"@);
    reveal_strlit("cpu.temperature_celsius");
    assert("cpu.temperature_celsius"@.len() == 23);
    assert("cpu.temperature_celsius"@[10] != 'u');
    lemma_not_usage_key("cpu.temperature_celsius"@);
    reveal_strlit("cpu.brand");
    assert("cpu.brand"@.len() == 9);
    lemma_not_usage_key("cpu.brand"@);
}

} // verus!
