//! The HTTP surface's response shapes, and how monitor snapshots fill them.

use vstd::prelude::*;
use vstd::string::*;
use crate::metric::{MetricSnapshot, MetricValue, FRACTION_SCALE};
use crate::text::{decimal, digit_value, indexed_key, is_digit, owned, push_decimal, starts_with};

verus! {

/// Static platform descriptor.
pub struct SystemInfoResponse {
    pub platform: String,
    pub architecture: String,
    pub cpu_model: String,
    pub cpu_cores: usize,
    pub cpu_threads: usize,
    pub memory_total: u64,
    pub swap_total: u64,
    pub disk_total: u64,
    pub gpu_count: usize,
    pub gpu_info: Vec<String>,
    pub hostname: String,
    pub ip_address: String,
}

/// One node's full structured sample. Fractional fields here and below are
/// in millionths of their unit.
pub struct SystemMetricsResponse {
    pub node_id: String,
    /// Milliseconds since the Unix epoch.
    pub timestamp: i64,
    pub cpu: CpuMetrics,
    pub memory: MemoryMetrics,
    pub disk: DiskMetrics,
    pub network: NetworkMetrics,
    pub accelerators: Vec<AcceleratorMetrics>,
}

pub struct CpuMetrics {
    pub overall: i64,
    pub cores: Vec<CpuCoreMetrics>,
    pub load_average: Vec<i64>,
    pub processes: i64,
    pub threads: i64,
}

#[derive(Debug, PartialEq)]
pub struct CpuCoreMetrics {
    pub id: usize,
    pub usage: i64,
    pub frequency: i64,
    pub temperature: Option<i64>,
}

#[derive(Debug, PartialEq)]
pub struct MemoryMetrics {
    pub usage: i64,
    pub used: u64,
    pub total: u64,
    pub swap: SwapMetrics,
}

#[derive(Debug, PartialEq)]
pub struct SwapMetrics {
    pub used: u64,
    pub total: u64,
    pub percentage: i64,
}

#[derive(Debug, PartialEq)]
pub struct DiskMetrics {
    pub usage: i64,
    pub used: u64,
    pub total: u64,
    pub io_read: u64,
    pub io_write: u64,
    pub iops: i64,
}

#[derive(Debug, PartialEq)]
pub struct NetworkMetrics {
    pub bytes_in: u64,
    pub bytes_out: u64,
    pub packets_in: u64,
    pub packets_out: u64,
    pub connections: i64,
}

pub struct AcceleratorMetrics {
    pub id: usize,
    pub device_type: String,
    pub name: String,
    pub utilization: i64,
    pub memory: AcceleratorMemoryMetrics,
    pub temperature: i64,
    pub power: Option<i64>,
    pub fan_speed: Option<i64>,
}

#[derive(Debug, PartialEq)]
pub struct AcceleratorMemoryMetrics {
    pub used: u64,
    pub total: u64,
    pub percentage: i64,
}

/// Query of the metrics route: an optional node identifier.
pub struct MetricsQuery {
    pub node_id: Option<String>,
}

/// `n` held within the signed 64-bit range.
pub open spec fn clamp_i64(n: int) -> i64 {
    if n > i64::MAX {
        i64::MAX
    } else if n < i64::MIN {
        i64::MIN
    } else {
        n as i64
    }
}

/// Division that rounds toward zero.
pub open spec fn div_toward_zero(n: int, d: int) -> int {
    if n >= 0 {
        n / d
    } else {
        -((-n) / d)
    }
}

/// A value read as a fractional number: an integer counts as that many whole units.
pub open spec fn float_of(v: MetricValue) -> Option<i64> {
    match v {
        MetricValue::Float(f) => Some(f),
        MetricValue::Int(i) => Some(clamp_i64(i * FRACTION_SCALE)),
        _ => None,
    }
}

/// A value read as an integer: a fractional number loses its fraction.
pub open spec fn int_of(v: MetricValue) -> Option<i64> {
    match v {
        MetricValue::Int(i) => Some(i),
        MetricValue::Float(f) => Some(div_toward_zero(f as int, FRACTION_SCALE as int) as i64),
        _ => None,
    }
}

pub open spec fn text_of(v: MetricValue) -> Option<Seq<char>> {
    match v {
        MetricValue::Text(s) => Some(s@),
        _ => None,
    }
}

pub open spec fn float_at(m: Map<Seq<char>, MetricValue>, k: Seq<char>) -> Option<i64> {
    if m.contains_key(k) {
        float_of(m[k])
    } else {
        None
    }
}

pub open spec fn int_at(m: Map<Seq<char>, MetricValue>, k: Seq<char>) -> Option<i64> {
    if m.contains_key(k) {
        int_of(m[k])
    } else {
        None
    }
}

pub open spec fn text_at(m: Map<Seq<char>, MetricValue>, k: Seq<char>) -> Option<Seq<char>> {
    if m.contains_key(k) {
        text_of(m[k])
    } else {
        None
    }
}

pub open spec fn or_zero(o: Option<i64>) -> i64 {
    match o {
        Some(v) => v,
        None => 0,
    }
}

/// The value under `key` as a fractional number (millionths), if it is numeric.
pub fn get_float(metrics: &MetricSnapshot, key: &str) -> (r: Option<i64>)
    requires
        metrics.wf(),
    ensures
        r == float_at(metrics@, key@),
{
    match metrics.get(key) {
        Some(MetricValue::Float(v)) => Some(*v),
        Some(MetricValue::Int(v)) => {
            let w: i128 = *v as i128;
            assert(i64::MIN * 1000000 <= w * 1000000 <= i64::MAX * 1000000) by (nonlinear_arith)
                requires
                    i64::MIN <= w <= i64::MAX,
            ;
            let scaled: i128 = w * 1000000;
            if scaled > i64::MAX as i128 {
                Some(i64::MAX)
            } else if scaled < i64::MIN as i128 {
                Some(i64::MIN)
            } else {
                Some(scaled as i64)
            }
        },
        _ => None,
    }
}

/// The value under `key` as an integer, if it is numeric.
pub fn get_int(metrics: &MetricSnapshot, key: &str) -> (r: Option<i64>)
    requires
        metrics.wf(),
    ensures
        r == int_at(metrics@, key@),
{
    match metrics.get(key) {
        Some(MetricValue::Int(v)) => Some(*v),
        Some(MetricValue::Float(v)) => {
            let f: i64 = *v;
            if f >= 0 {
                Some(f / FRACTION_SCALE)
            } else {
                let magnitude: u64 = (-(f as i128)) as u64;
                let q: u64 = magnitude / 1000000u64;
                assert(q <= 9223372036855);
                Some(-(q as i64))
            }
        },
        _ => None,
    }
}

/// The value under `key`, if it is text.
pub fn get_string(metrics: &MetricSnapshot, key: &str) -> (r: Option<String>)
    requires
        metrics.wf(),
    ensures
        match r {
            Some(s) => text_at(metrics@, key@) == Some(s@),
            None => text_at(metrics@, key@) is None,
        },
{
    match metrics.get(key) {
        Some(MetricValue::Text(s)) => Some(s.clone()),
        _ => None,
    }
}

/// Value of the leading run of digits of `s`, up to its first dot or its
/// end, continuing from `acc`; `None` when a non-digit comes first, or when no
/// digit was seen at all.
pub open spec fn segment_value(s: Seq<char>, acc: nat, seen: bool) -> Option<nat>
    decreases s.len(),
{
    if s.len() == 0 || s[0] == '.' {
        if seen {
            Some(acc)
        } else {
            None
        }
    } else if is_digit(s[0]) {
        segment_value(s.subrange(1, s.len() as int), acc * 10 + digit_value(s[0]), true)
    } else {
        None
    }
}

/// Accelerator metrics are keyed `accelerator.<index>.<field>`.
pub open spec fn accelerator_index(k: Seq<char>) -> Option<nat> {
    let p = "accelerator."@;
    if p.len() <= k.len() && k.subrange(0, p.len() as int) == p {
        match segment_value(k.subrange(p.len() as int, k.len() as int), 0, false) {
            Some(v) => if v <= usize::MAX {
                Some(v)
            } else {
                None
            },
            None => None,
        }
    } else {
        None
    }
}

proof fn lemma_segment_value_grows(s: Seq<char>, acc: nat, seen: bool)
    ensures
        segment_value(s, acc, seen) matches Some(v) ==> v >= acc,
    decreases s.len(),
{
    if s.len() > 0 && s[0] != '.' && is_digit(s[0]) {
        lemma_segment_value_grows(s.subrange(1, s.len() as int), acc * 10 + digit_value(s[0]), true);
    }
}

/// The accelerator index that `key` names, if it is an accelerator metric.
pub fn accelerator_index_of(key: &str) -> (r: Option<usize>)
    ensures
        accelerator_index(key@) == match r {
            Some(v) => Some(v as nat),
            None => None,
        },
{
    proof {
        reveal_strlit("accelerator.");
        assert("accelerator."@.len() == 12);
    }
    if !starts_with(key, "accelerator.") {
        assert(!("accelerator."@.len() <= key@.len() && key@.subrange(0, 12) == "accelerator."@));
        assert(accelerator_index(key@) is None);
        return None;
    }
    let n = key.unicode_len();
    let mut i: usize = 12;
    let mut acc: usize = 0;
    let mut seen = false;
    let ghost whole = key@.subrange(12, n as int);
    while i < n
        invariant
            12 <= i <= n,
            n == key@.len(),
            whole == key@.subrange(12, n as int),
            "accelerator."@.len() == 12,
            key@.subrange(0, 12) == "accelerator."@,
            segment_value(whole, 0, false) == segment_value(key@.subrange(i as int, n as int), acc as nat, seen),
        ensures
            "accelerator."@.len() == 12,
            key@.subrange(0, 12) == "accelerator."@,
            segment_value(whole, 0, false) == if seen {
                Some(acc as nat)
            } else {
                None
            },
        decreases n - i,
    {
        let c = key.get_char(i);
        let ghost rest = key@.subrange(i as int, n as int);
        assert(rest[0] == c);
        if c == '.' {
            break;
        }
        assert(key@.subrange(i as int + 1, n as int).len() < rest.len());
        if !('0' <= c && c <= '9') {
            return None;
        }
        assert(rest.subrange(1, rest.len() as int) =~= key@.subrange(i as int + 1, n as int));
        let d: usize = (c as u32 - '0' as u32) as usize;
        proof {
            lemma_segment_value_grows(key@.subrange(i as int + 1, n as int), (acc * 10 + d) as nat, true);
        }
        if acc > (usize::MAX - d) / 10 {
            return None;
        }
        acc = acc * 10 + d;
        seen = true;
        i = i + 1;
        if i == n {
            assert(key@.subrange(i as int, n as int).len() == 0);
        }
    }
    if seen {
        Some(acc)
    } else {
        None
    }
}

/// The accelerator indices that the keys of `m` name.
pub open spec fn has_accelerator(m: Map<Seq<char>, MetricValue>, id: nat) -> bool {
    exists|k: Seq<char>| m.contains_key(k) && accelerator_index(k) == Some(id)
}

pub open spec fn strictly_increasing(s: Seq<usize>) -> bool {
    forall|i: int, j: int| 0 <= i < j < s.len() ==> s[i] < s[j]
}

/// Inserts `x` into the increasing `v`, keeping it increasing and free of repeats.
fn insert_sorted(v: &mut Vec<usize>, x: usize)
    requires
        strictly_increasing(old(v)@),
    ensures
        strictly_increasing(final(v)@),
        forall|y: usize| final(v)@.contains(y) <==> (old(v)@.contains(y) || y == x),
{
    let mut i: usize = 0;
    while i < v.len()
        invariant
            i <= v.len(),
            v@ == old(v)@,
            strictly_increasing(v@),
            forall|j: int| 0 <= j < i ==> v@[j] < x,
        ensures
            i <= v.len(),
            v@ == old(v)@,
            strictly_increasing(v@),
            forall|j: int| 0 <= j < i ==> v@[j] < x,
            i < v.len() ==> v@[i as int] > x,
        decreases v.len() - i,
    {
        if v[i] == x {
            assert(v@[i as int] == x);
            assert(v@.contains(x));
            return;
        }
        if v[i] > x {
            break;
        }
        i = i + 1;
    }
    let ghost before = v@;
    v.insert(i, x);
    assert(v@ == before.insert(i as int, x));
    proof {
        before.insert_ensures(i as int, x);
        assert forall|a: int, b: int| 0 <= a < b < v@.len() implies v@[a] < v@[b] by {
            if b < i {
            } else if b == i {
            } else if a < i {
                assert(v@[b] == before[b - 1]);
            } else if a == i {
                assert(v@[b] == before[b - 1]);
                assert(before[i as int] <= before[b - 1]);
            } else {
                assert(v@[a] == before[a - 1]);
                assert(v@[b] == before[b - 1]);
            }
        }
    }
    assert forall|y: usize| v@.contains(y) <==> (before.contains(y) || y == x) by {
        if before.contains(y) {
            let j = choose|j: int| 0 <= j < before.len() && before[j] == y;
            if j < i {
                assert(v@[j] == y);
            } else {
                assert(v@[j + 1] == y);
            }
        }
        if v@.contains(y) {
            let j = choose|j: int| 0 <= j < v@.len() && v@[j] == y;
            if j < i {
                assert(before[j] == y);
            } else if j > i {
                assert(before[j - 1] == y);
            }
        }
        if y == x {
            assert(v@[i as int] == x);
        }
    }
}

/// The accelerator indices named by the keys of `gpu`, increasing and without
/// repeats; indices are found by scanning keys, so gaps are kept as gaps.
pub fn accelerator_indices(gpu: &MetricSnapshot) -> (r: Vec<usize>)
    requires
        gpu.wf(),
    ensures
        strictly_increasing(r@),
        forall|id: usize| r@.contains(id) <==> has_accelerator(gpu@, id as nat),
{
    proof {
        gpu.lemma_entries_mapping();
    }
    let mut ids: Vec<usize> = Vec::new();
    let mut i: usize = 0;
    while i < gpu.len()
        invariant
            gpu.wf(),
            i <= gpu.entry_seq().len(),
            strictly_increasing(ids@),
            forall|id: usize| ids@.contains(id) <==> exists|j: int|
                0 <= j < i && accelerator_index((#[trigger] gpu.entry_seq()[j]).0@) == Some(id as nat),
        decreases gpu.entry_seq().len() - i,
    {
        let e = gpu.entry(i);
        match accelerator_index_of(e.0.as_str()) {
            Some(id) => {
                let ghost old_ids = ids@;
                insert_sorted(&mut ids, id);
                assert forall|y: usize| ids@.contains(y) <==> exists|j: int|
                    0 <= j < i + 1 && accelerator_index((#[trigger] gpu.entry_seq()[j]).0@) == Some(y as nat) by {
                    if y == id {
                        assert(gpu.entry_seq()[i as int] == *e);
                    }
                    if exists|j: int| 0 <= j < i + 1 && accelerator_index((#[trigger] gpu.entry_seq()[j]).0@) == Some(y as nat) {
                        let j = choose|j: int| 0 <= j < i + 1 && accelerator_index((#[trigger] gpu.entry_seq()[j]).0@) == Some(y as nat);
                        if j == i {
                            assert(y == id);
                        } else {
                            assert(old_ids.contains(y));
                        }
                    }
                }
            },
            None => {
                assert forall|y: usize| ids@.contains(y) <==> exists|j: int|
                    0 <= j < i + 1 && accelerator_index((#[trigger] gpu.entry_seq()[j]).0@) == Some(y as nat) by {
                    if exists|j: int| 0 <= j < i + 1 && accelerator_index((#[trigger] gpu.entry_seq()[j]).0@) == Some(y as nat) {
                        let j = choose|j: int| 0 <= j < i + 1 && accelerator_index((#[trigger] gpu.entry_seq()[j]).0@) == Some(y as nat);
                        assert(j != i);
                    }
                }
            },
        }
        i = i + 1;
    }
    assert forall|id: usize| ids@.contains(id) <==> has_accelerator(gpu@, id as nat) by {
        if has_accelerator(gpu@, id as nat) {
            let k = choose|k: Seq<char>| gpu@.contains_key(k) && accelerator_index(k) == Some(id as nat);
            assert(gpu@.contains_key(k));
            let j = choose|j: int| 0 <= j < gpu.entry_seq().len() && (#[trigger] gpu.entry_seq()[j]).0@ == k;
            assert(accelerator_index((gpu.entry_seq()[j]).0@) == Some(id as nat));
        }
        if ids@.contains(id) {
            let j = choose|j: int| 0 <= j < gpu.entry_seq().len() && accelerator_index((#[trigger] gpu.entry_seq()[j]).0@) == Some(id as nat);
            let k = gpu.entry_seq()[j].0@;
            assert(gpu@.contains_key(k));
        }
    }
    ids
}

pub open spec fn core_count(cpu: Map<Seq<char>, MetricValue>) -> nat {
    match int_at(cpu, "cpu.count"@) {
        Some(v) => if v < 0 {
            0
        } else if v > usize::MAX {
            usize::MAX as nat
        } else {
            v as nat
        },
        None => 1,
    }
}

pub open spec fn core_key(i: nat, field: Seq<char>) -> Seq<char> {
    "cpu.core"@ + decimal(i) + field
}

/// The CPU section as the CPU snapshot `cpu` gives it.
pub open spec fn cpu_section_of(c: CpuMetrics, cpu: Map<Seq<char>, MetricValue>) -> bool {
    &&& c.overall == or_zero(float_at(cpu, "cpu.usage_percent"@))
    &&& c.cores@.len() == core_count(cpu)
    &&& forall|i: int|
        0 <= i < c.cores@.len() ==> {
            let core = #[trigger] c.cores@[i];
            &&& core.id == i
            &&& core.usage == or_zero(float_at(cpu, core_key(i as nat, ".usage_percent"@)))
            &&& core.frequency == or_zero(float_at(cpu, core_key(i as nat, ".frequency_mhz"@)))
            &&& core.temperature == float_at(cpu, "cpu.temperature_celsius"@)
        }
    &&& c.load_average@ == seq![
        or_zero(float_at(cpu, "cpu.load_avg_1min"@)),
        or_zero(float_at(cpu, "cpu.load_avg_5min"@)),
        or_zero(float_at(cpu, "cpu.load_avg_15min"@)),
    ]
    &&& c.processes == or_zero(int_at(cpu, "cpu.process_count"@))
    &&& c.threads == or_zero(int_at(cpu, "cpu.thread_count"@))
}

pub open spec fn memory_section_of(m: MemoryMetrics, mem: Map<Seq<char>, MetricValue>) -> bool {
    &&& m.usage == or_zero(float_at(mem, "memory.usage_percent"@))
    &&& m.used == or_zero(int_at(mem, "memory.used_bytes"@)) as u64
    &&& m.total == or_zero(int_at(mem, "memory.total_bytes"@)) as u64
    &&& m.swap.used == or_zero(int_at(mem, "memory.swap_used_bytes"@)) as u64
    &&& m.swap.total == or_zero(int_at(mem, "memory.swap_total_bytes"@)) as u64
    &&& m.swap.percentage == or_zero(float_at(mem, "memory.swap_usage_percent"@))
}

pub open spec fn disk_section_of(d: DiskMetrics, disk: Map<Seq<char>, MetricValue>) -> bool {
    &&& d.usage == or_zero(float_at(disk, "disk.usage_percent"@))
    &&& d.used == or_zero(int_at(disk, "disk.used_bytes"@)) as u64
    &&& d.total == or_zero(int_at(disk, "disk.total_bytes"@)) as u64
    &&& d.io_read == or_zero(int_at(disk, "disk.io_read_bytes_per_sec"@)) as u64
    &&& d.io_write == or_zero(int_at(disk, "disk.io_write_bytes_per_sec"@)) as u64
    &&& d.iops == or_zero(int_at(disk, "disk.io_total_ops_per_sec"@))
}

pub open spec fn network_section_of(n: NetworkMetrics, net: Map<Seq<char>, MetricValue>) -> bool {
    &&& n.bytes_in == or_zero(int_at(net, "network.rx_bytes_per_sec"@)) as u64
    &&& n.bytes_out == or_zero(int_at(net, "network.tx_bytes_per_sec"@)) as u64
    &&& n.packets_in == or_zero(int_at(net, "network.rx_packets_per_sec"@)) as u64
    &&& n.packets_out == or_zero(int_at(net, "network.tx_packets_per_sec"@)) as u64
    &&& n.connections == or_zero(int_at(net, "network.connections_active"@))
}

pub open spec fn accelerator_key(id: nat, field: Seq<char>) -> Seq<char> {
    "accelerator."@ + decimal(id) + field
}

/// The entry of accelerator `id` as the accelerator snapshot `gpu` gives it.
pub open spec fn accelerator_of(a: AcceleratorMetrics, id: usize, gpu: Map<Seq<char>, MetricValue>) -> bool {
    &&& a.id == id
    &&& a.device_type@ == "gpu"@
    &&& a.name@ == match text_at(gpu, accelerator_key(id as nat, ".name"@)) {
        Some(t) => t,
        None => "GPU "@ + decimal(id as nat),
    }
    &&& a.utilization == or_zero(float_at(gpu, accelerator_key(id as nat, ".gpu_utilization"@)))
    &&& a.memory.used == or_zero(int_at(gpu, accelerator_key(id as nat, ".memory_used"@))) as u64
    &&& a.memory.total == or_zero(int_at(gpu, accelerator_key(id as nat, ".memory_total"@))) as u64
    &&& a.memory.percentage == or_zero(
        float_at(gpu, accelerator_key(id as nat, ".memory_utilization"@)),
    )
    &&& a.temperature == or_zero(float_at(gpu, accelerator_key(id as nat, ".temperature"@)))
    &&& a.power == float_at(gpu, accelerator_key(id as nat, ".power_usage"@))
    &&& a.fan_speed == float_at(gpu, accelerator_key(id as nat, ".fan_speed"@))
}

fn float_or_zero(m: &MetricSnapshot, key: &str) -> (r: i64)
    requires
        m.wf(),
    ensures
        r == or_zero(float_at(m@, key@)),
{
    match get_float(m, key) {
        Some(v) => v,
        None => 0,
    }
}

fn int_or_zero(m: &MetricSnapshot, key: &str) -> (r: i64)
    requires
        m.wf(),
    ensures
        r == or_zero(int_at(m@, key@)),
{
    match get_int(m, key) {
        Some(v) => v,
        None => 0,
    }
}

/// The CPU section of a response.
pub fn cpu_section(cpu: &MetricSnapshot) -> (r: CpuMetrics)
    requires
        cpu.wf(),
    ensures
        cpu_section_of(r, cpu@),
{
    let count: usize = match get_int(cpu, "cpu.count") {
        Some(v) => if v < 0 {
            0
        } else if v as u64 > usize::MAX as u64 {
            usize::MAX
        } else {
            v as usize
        },
        None => 1,
    };
    let temperature = get_float(cpu, "cpu.temperature_celsius");
    let mut cores: Vec<CpuCoreMetrics> = Vec::new();
    let mut i: usize = 0;
    while i < count
        invariant
            cpu.wf(),
            i <= count,
            count == core_count(cpu@),
            temperature == float_at(cpu@, "cpu.temperature_celsius"@),
            cores@.len() == i,
            forall|j: int|
                0 <= j < i ==> {
                    let core = #[trigger] cores@[j];
                    &&& core.id == j
                    &&& core.usage == or_zero(float_at(cpu@, core_key(j as nat, ".usage_percent"@)))
                    &&& core.frequency == or_zero(float_at(cpu@, core_key(j as nat, ".frequency_mhz"@)))
                    &&& core.temperature == float_at(cpu@, "cpu.temperature_celsius"@)
                },
        decreases count - i,
    {
        let usage_key = indexed_key("cpu.core", i as u64, ".usage_percent");
        let frequency_key = indexed_key("cpu.core", i as u64, ".frequency_mhz");
        let core = CpuCoreMetrics {
            id: i,
            usage: float_or_zero(cpu, usage_key.as_str()),
            frequency: float_or_zero(cpu, frequency_key.as_str()),
            temperature,
        };
        cores.push(core);
        i = i + 1;
    }
    let mut load_average: Vec<i64> = Vec::new();
    load_average.push(float_or_zero(cpu, "cpu.load_avg_1min"));
    load_average.push(float_or_zero(cpu, "cpu.load_avg_5min"));
    load_average.push(float_or_zero(cpu, "cpu.load_avg_15min"));
    assert(load_average@ =~= seq![
        or_zero(float_at(cpu@, "cpu.load_avg_1min"@)),
        or_zero(float_at(cpu@, "cpu.load_avg_5min"@)),
        or_zero(float_at(cpu@, "cpu.load_avg_15min"@)),
    ]);
    CpuMetrics {
        overall: float_or_zero(cpu, "cpu.usage_percent"),
        cores,
        load_average,
        processes: int_or_zero(cpu, "cpu.process_count"),
        threads: int_or_zero(cpu, "cpu.thread_count"),
    }
}

/// The memory section of a response.
pub fn memory_section(mem: &MetricSnapshot) -> (r: MemoryMetrics)
    requires
        mem.wf(),
    ensures
        memory_section_of(r, mem@),
{
    MemoryMetrics {
        usage: float_or_zero(mem, "memory.usage_percent"),
        used: int_or_zero(mem, "memory.used_bytes") as u64,
        total: int_or_zero(mem, "memory.total_bytes") as u64,
        swap: SwapMetrics {
            used: int_or_zero(mem, "memory.swap_used_bytes") as u64,
            total: int_or_zero(mem, "memory.swap_total_bytes") as u64,
            percentage: float_or_zero(mem, "memory.swap_usage_percent"),
        },
    }
}

/// The disk section of a response.
pub fn disk_section(disk: &MetricSnapshot) -> (r: DiskMetrics)
    requires
        disk.wf(),
    ensures
        disk_section_of(r, disk@),
{
    DiskMetrics {
        usage: float_or_zero(disk, "disk.usage_percent"),
        used: int_or_zero(disk, "disk.used_bytes") as u64,
        total: int_or_zero(disk, "disk.total_bytes") as u64,
        io_read: int_or_zero(disk, "disk.io_read_bytes_per_sec") as u64,
        io_write: int_or_zero(disk, "disk.io_write_bytes_per_sec") as u64,
        iops: int_or_zero(disk, "disk.io_total_ops_per_sec"),
    }
}

/// The network section of a response.
pub fn network_section(net: &MetricSnapshot) -> (r: NetworkMetrics)
    requires
        net.wf(),
    ensures
        network_section_of(r, net@),
{
    NetworkMetrics {
        bytes_in: int_or_zero(net, "network.rx_bytes_per_sec") as u64,
        bytes_out: int_or_zero(net, "network.tx_bytes_per_sec") as u64,
        packets_in: int_or_zero(net, "network.rx_packets_per_sec") as u64,
        packets_out: int_or_zero(net, "network.tx_packets_per_sec") as u64,
        connections: int_or_zero(net, "network.connections_active"),
    }
}

/// The entry of accelerator `id`.
pub fn accelerator_entry(gpu: &MetricSnapshot, id: usize) -> (r: AcceleratorMetrics)
    requires
        gpu.wf(),
    ensures
        accelerator_of(r, id, gpu@),
{
    let n = id as u64;
    let name_key = indexed_key("accelerator.", n, ".name");
    let name = match get_string(gpu, name_key.as_str()) {
        Some(s) => s,
        None => {
            let mut s = owned("GPU ");
            push_decimal(&mut s, n);
            s
        },
    };
    let utilization_key = indexed_key("accelerator.", n, ".gpu_utilization");
    let used_key = indexed_key("accelerator.", n, ".memory_used");
    let total_key = indexed_key("accelerator.", n, ".memory_total");
    let percentage_key = indexed_key("accelerator.", n, ".memory_utilization");
    let temperature_key = indexed_key("accelerator.", n, ".temperature");
    let power_key = indexed_key("accelerator.", n, ".power_usage");
    let fan_key = indexed_key("accelerator.", n, ".fan_speed");
    AcceleratorMetrics {
        id,
        device_type: owned("gpu"),
        name,
        utilization: float_or_zero(gpu, utilization_key.as_str()),
        memory: AcceleratorMemoryMetrics {
            used: int_or_zero(gpu, used_key.as_str()) as u64,
            total: int_or_zero(gpu, total_key.as_str()) as u64,
            percentage: float_or_zero(gpu, percentage_key.as_str()),
        },
        temperature: float_or_zero(gpu, temperature_key.as_str()),
        power: get_float(gpu, power_key.as_str()),
        fan_speed: get_float(gpu, fan_key.as_str()),
    }
}

/// One entry per accelerator index found in `gpu`, in increasing index order.
pub fn accelerator_section(gpu: &MetricSnapshot) -> (r: Vec<AcceleratorMetrics>)
    requires
        gpu.wf(),
    ensures
        strictly_increasing(r@.map_values(|a: AcceleratorMetrics| a.id)),
        forall|id: usize| #![auto] r@.map_values(|a: AcceleratorMetrics| a.id).contains(id)
            <==> has_accelerator(gpu@, id as nat),
        forall|i: int| 0 <= i < r@.len() ==> accelerator_of(#[trigger] r@[i], r@[i].id, gpu@),
{
    let ids = accelerator_indices(gpu);
    let mut out: Vec<AcceleratorMetrics> = Vec::new();
    let mut i: usize = 0;
    while i < ids.len()
        invariant
            gpu.wf(),
            i <= ids.len(),
            out@.len() == i,
            forall|j: int| 0 <= j < i ==> (#[trigger] out@[j]).id == ids@[j],
            forall|j: int| 0 <= j < i ==> accelerator_of(#[trigger] out@[j], out@[j].id, gpu@),
        decreases ids.len() - i,
    {
        out.push(accelerator_entry(gpu, ids[i]));
        i = i + 1;
    }
    assert(out@.map_values(|a: AcceleratorMetrics| a.id) =~= ids@);
    out
}

/// Shapes the monitors' snapshots into the metrics response of `node_id`
/// taken at `timestamp` (milliseconds since the Unix epoch). Absent numeric
/// entries read as 0; every numeric value present is carried over unchanged.
pub fn convert_to_response(
    node_id: String,
    cpu_metrics: MetricSnapshot,
    memory_metrics: MetricSnapshot,
    disk_metrics: MetricSnapshot,
    network_metrics: MetricSnapshot,
    gpu_metrics: MetricSnapshot,
    timestamp: i64,
) -> (r: SystemMetricsResponse)
    requires
        cpu_metrics.wf(),
        memory_metrics.wf(),
        disk_metrics.wf(),
        network_metrics.wf(),
        gpu_metrics.wf(),
    ensures
        r.node_id@ == node_id@,
        r.timestamp == timestamp,
        cpu_section_of(r.cpu, cpu_metrics@),
        memory_section_of(r.memory, memory_metrics@),
        disk_section_of(r.disk, disk_metrics@),
        network_section_of(r.network, network_metrics@),
        strictly_increasing(r.accelerators@.map_values(|a: AcceleratorMetrics| a.id)),
        forall|id: usize| #![auto] r.accelerators@.map_values(|a: AcceleratorMetrics| a.id).contains(id)
            <==> has_accelerator(gpu_metrics@, id as nat),
        forall|i: int|
            0 <= i < r.accelerators@.len() ==> accelerator_of(
                #[trigger] r.accelerators@[i],
                r.accelerators@[i].id,
                gpu_metrics@,
            ),
{
    SystemMetricsResponse {
        node_id,
        timestamp,
        cpu: cpu_section(&cpu_metrics),
        memory: memory_section(&memory_metrics),
        disk: disk_section(&disk_metrics),
        network: network_section(&network_metrics),
        accelerators: accelerator_section(&gpu_metrics),
    }
}

/// The node identifier of a metrics request: the query's, else the service's default.
pub fn resolve_node_id(query: MetricsQuery, default_node_id: &String) -> (r: String)
    ensures
        r@ == match query.node_id {
            Some(n) => n@,
            None => default_node_id@,
        },
{
    match query.node_id {
        Some(n) => n,
        None => default_node_id.clone(),
    }
}

/// Body of the health route: status, service name and the time of the answer.
pub fn health_response(timestamp: String) -> (r: Vec<(String, String)>)
    ensures
        r@.len() == 3,
        r@[0].0@ == "status"@ && r@[0].1@ == "healthy"@,
        r@[1].0@ == "service"@ && r@[1].1@ == "system_monitor"@,
        r@[2].0@ == "timestamp"@ && r@[2].1@ == timestamp@,
{
    let mut r: Vec<(String, String)> = Vec::new();
    r.push((owned("status"), owned("healthy")));
    r.push((owned("service"), owned("system_monitor")));
    r.push((owned("timestamp"), timestamp));
    r
}

pub open spec fn sum_saturating(s: Seq<u64>) -> nat
    decreases s.len(),
{
    if s.len() == 0 {
        0
    } else {
        crate::network_monitor::sat_add(sum_saturating(s.drop_last()), s.last() as nat)
    }
}

/// The accelerator line of the platform descriptor.
pub open spec fn accelerator_line(count: u64, kind: Seq<char>) -> Seq<char> {
    decimal(count as nat) + " GPU(s) - "@ + kind
}

/// Builds the static platform descriptor from what was read of the platform:
/// the model name of each logical core, memory and swap totals, each disk's
/// size, and the accelerator count and kind where known. Missing names fall
/// back to fixed defaults.
pub fn system_info(
    platform: String,
    architecture: String,
    core_brands: &Vec<String>,
    memory_total: u64,
    swap_total: u64,
    disk_sizes: &Vec<u64>,
    accelerators: Option<(u64, String)>,
    hostname: Option<String>,
    ip_address: Option<String>,
) -> (r: SystemInfoResponse)
    ensures
        r.platform@ == platform@,
        r.architecture@ == architecture@,
        r.cpu_model@ == if core_brands@.len() > 0 {
            core_brands@[0]@
        } else {
            "Unknown"@
        },
        r.cpu_cores == core_brands@.len(),
        r.cpu_threads == core_brands@.len(),
        r.memory_total == memory_total,
        r.swap_total == swap_total,
        r.disk_total == sum_saturating(disk_sizes@),
        r.gpu_count == r.gpu_info@.len(),
        match accelerators {
            Some((count, kind)) => r.gpu_info@.len() == 1 && r.gpu_info@[0]@ == accelerator_line(count, kind@),
            None => r.gpu_info@.len() == 0,
        },
        r.hostname@ == match hostname {
            Some(h) => h@,
            None => "unknown"@,
        },
        r.ip_address@ == match ip_address {
            Some(a) => a@,
            None => "127.0.0.1"@,
        },
{
    let cpu_model = if core_brands.len() > 0 {
        core_brands[0].clone()
    } else {
        owned("Unknown")
    };
    let mut disk_total: u64 = 0;
    let mut i: usize = 0;
    while i < disk_sizes.len()
        invariant
            i <= disk_sizes.len(),
            disk_total == sum_saturating(disk_sizes@.subrange(0, i as int)),
        decreases disk_sizes.len() - i,
    {
        proof {
            assert(disk_sizes@.subrange(0, i as int + 1).drop_last() =~= disk_sizes@.subrange(0, i as int));
        }
        disk_total = disk_total.saturating_add(disk_sizes[i]);
        i = i + 1;
    }
    assert(disk_sizes@.subrange(0, disk_sizes@.len() as int) =~= disk_sizes@);
    let mut gpu_info: Vec<String> = Vec::new();
    match accelerators {
        Some((count, kind)) => {
            let mut line = String::new();
            push_decimal(&mut line, count);
            line.append(" GPU(s) - ");
            line.append(kind.as_str());
            gpu_info.push(line);
        },
        None => {},
    }
    let hostname = match hostname {
        Some(h) => h,
        None => owned("unknown"),
    };
    let ip_address = match ip_address {
        Some(a) => a,
        None => owned("127.0.0.1"),
    };
    let cpu_count = core_brands.len();
    let gpu_count = gpu_info.len();
    SystemInfoResponse {
        platform,
        architecture,
        cpu_model,
        cpu_cores: cpu_count,
        cpu_threads: cpu_count,
        memory_total,
        swap_total,
        disk_total,
        gpu_count,
        gpu_info,
        hostname,
        ip_address,
    }
}

/// A fractional value under `k` in `m` is the value of `field`.
pub open spec fn carries_fraction(m: Map<Seq<char>, MetricValue>, k: Seq<char>, field: i64) -> bool {
    m.contains_key(k) ==> (m[k] matches MetricValue::Float(v) ==> field == v)
}

/// An integer value under `k` in `m` is the value of `field`.
pub open spec fn carries_integer(m: Map<Seq<char>, MetricValue>, k: Seq<char>, field: i64) -> bool {
    m.contains_key(k) ==> (m[k] matches MetricValue::Int(v) ==> field == v)
}

/// A non-negative integer value under `k` in `m` is the value of `field`.
pub open spec fn carries_count(m: Map<Seq<char>, MetricValue>, k: Seq<char>, field: u64) -> bool {
    m.contains_key(k) ==> (m[k] matches MetricValue::Int(v) ==> (v >= 0 ==> field == v))
}

/// Every numeric value that a snapshot holds reaches the response unchanged:
/// fractional values keep their millionths, integers their value.
pub proof fn lemma_numeric_values_carried_over(
    r: SystemMetricsResponse,
    cpu: Map<Seq<char>, MetricValue>,
    mem: Map<Seq<char>, MetricValue>,
    disk: Map<Seq<char>, MetricValue>,
    net: Map<Seq<char>, MetricValue>,
)
    requires
        cpu_section_of(r.cpu, cpu),
        memory_section_of(r.memory, mem),
        disk_section_of(r.disk, disk),
        network_section_of(r.network, net),
    ensures
        carries_fraction(cpu, "cpu.usage_percent"@, r.cpu.overall),
        carries_integer(cpu, "cpu.process_count"@, r.cpu.processes),
        carries_integer(cpu, "cpu.thread_count"@, r.cpu.threads),
        carries_fraction(mem, "memory.usage_percent"@, r.memory.usage),
        carries_count(mem, "memory.used_bytes"@, r.memory.used),
        carries_count(mem, "memory.total_bytes"@, r.memory.total),
        carries_count(mem, "memory.swap_used_bytes"@, r.memory.swap.used),
        carries_count(mem, "memory.swap_total_bytes"@, r.memory.swap.total),
        carries_fraction(mem, "memory.swap_usage_percent"@, r.memory.swap.percentage),
        carries_fraction(disk, "disk.usage_percent"@, r.disk.usage),
        carries_count(disk, "disk.used_bytes"@, r.disk.used),
        carries_count(disk, "disk.total_bytes"@, r.disk.total),
        carries_count(disk, "disk.io_read_bytes_per_sec"@, r.disk.io_read),
        carries_count(disk, "disk.io_write_bytes_per_sec"@, r.disk.io_write),
        carries_integer(disk, "disk.io_total_ops_per_sec"@, r.disk.iops),
        carries_count(net, "network.rx_bytes_per_sec"@, r.network.bytes_in),
        carries_count(net, "network.tx_bytes_per_sec"@, r.network.bytes_out),
        carries_count(net, "network.rx_packets_per_sec"@, r.network.packets_in),
        carries_count(net, "network.tx_packets_per_sec"@, r.network.packets_out),
        carries_integer(net, "network.connections_active"@, r.network.connections),
{
}

} // verus!
