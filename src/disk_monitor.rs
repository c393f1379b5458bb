//! Disk sampling: space per mount and in total, and I/O throughput of whole
//! devices.

use vstd::prelude::*;
use vstd::string::*;
use crate::metric::{
    count_int, count_metric, lemma_not_usage_key, lemma_percent_bounds, percent, percent_of,
    usage_entries_in_range, MetricSnapshot, MetricValue, PERCENT_FULL,
};
use crate::network_monitor::sat_add;
use crate::rate::{counter_delta, per_second, rate_per_second, RATE_CAP};
use crate::text::{ends_with_digit, is_digit, owned, same_text, starts_with};

verus! {

/// Bytes per sector in the kernel's disk counters.
pub const SECTOR_BYTES: u64 = 512;

/// Space of one mounted filesystem, in bytes.
pub struct MountUsage {
    pub mount_point: String,
    pub total: u64,
    pub available: u64,
}

/// Cumulative I/O counters of one block device.
pub struct DiskCounters {
    pub name: String,
    pub sectors_read: u64,
    pub sectors_written: u64,
    pub reads: u64,
    pub writes: u64,
}

pub open spec fn sat_sub(a: nat, b: nat) -> nat {
    if a >= b {
        (a - b) as nat
    } else {
        0
    }
}

pub open spec fn sat_mul(a: nat, b: nat) -> nat {
    if a * b > u64::MAX {
        u64::MAX as nat
    } else {
        a * b
    }
}

pub open spec fn has_prefix(s: Seq<char>, p: Seq<char>) -> bool {
    p.len() <= s.len() && s.subrange(0, p.len() as int) == p
}

/// Mounts under the device, sys, proc and run namespaces are left out of totals.
pub open spec fn is_pseudo_mount(mount_point: Seq<char>) -> bool {
    has_prefix(mount_point, "/dev"@) || has_prefix(mount_point, "/sys"@) || has_prefix(
        mount_point,
        "/proc"@,
    ) || has_prefix(mount_point, "/run"@)
}

/// A device whose name ends in a digit is a partition of a whole device.
pub open spec fn is_partition(name: Seq<char>) -> bool {
    name.len() > 0 && is_digit(name.last())
}

/// What the mounts contribute: the root mount's entries, and the total and
/// used bytes over the mounts that count.
pub open spec fn mount_fold(s: Seq<MountUsage>) -> (Map<Seq<char>, MetricValue>, nat, nat)
    decreases s.len(),
{
    if s.len() == 0 {
        (Map::empty(), 0, 0)
    } else {
        let (m, t, u) = mount_fold(s.drop_last());
        let e = s.last();
        let used = sat_sub(e.total as nat, e.available as nat);
        let m2 = if e.mount_point@ == "/"@ {
            m.insert("disk.root.total_bytes"@, MetricValue::Int(count_int(e.total as nat))).insert(
                "disk.root.used_bytes"@,
                MetricValue::Int(count_int(used)),
            ).insert("disk.root.available_bytes"@, MetricValue::Int(count_int(e.available as nat))).insert(
                "disk.root.usage_percent"@,
                MetricValue::Float(percent(used, e.total as nat) as i64),
            )
        } else {
            m
        };
        if is_pseudo_mount(e.mount_point@) {
            (m2, t, u)
        } else {
            (m2, sat_add(t, e.total as nat), sat_add(u, used))
        }
    }
}

/// The space entries of a sample over `mounts`.
pub open spec fn space_snapshot(mounts: Seq<MountUsage>) -> Map<Seq<char>, MetricValue> {
    let (m, t, u) = mount_fold(mounts);
    m.insert("disk.total_bytes"@, MetricValue::Int(count_int(t))).insert(
        "disk.used_bytes"@,
        MetricValue::Int(count_int(u)),
    ).insert("disk.usage_percent"@, MetricValue::Float(percent(u, t) as i64))
}

/// The first device of `prev` named `name`.
pub open spec fn find_named(prev: Seq<DiskCounters>, name: Seq<char>) -> Option<DiskCounters>
    decreases prev.len(),
{
    if prev.len() == 0 {
        None
    } else if prev[0].name@ == name {
        Some(prev[0])
    } else {
        find_named(prev.subrange(1, prev.len() as int), name)
    }
}

/// What one device adds to an aggregate: the growth of counter `f` since the
/// same-named device in `prev`, times `scale`; nothing for a device absent there.
pub open spec fn device_contribution(
    prev: Seq<DiskCounters>,
    c: DiskCounters,
    f: spec_fn(DiskCounters) -> u64,
    scale: nat,
) -> nat {
    match find_named(prev, c.name@) {
        Some(p) => sat_mul(counter_delta(f(p) as nat, f(c) as nat), scale),
        None => 0,
    }
}

/// Aggregate growth of counter `f` over the whole devices of `curr`;
/// partitions are skipped so that no transfer is counted twice.
pub open spec fn whole_device_total(
    prev: Seq<DiskCounters>,
    curr: Seq<DiskCounters>,
    f: spec_fn(DiskCounters) -> u64,
    scale: nat,
) -> nat
    decreases curr.len(),
{
    if curr.len() == 0 {
        0
    } else {
        let t = whole_device_total(prev, curr.drop_last(), f, scale);
        if is_partition(curr.last().name@) {
            t
        } else {
            sat_add(t, device_contribution(prev, curr.last(), f, scale))
        }
    }
}

pub open spec fn sectors_read_of(c: DiskCounters) -> u64 {
    c.sectors_read
}

pub open spec fn sectors_written_of(c: DiskCounters) -> u64 {
    c.sectors_written
}

pub open spec fn reads_of(c: DiskCounters) -> u64 {
    c.reads
}

pub open spec fn writes_of(c: DiskCounters) -> u64 {
    c.writes
}

/// Aggregate read bytes, write bytes, read operations and write operations
/// of whole devices between two readings.
pub open spec fn io_totals(prev: Seq<DiskCounters>, curr: Seq<DiskCounters>) -> (nat, nat, nat, nat) {
    (
        whole_device_total(prev, curr, |c| sectors_read_of(c), SECTOR_BYTES as nat),
        whole_device_total(prev, curr, |c| sectors_written_of(c), SECTOR_BYTES as nat),
        whole_device_total(prev, curr, |c| reads_of(c), 1),
        whole_device_total(prev, curr, |c| writes_of(c), 1),
    )
}

pub proof fn lemma_whole_device_total_bound(
    prev: Seq<DiskCounters>,
    curr: Seq<DiskCounters>,
    f: spec_fn(DiskCounters) -> u64,
    scale: nat,
)
    ensures
        whole_device_total(prev, curr, f, scale) <= u64::MAX,
    decreases curr.len(),
{
    if curr.len() > 0 {
        lemma_whole_device_total_bound(prev, curr.drop_last(), f, scale);
    }
}

/// Finds the first device of `prev` named `name`.
fn find_device<'a>(prev: &'a Vec<DiskCounters>, name: &str) -> (r: Option<&'a DiskCounters>)
    ensures
        match r {
            Some(p) => find_named(prev@, name@) == Some(*p),
            None => find_named(prev@, name@) is None,
        },
{
    let mut i: usize = 0;
    assert(prev@.subrange(0, prev@.len() as int) =~= prev@);
    while i < prev.len()
        invariant
            i <= prev.len(),
            find_named(prev@, name@) == find_named(prev@.subrange(i as int, prev@.len() as int), name@),
        decreases prev.len() - i,
    {
        let ghost rest = prev@.subrange(i as int, prev@.len() as int);
        assert(rest[0] == prev@[i as int]);
        if same_text(prev[i].name.as_str(), name) {
            return Some(&prev[i]);
        }
        assert(rest.subrange(1, rest.len() as int) =~= prev@.subrange(i as int + 1, prev@.len() as int));
        i = i + 1;
    }
    assert(prev@.subrange(i as int, prev@.len() as int).len() == 0);
    None
}

/// Bytes in `sectors` sectors, saturating at the largest `u64`.
fn sector_bytes(sectors: u64) -> (r: u64)
    ensures
        r == sat_mul(sectors as nat, SECTOR_BYTES as nat),
{
    match sectors.checked_mul(SECTOR_BYTES) {
        Some(b) => b,
        None => u64::MAX,
    }
}

/// Aggregate growth of the four I/O counters over whole devices.
pub fn aggregate_io(prev: &Vec<DiskCounters>, curr: &Vec<DiskCounters>) -> (r: (u64, u64, u64, u64))
    ensures
        (r.0 as nat, r.1 as nat, r.2 as nat, r.3 as nat) == io_totals(prev@, curr@),
{
    let mut rb: u64 = 0;
    let mut wb: u64 = 0;
    let mut ro: u64 = 0;
    let mut wo: u64 = 0;
    let mut i: usize = 0;
    proof {
        let e = curr@.subrange(0, 0);
        assert(e.len() == 0);
        assert(whole_device_total(prev@, e, |c| sectors_read_of(c), SECTOR_BYTES as nat) == 0);
        assert(whole_device_total(prev@, e, |c| sectors_written_of(c), SECTOR_BYTES as nat) == 0);
        assert(whole_device_total(prev@, e, |c| reads_of(c), 1) == 0);
        assert(whole_device_total(prev@, e, |c| writes_of(c), 1) == 0);
    }
    while i < curr.len()
        invariant
            i <= curr.len(),
            (rb as nat, wb as nat, ro as nat, wo as nat) == io_totals(
                prev@,
                curr@.subrange(0, i as int),
            ),
        decreases curr.len() - i,
    {
        let c = &curr[i];
        let ghost pre = curr@.subrange(0, i as int);
        proof {
            assert(curr@.subrange(0, i as int + 1).drop_last() =~= pre);
            assert(curr@.subrange(0, i as int + 1).last() == *c);
        }
        if !ends_with_digit(c.name.as_str()) {
            match find_device(prev, c.name.as_str()) {
                Some(p) => {
                    rb = rb.saturating_add(
                        sector_bytes(c.sectors_read.saturating_sub(p.sectors_read)),
                    );
                    wb = wb.saturating_add(
                        sector_bytes(c.sectors_written.saturating_sub(p.sectors_written)),
                    );
                    ro = ro.saturating_add(c.reads.saturating_sub(p.reads));
                    wo = wo.saturating_add(c.writes.saturating_sub(p.writes));
                },
                None => {},
            }
        }
        i = i + 1;
    }
    assert(curr@.subrange(0, curr@.len() as int) =~= curr@);
    (rb, wb, ro, wo)
}

/// Whether `mount_point` lies under a pseudo-filesystem namespace.
pub fn is_pseudo_mount_point(mount_point: &str) -> (r: bool)
    ensures
        r == is_pseudo_mount(mount_point@),
{
    starts_with(mount_point, "/dev") || starts_with(mount_point, "/sys") || starts_with(
        mount_point,
        "/proc",
    ) || starts_with(mount_point, "/run")
}

/// Disk state: the device counters of the last reading and when it was taken.
pub struct DiskMonitor {
    pub previous: Option<(Vec<DiskCounters>, u64)>,
}

impl DiskMonitor {
    /// Per-second read bytes, write bytes, read ops and write ops, when a
    /// previous reading exists and time has moved forward.
    pub open spec fn io_rates(self, io: Option<Vec<DiskCounters>>, now: u64) -> Option<
        (nat, nat, nat, nat),
    > {
        match (self.previous, io) {
            (Some((prev, pt)), Some(curr)) => {
                if now > pt {
                    let (rb, wb, ro, wo) = io_totals(prev@, curr@);
                    let e = (now - pt) as nat;
                    Some((per_second(rb, e), per_second(wb, e), per_second(ro, e), per_second(wo, e)))
                } else {
                    None
                }
            },
            _ => None,
        }
    }

    /// The monitor after a sample: a fresh reading is kept unless the clock
    /// stood still since the kept one.
    pub open spec fn next(self, io: Option<Vec<DiskCounters>>, now: u64) -> DiskMonitor {
        match io {
            None => self,
            Some(curr) => match self.previous {
                Some((prev, pt)) => if now > pt {
                    DiskMonitor { previous: Some((curr, now)) }
                } else {
                    self
                },
                None => DiskMonitor { previous: Some((curr, now)) },
            },
        }
    }

    /// The snapshot that a sample yields.
    pub open spec fn snapshot(
        self,
        mounts: Seq<MountUsage>,
        io: Option<Vec<DiskCounters>>,
        now: u64,
    ) -> Map<Seq<char>, MetricValue> {
        let space = space_snapshot(mounts);
        match self.io_rates(io, now) {
            Some((rb, wb, ro, wo)) => space.insert(
                "disk.io_read_bytes_per_sec"@,
                MetricValue::Int(rb as i64),
            ).insert("disk.io_write_bytes_per_sec"@, MetricValue::Int(wb as i64)).insert(
                "disk.io_read_ops_per_sec"@,
                MetricValue::Int(ro as i64),
            ).insert("disk.io_write_ops_per_sec"@, MetricValue::Int(wo as i64)).insert(
                "disk.io_total_ops_per_sec"@,
                MetricValue::Int(count_int(ro + wo)),
            ),
            None => space,
        }
    }

    pub fn new() -> (r: Self)
        ensures
            r.previous is None,
    {
        DiskMonitor { previous: None }
    }

    /// Samples `mounts` and, where the device counters could be read, the
    /// I/O rates since the last reading; `now` is in nanoseconds on a
    /// monotonic clock.
    pub fn get_metrics(
        &mut self,
        mounts: &Vec<MountUsage>,
        io: Option<Vec<DiskCounters>>,
        now: u64,
    ) -> (r: MetricSnapshot)
        ensures
            r.wf(),
            r@ == old(self).snapshot(mounts@, io, now),
            *final(self) == old(self).next(io, now),
    {
        let mut m = MetricSnapshot::new();
        let mut total_space: u64 = 0;
        let mut total_used: u64 = 0;
        let mut i: usize = 0;
        proof {
            reveal_strlit("/");
        }
        while i < mounts.len()
            invariant
                i <= mounts.len(),
                m.wf(),
                (m@, total_space as nat, total_used as nat) == mount_fold(
                    mounts@.subrange(0, i as int),
                ),
            decreases mounts.len() - i,
        {
            let d = &mounts[i];
            proof {
                assert(mounts@.subrange(0, i as int + 1).drop_last() =~= mounts@.subrange(0, i as int));
                assert(mounts@.subrange(0, i as int + 1).last() == *d);
            }
            let used = d.total.saturating_sub(d.available);
            if same_text(d.mount_point.as_str(), "/") {
                m.insert(owned("disk.root.total_bytes"), count_metric(d.total));
                m.insert(owned("disk.root.used_bytes"), count_metric(used));
                m.insert(owned("disk.root.available_bytes"), count_metric(d.available));
                m.insert(owned("disk.root.usage_percent"), MetricValue::Float(percent_of(used, d.total)));
            }
            if !is_pseudo_mount_point(d.mount_point.as_str()) {
                total_space = total_space.saturating_add(d.total);
                total_used = total_used.saturating_add(used);
            }
            i = i + 1;
        }
        assert(mounts@.subrange(0, mounts@.len() as int) =~= mounts@);
        m.insert(owned("disk.total_bytes"), count_metric(total_space));
        m.insert(owned("disk.used_bytes"), count_metric(total_used));
        m.insert(owned("disk.usage_percent"), MetricValue::Float(percent_of(total_used, total_space)));
        match io {
            None => {},
            Some(curr) => {
                let prev = self.previous.take();
                match prev {
                    None => {
                        self.previous = Some((curr, now));
                    },
                    Some((prev_stats, prev_time)) => {
                        if now > prev_time {
                            let (rb, wb, ro, wo) = aggregate_io(&prev_stats, &curr);
                            let elapsed = now - prev_time;
                            let rb_rate = rate_per_second(rb, elapsed);
                            let wb_rate = rate_per_second(wb, elapsed);
                            let ro_rate = rate_per_second(ro, elapsed);
                            let wo_rate = rate_per_second(wo, elapsed);
                            m.insert(owned("disk.io_read_bytes_per_sec"), MetricValue::Int(rb_rate as i64));
                            m.insert(owned("disk.io_write_bytes_per_sec"), MetricValue::Int(wb_rate as i64));
                            m.insert(owned("disk.io_read_ops_per_sec"), MetricValue::Int(ro_rate as i64));
                            m.insert(owned("disk.io_write_ops_per_sec"), MetricValue::Int(wo_rate as i64));
                            m.insert(owned("disk.io_total_ops_per_sec"), count_metric(ro_rate + wo_rate));
                            self.previous = Some((curr, now));
                        } else {
                            self.previous = Some((prev_stats, prev_time));
                        }
                    },
                }
            },
        }
        m
    }
}


pub open spec fn is_whole_device(c: DiskCounters) -> bool {
    !is_partition(c.name@)
}

/// The whole devices of `s`, in order.
pub open spec fn whole_devices(s: Seq<DiskCounters>) -> Seq<DiskCounters>
    decreases s.len(),
{
    if s.len() == 0 {
        s
    } else if is_whole_device(s.last()) {
        whole_devices(s.drop_last()).push(s.last())
    } else {
        whole_devices(s.drop_last())
    }
}

/// Partitions never change an I/O aggregate: it equals the aggregate over the
/// whole devices alone.
pub proof fn lemma_partitions_never_count(
    prev: Seq<DiskCounters>,
    curr: Seq<DiskCounters>,
    f: spec_fn(DiskCounters) -> u64,
    scale: nat,
)
    ensures
        whole_device_total(prev, curr, f, scale) == whole_device_total(
            prev,
            whole_devices(curr),
            f,
            scale,
        ),
    decreases curr.len(),
{
    if curr.len() > 0 {
        lemma_partitions_never_count(prev, curr.drop_last(), f, scale);
        if is_whole_device(curr.last()) {
            assert(whole_devices(curr).drop_last() =~= whole_devices(curr.drop_last()));
        }
    }
}

/// A device whose counter went down since the last reading (a reset)
/// contributes exactly zero.
pub proof fn lemma_reset_device_contributes_zero(
    prev: Seq<DiskCounters>,
    c: DiskCounters,
    f: spec_fn(DiskCounters) -> u64,
    scale: nat,
)
    requires
        find_named(prev, c.name@) matches Some(p) && f(c) < f(p),
    ensures
        device_contribution(prev, c, f, scale) == 0,
{
    assert(0 * scale == 0);
}

proof fn lemma_mount_fold_keys(s: Seq<MountUsage>, k: Seq<char>)
    requires
        mount_fold(s).0.contains_key(k),
    ensures
        k == "disk.root.total_bytes"@ || k == "disk.root.used_bytes"@ || k
            == "disk.root.available_bytes"@ || k == "disk.root.usage_percent"@,
    decreases s.len(),
{
    if s.len() > 0 {
        if mount_fold(s.drop_last()).0.contains_key(k) {
            lemma_mount_fold_keys(s.drop_last(), k);
        }
    }
}

/// The first sample of a monitor that holds no reading has no I/O rate.
pub proof fn lemma_first_disk_sample_has_no_rates(
    m: DiskMonitor,
    mounts: Seq<MountUsage>,
    io: Option<Vec<DiskCounters>>,
    now: u64,
)
    requires
        m.previous is None,
    ensures
        !m.snapshot(mounts, io, now).contains_key("disk.io_read_bytes_per_sec"@),
        !m.snapshot(mounts, io, now).contains_key("disk.io_write_bytes_per_sec"@),
        !m.snapshot(mounts, io, now).contains_key("disk.io_read_ops_per_sec"@),
        !m.snapshot(mounts, io, now).contains_key("disk.io_write_ops_per_sec"@),
        !m.snapshot(mounts, io, now).contains_key("disk.io_total_ops_per_sec"@),
{
    reveal_strlit("disk.io_read_bytes_per_sec");
    reveal_strlit("disk.io_write_bytes_per_sec");
    reveal_strlit("disk.io_read_ops_per_sec");
    reveal_strlit("disk.io_write_ops_per_sec");
    reveal_strlit("disk.io_total_ops_per_sec");
    reveal_strlit("disk.root.total_bytes");
    reveal_strlit("disk.root.used_bytes");
    reveal_strlit("disk.root.available_bytes");
    reveal_strlit("disk.root.usage_percent");
    reveal_strlit("disk.total_bytes");
    reveal_strlit("disk.used_bytes");
    reveal_strlit("disk.usage_percent");
    assert("disk.io_read_bytes_per_sec"@.len() == 26);
    assert("disk.io_write_bytes_per_sec"@.len() == 27);
    assert("disk.io_read_ops_per_sec"@.len() == 24);
    assert("disk.io_write_ops_per_sec"@.len() == 25);
    assert("disk.io_total_ops_per_sec"@.len() == 25);
    assert("disk.root.total_bytes"@.len() == 21);
    assert("disk.root.used_bytes"@.len() == 20);
    assert("disk.root.available_bytes"@.len() == 25);
    assert("disk.root.usage_percent"@.len() == 23);
    assert("disk.total_bytes"@.len() == 16);
    assert("disk.used_bytes"@.len() == 15);
    assert("disk.usage_percent"@.len() == 18);
    assert("disk.io_write_ops_per_sec"@[5] != "disk.root.available_bytes"@[5]);
    assert("disk.io_total_ops_per_sec"@[5] != "disk.root.available_bytes"@[5]);
    let folded = mount_fold(mounts).0;
    if folded.contains_key("disk.io_read_bytes_per_sec"@) {
        lemma_mount_fold_keys(mounts, "disk.io_read_bytes_per_sec"@);
    }
    if folded.contains_key("disk.io_write_bytes_per_sec"@) {
        lemma_mount_fold_keys(mounts, "disk.io_write_bytes_per_sec"@);
    }
    if folded.contains_key("disk.io_read_ops_per_sec"@) {
        lemma_mount_fold_keys(mounts, "disk.io_read_ops_per_sec"@);
    }
    if folded.contains_key("disk.io_write_ops_per_sec"@) {
        lemma_mount_fold_keys(mounts, "disk.io_write_ops_per_sec"@);
    }
    if folded.contains_key("disk.io_total_ops_per_sec"@) {
        lemma_mount_fold_keys(mounts, "disk.io_total_ops_per_sec"@);
    }
}

/// Every usage percentage of a sample lies between 0 and 100, and is 0 when
/// the total is 0.
pub proof fn lemma_disk_usage_percent_bounds(m: DiskMonitor, mounts: Seq<MountUsage>, io: Option<Vec<DiskCounters>>, now: u64)
    ensures
        space_snapshot(mounts)["disk.usage_percent"@] matches MetricValue::Float(v)
            && 0 <= v <= PERCENT_FULL
            && (mount_fold(mounts).1 == 0 ==> v == 0),
        m.snapshot(mounts, io, now)["disk.usage_percent"@] == space_snapshot(mounts)["disk.usage_percent"@],
        mount_fold(mounts).0.contains_key("disk.root.usage_percent"@) ==> (
            mount_fold(mounts).0["disk.root.usage_percent"@] matches MetricValue::Float(v)
            && 0 <= v <= PERCENT_FULL),
{
    reveal_strlit("disk.io_read_bytes_per_sec");
    reveal_strlit("disk.io_write_bytes_per_sec");
    reveal_strlit("disk.io_read_ops_per_sec");
    reveal_strlit("disk.io_write_ops_per_sec");
    reveal_strlit("disk.io_total_ops_per_sec");
    reveal_strlit("disk.root.total_bytes");
    reveal_strlit("disk.root.used_bytes");
    reveal_strlit("disk.root.available_bytes");
    reveal_strlit("disk.root.usage_percent");
    reveal_strlit("disk.total_bytes");
    reveal_strlit("disk.used_bytes");
    reveal_strlit("disk.usage_percent");
    assert("disk.io_read_bytes_per_sec"@.len() == 26);
    assert("disk.io_write_bytes_per_sec"@.len() == 27);
    assert("disk.io_read_ops_per_sec"@.len() == 24);
    assert("disk.io_write_ops_per_sec"@.len() == 25);
    assert("disk.io_total_ops_per_sec"@.len() == 25);
    assert("disk.root.total_bytes"@.len() == 21);
    assert("disk.root.used_bytes"@.len() == 20);
    assert("disk.root.available_bytes"@.len() == 25);
    assert("disk.root.usage_percent"@.len() == 23);
    assert("disk.total_bytes"@.len() == 16);
    assert("disk.used_bytes"@.len() == 15);
    assert("disk.usage_percent"@.len() == 18);
    let (_, t, u) = mount_fold(mounts);
    lemma_percent_bounds(u, t);
    lemma_root_percent_bounds(mounts);
}

proof fn lemma_root_percent_bounds(s: Seq<MountUsage>)
    ensures
        mount_fold(s).0.contains_key("disk.root.usage_percent"@) ==> (
            mount_fold(s).0["disk.root.usage_percent"@] matches MetricValue::Float(v)
            && 0 <= v <= PERCENT_FULL),
    decreases s.len(),
{
    reveal_strlit("disk.io_read_bytes_per_sec");
    reveal_strlit("disk.io_write_bytes_per_sec");
    reveal_strlit("disk.io_read_ops_per_sec");
    reveal_strlit("disk.io_write_ops_per_sec");
    reveal_strlit("disk.io_total_ops_per_sec");
    reveal_strlit("disk.root.total_bytes");
    reveal_strlit("disk.root.used_bytes");
    reveal_strlit("disk.root.available_bytes");
    reveal_strlit("disk.root.usage_percent");
    reveal_strlit("disk.total_bytes");
    reveal_strlit("disk.used_bytes");
    reveal_strlit("disk.usage_percent");
    assert("disk.io_read_bytes_per_sec"@.len() == 26);
    assert("disk.io_write_bytes_per_sec"@.len() == 27);
    assert("disk.io_read_ops_per_sec"@.len() == 24);
    assert("disk.io_write_ops_per_sec"@.len() == 25);
    assert("disk.io_total_ops_per_sec"@.len() == 25);
    assert("disk.root.total_bytes"@.len() == 21);
    assert("disk.root.used_bytes"@.len() == 20);
    assert("disk.root.available_bytes"@.len() == 25);
    assert("disk.root.usage_percent"@.len() == 23);
    assert("disk.total_bytes"@.len() == 16);
    assert("disk.used_bytes"@.len() == 15);
    assert("disk.usage_percent"@.len() == 18);
    if s.len() > 0 {
        lemma_root_percent_bounds(s.drop_last());
        let e = s.last();
        lemma_percent_bounds(sat_sub(e.total as nat, e.available as nat), e.total as nat);
    }
}

/// A sample whose device counters were read after a positive interval since
/// the kept reading holds every I/O rate, each a non-negative integer no
/// larger than the cap.
pub proof fn lemma_second_disk_sample_has_rates(
    m: DiskMonitor,
    mounts: Seq<MountUsage>,
    io: Option<Vec<DiskCounters>>,
    now: u64,
)
    requires
        m.previous is Some,
        m.previous.unwrap().1 < now,
        io is Some,
    ensures
        crate::network_monitor::rate_present(m.snapshot(mounts, io, now), "disk.io_read_bytes_per_sec"@),
        crate::network_monitor::rate_present(m.snapshot(mounts, io, now), "disk.io_write_bytes_per_sec"@),
        crate::network_monitor::rate_present(m.snapshot(mounts, io, now), "disk.io_read_ops_per_sec"@),
        crate::network_monitor::rate_present(m.snapshot(mounts, io, now), "disk.io_write_ops_per_sec"@),
        crate::network_monitor::rate_present(m.snapshot(mounts, io, now), "disk.io_total_ops_per_sec"@),
{
    reveal_strlit("disk.io_read_bytes_per_sec");
    assert("disk.io_read_bytes_per_sec"@.len() == 26);
    reveal_strlit("disk.io_write_bytes_per_sec");
    assert("disk.io_write_bytes_per_sec"@.len() == 27);
    reveal_strlit("disk.io_read_ops_per_sec");
    assert("disk.io_read_ops_per_sec"@.len() == 24);
    reveal_strlit("disk.io_write_ops_per_sec");
    assert("disk.io_write_ops_per_sec"@.len() == 25);
    reveal_strlit("disk.io_total_ops_per_sec");
    assert("disk.io_total_ops_per_sec"@.len() == 25);
    assert("disk.io_write_ops_per_sec"@[8] != "disk.io_total_ops_per_sec"@[8]);
    let (prev, pt) = m.previous.unwrap();
    let (rb, wb, ro, wo) = io_totals(prev@, io.unwrap()@);
    let e = (now - pt) as nat;
    assert(per_second(rb, e) <= RATE_CAP);
    assert(per_second(wb, e) <= RATE_CAP);
    assert(per_second(ro, e) <= RATE_CAP);
    assert(per_second(wo, e) <= RATE_CAP);
}

proof fn lemma_mount_fold_in_range(s: Seq<MountUsage>)
    ensures
        usage_entries_in_range(mount_fold(s).0),
    decreases s.len(),
{
    if s.len() > 0 {
        lemma_mount_fold_in_range(s.drop_last());
        let e = s.last();
        lemma_percent_bounds(sat_sub(e.total as nat, e.available as nat), e.total as nat);
        reveal_strlit("disk.root.total_bytes");
        assert("disk.root.total_bytes"@.len() == 21);
        assert("disk.root.total_bytes"@[8] != 'u');
        lemma_not_usage_key("disk.root.total_bytes"@);
        reveal_strlit("disk.root.used_bytes");
        assert("disk.root.used_bytes"@.len() == 20);
        assert("disk.root.used_bytes"@[7] != 'u');
        lemma_not_usage_key("disk.root.used_bytes"@);
        reveal_strlit("disk.root.available_bytes");
        assert("disk.root.available_bytes"@.len() == 25);
        assert("disk.root.available_bytes"@[12] != 'u');
        lemma_not_usage_key("disk.root.available_bytes"@);
    }
}

/// Every usage percentage of a disk sample, per root mount and overall, lies
/// between 0 and 100.
pub proof fn lemma_disk_usage_entries_in_range(
    m: DiskMonitor,
    mounts: Seq<MountUsage>,
    io: Option<Vec<DiskCounters>>,
    now: u64,
)
    ensures
        usage_entries_in_range(m.snapshot(mounts, io, now)),
{
    lemma_mount_fold_in_range(mounts);
    let (_, t, u) = mount_fold(mounts);
    lemma_percent_bounds(u, t);
    reveal_strlit("disk.total_bytes");
    assert("disk.total_bytes"@.len() == 16);
    assert("disk.total_bytes"@[3] != 'u');
    lemma_not_usage_key("disk.total_bytes"@);
    reveal_strlit("disk.used_bytes");
    assert("disk.used_bytes"@.len() == 15);
    assert("disk.used_bytes"@[2] != 'u');
    lemma_not_usage_key("disk.used_bytes"@);
    reveal_strlit("disk.io_read_bytes_per_sec");
    assert("disk.io_read_bytes_per_sec"@.len() == 26);
    assert("disk.io_read_bytes_per_sec"@[13] != 'u');
    lemma_not_usage_key("disk.io_read_bytes_per_sec"@);
    reveal_strlit("disk.io_write_bytes_per_sec");
    assert("disk.io_write_bytes_per_sec"@.len() == 27);
    assert("disk.io_write_bytes_per_sec"@[14] != 'u');
    lemma_not_usage_key("disk.io_write_bytes_per_sec"@);
    reveal_strlit("disk.io_read_ops_per_sec");
    assert("disk.io_read_ops_per_sec"@.len() == 24);
    assert("disk.io_read_ops_per_sec"@[11] != 'u');
    lemma_not_usage_key("disk.io_read_ops_per_sec"@);
    reveal_strlit("disk.io_write_ops_per_sec");
    assert("disk.io_write_ops_per_sec"@.len() == 25);
    assert("disk.io_write_ops_per_sec"@[12] != 'u');
    lemma_not_usage_key("disk.io_write_ops_per_sec"@);
    reveal_strlit("disk.io_total_ops_per_sec");
    assert("disk.io_total_ops_per_sec"@.len() == 25);
    assert("disk.io_total_ops_per_sec"@[12] != 'u');
    lemma_not_usage_key("disk.io_total_ops_per_sec"@);
}

} // verus!
