//! Network sampling: totals across interfaces, per-second rates, interface
//! and connection counts.

use vstd::prelude::*;
use vstd::string::*;
use crate::metric::{count_int, count_metric, MetricSnapshot, MetricValue};
use crate::rate::{RateWindow, RATE_CAP};
use crate::text::{count_lines, line_count, owned};

verus! {

/// Cumulative counters of one network interface.
pub struct InterfaceCounters {
    pub rx_bytes: u64,
    pub tx_bytes: u64,
    pub rx_packets: u64,
    pub tx_packets: u64,
}

pub open spec fn sat_add(a: nat, b: nat) -> nat {
    if a + b > u64::MAX {
        u64::MAX as nat
    } else {
        a + b
    }
}

/// Sum of one counter over all interfaces, saturating at the largest `u64`.
pub open spec fn counter_total(s: Seq<InterfaceCounters>, f: spec_fn(InterfaceCounters) -> u64) -> nat
    decreases s.len(),
{
    if s.len() == 0 {
        0
    } else {
        sat_add(counter_total(s.drop_last(), f), f(s.last()) as nat)
    }
}

pub open spec fn rx_bytes_of(c: InterfaceCounters) -> u64 {
    c.rx_bytes
}

pub open spec fn tx_bytes_of(c: InterfaceCounters) -> u64 {
    c.tx_bytes
}

pub open spec fn rx_packets_of(c: InterfaceCounters) -> u64 {
    c.rx_packets
}

pub open spec fn tx_packets_of(c: InterfaceCounters) -> u64 {
    c.tx_packets
}

/// Number of rows of a connection table: its lines but the header line.
pub open spec fn table_rows(text: Seq<char>) -> nat {
    if line_count(text) == 0 {
        0
    } else {
        (line_count(text) - 1) as nat
    }
}

/// Active connections over the IPv4 and IPv6 tables that could be read;
/// none when no row was found.
pub open spec fn connections_of(tcp: Option<Seq<char>>, tcp6: Option<Seq<char>>) -> Option<nat> {
    let a = match tcp {
        Some(t) => table_rows(t),
        None => 0,
    };
    let b = match tcp6 {
        Some(t) => table_rows(t),
        None => 0,
    };
    if a + b > 0 {
        Some(a + b)
    } else {
        None
    }
}

pub open spec fn rate_entry(m: Map<Seq<char>, MetricValue>, k: Seq<char>, r: Option<u64>) -> Map<
    Seq<char>,
    MetricValue,
> {
    match r {
        Some(v) => m.insert(k, MetricValue::Int(v as i64)),
        None => m,
    }
}

fn table_row_count(text: &str) -> (r: u64)
    ensures
        r == table_rows(text@),
{
    let lines = count_lines(text);
    if lines == 0 {
        0
    } else {
        lines - 1
    }
}

/// Counts active connections from the text of the IPv4 and IPv6 TCP tables
/// (each with one header line); `None` where a table could not be read.
pub fn get_connection_count(tcp: Option<&str>, tcp6: Option<&str>) -> (r: Option<i64>)
    ensures
        r == match connections_of(
            match tcp {
                Some(t) => Some(t@),
                None => None,
            },
            match tcp6 {
                Some(t) => Some(t@),
                None => None,
            },
        ) {
            Some(n) => Some(count_int(n)),
            None => None,
        },
{
    let a: u64 = match tcp {
        Some(t) => table_row_count(t),
        None => 0,
    };
    let b: u64 = match tcp6 {
        Some(t) => table_row_count(t),
        None => 0,
    };
    let total: u64 = a.saturating_add(b);
    if total > 0 {
        proof {
            assert(count_int((a + b) as nat) == count_int(total as nat));
        }
        match count_metric(total) {
            MetricValue::Int(v) => Some(v),
            _ => None,
        }
    } else {
        None
    }
}

/// Per-interface network state: one rate window per counter family.
pub struct NetworkMonitor {
    pub rx_bytes: RateWindow,
    pub tx_bytes: RateWindow,
    pub rx_packets: RateWindow,
    pub tx_packets: RateWindow,
}

impl NetworkMonitor {
    pub open spec fn is_fresh(self) -> bool {
        &&& self.rx_bytes.previous is None
        &&& self.tx_bytes.previous is None
        &&& self.rx_packets.previous is None
        &&& self.tx_packets.previous is None
    }

    /// The monitor after a sample of `interfaces` at `now`.
    pub open spec fn next(self, interfaces: Seq<InterfaceCounters>, now: u64) -> NetworkMonitor {
        NetworkMonitor {
            rx_bytes: self.rx_bytes.step(counter_total(interfaces, |c| rx_bytes_of(c)) as u64, now).0,
            tx_bytes: self.tx_bytes.step(counter_total(interfaces, |c| tx_bytes_of(c)) as u64, now).0,
            rx_packets: self.rx_packets.step(
                counter_total(interfaces, |c| rx_packets_of(c)) as u64,
                now,
            ).0,
            tx_packets: self.tx_packets.step(
                counter_total(interfaces, |c| tx_packets_of(c)) as u64,
                now,
            ).0,
        }
    }

    /// The snapshot that a sample of `interfaces` at `now` yields.
    pub open spec fn snapshot(
        self,
        interfaces: Seq<InterfaceCounters>,
        connections: Option<i64>,
        now: u64,
    ) -> Map<Seq<char>, MetricValue> {
        let rx = counter_total(interfaces, |c| rx_bytes_of(c));
        let tx = counter_total(interfaces, |c| tx_bytes_of(c));
        let rxp = counter_total(interfaces, |c| rx_packets_of(c));
        let txp = counter_total(interfaces, |c| tx_packets_of(c));
        let r_rx = self.rx_bytes.step(rx as u64, now).1;
        let r_tx = self.tx_bytes.step(tx as u64, now).1;
        let r_rxp = self.rx_packets.step(rxp as u64, now).1;
        let r_txp = self.tx_packets.step(txp as u64, now).1;
        let totals = Map::<Seq<char>, MetricValue>::empty().insert(
            "network.rx_bytes_total"@,
            MetricValue::Int(count_int(rx)),
        ).insert("network.tx_bytes_total"@, MetricValue::Int(count_int(tx))).insert(
            "network.rx_packets_total"@,
            MetricValue::Int(count_int(rxp)),
        ).insert("network.tx_packets_total"@, MetricValue::Int(count_int(txp)));
        let rates = rate_entry(
            rate_entry(
                rate_entry(
                    rate_entry(totals, "network.rx_bytes_per_sec"@, r_rx),
                    "network.tx_bytes_per_sec"@,
                    r_tx,
                ),
                "network.rx_packets_per_sec"@,
                r_rxp,
            ),
            "network.tx_packets_per_sec"@,
            r_txp,
        );
        let with_bandwidth = match (r_rx, r_tx) {
            (Some(a), Some(b)) => rates.insert(
                "network.bandwidth_bytes_per_sec"@,
                MetricValue::Int(count_int((a + b) as nat)),
            ),
            _ => rates,
        };
        let with_connections = match connections {
            Some(n) => with_bandwidth.insert("network.connections_active"@, MetricValue::Int(n)),
            None => with_bandwidth,
        };
        with_connections.insert(
            "network.interface_count"@,
            MetricValue::Int(count_int(interfaces.len())),
        )
    }

    pub fn new() -> (r: Self)
        ensures
            r.is_fresh(),
    {
        NetworkMonitor {
            rx_bytes: RateWindow::new(),
            tx_bytes: RateWindow::new(),
            rx_packets: RateWindow::new(),
            tx_packets: RateWindow::new(),
        }
    }

    /// Totals of received and sent bytes and packets across `interfaces`.
    pub fn get_totals(interfaces: &Vec<InterfaceCounters>) -> (r: (u64, u64, u64, u64))
        ensures
            r.0 == counter_total(interfaces@, |c| rx_bytes_of(c)),
            r.1 == counter_total(interfaces@, |c| tx_bytes_of(c)),
            r.2 == counter_total(interfaces@, |c| rx_packets_of(c)),
            r.3 == counter_total(interfaces@, |c| tx_packets_of(c)),
    {
        let mut rx: u64 = 0;
        let mut tx: u64 = 0;
        let mut rxp: u64 = 0;
        let mut txp: u64 = 0;
        let mut i: usize = 0;
        while i < interfaces.len()
            invariant
                i <= interfaces.len(),
                rx == counter_total(interfaces@.subrange(0, i as int), |c| rx_bytes_of(c)),
                tx == counter_total(interfaces@.subrange(0, i as int), |c| tx_bytes_of(c)),
                rxp == counter_total(interfaces@.subrange(0, i as int), |c| rx_packets_of(c)),
                txp == counter_total(interfaces@.subrange(0, i as int), |c| tx_packets_of(c)),
            decreases interfaces.len() - i,
        {
            let c = &interfaces[i];
            proof {
                let next = interfaces@.subrange(0, i as int + 1);
                assert(next.drop_last() =~= interfaces@.subrange(0, i as int));
            }
            rx = rx.saturating_add(c.rx_bytes);
            tx = tx.saturating_add(c.tx_bytes);
            rxp = rxp.saturating_add(c.rx_packets);
            txp = txp.saturating_add(c.tx_packets);
            i = i + 1;
        }
        assert(interfaces@.subrange(0, interfaces@.len() as int) =~= interfaces@);
        (rx, tx, rxp, txp)
    }

    /// Samples the interface counters read at `now` (nanoseconds on a
    /// monotonic clock), with the active connection count where known.
    pub fn get_metrics(
        &mut self,
        interfaces: &Vec<InterfaceCounters>,
        connections: Option<i64>,
        now: u64,
    ) -> (r: MetricSnapshot)
        ensures
            r.wf(),
            r@ == old(self).snapshot(interfaces@, connections, now),
            *final(self) == old(self).next(interfaces@, now),
    {
        let (rx, tx, rxp, txp) = Self::get_totals(interfaces);
        let mut m = MetricSnapshot::new();
        m.insert(owned("network.rx_bytes_total"), count_metric(rx));
        m.insert(owned("network.tx_bytes_total"), count_metric(tx));
        m.insert(owned("network.rx_packets_total"), count_metric(rxp));
        m.insert(owned("network.tx_packets_total"), count_metric(txp));
        let r_rx = self.rx_bytes.observe(rx, now);
        let r_tx = self.tx_bytes.observe(tx, now);
        let r_rxp = self.rx_packets.observe(rxp, now);
        let r_txp = self.tx_packets.observe(txp, now);
        if let Some(v) = r_rx {
            m.insert(owned("network.rx_bytes_per_sec"), MetricValue::Int(v as i64));
        }
        if let Some(v) = r_tx {
            m.insert(owned("network.tx_bytes_per_sec"), MetricValue::Int(v as i64));
        }
        if let Some(v) = r_rxp {
            m.insert(owned("network.rx_packets_per_sec"), MetricValue::Int(v as i64));
        }
        if let Some(v) = r_txp {
            m.insert(owned("network.tx_packets_per_sec"), MetricValue::Int(v as i64));
        }
        if let (Some(a), Some(b)) = (r_rx, r_tx) {
            m.insert(owned("network.bandwidth_bytes_per_sec"), count_metric(a + b));
        }
        if let Some(n) = connections {
            m.insert(owned("network.connections_active"), MetricValue::Int(n));
        }
        m.insert(owned("network.interface_count"), count_metric(interfaces.len() as u64));
        m
    }
}

/// The first sample of a freshly made monitor holds no per-second rate.
pub proof fn lemma_first_network_sample_has_no_rates(
    m: NetworkMonitor,
    interfaces: Seq<InterfaceCounters>,
    connections: Option<i64>,
    now: u64,
)
    requires
        m.is_fresh(),
    ensures
        !m.snapshot(interfaces, connections, now).contains_key("network.rx_bytes_per_sec"@),
        !m.snapshot(interfaces, connections, now).contains_key("network.tx_bytes_per_sec"@),
        !m.snapshot(interfaces, connections, now).contains_key("network.rx_packets_per_sec"@),
        !m.snapshot(interfaces, connections, now).contains_key("network.tx_packets_per_sec"@),
        !m.snapshot(interfaces, connections, now).contains_key(
            "network.bandwidth_bytes_per_sec"@,
        ),
{
    reveal_strlit("network.rx_bytes_total");
    reveal_strlit("network.tx_bytes_total");
    reveal_strlit("network.rx_packets_total");
    reveal_strlit("network.tx_packets_total");
    reveal_strlit("network.rx_bytes_per_sec");
    reveal_strlit("network.tx_bytes_per_sec");
    reveal_strlit("network.rx_packets_per_sec");
    reveal_strlit("network.tx_packets_per_sec");
    reveal_strlit("network.bandwidth_bytes_per_sec");
    reveal_strlit("network.connections_active");
    reveal_strlit("network.interface_count");
    assert("network.rx_bytes_per_sec"@[11] != "network.rx_packets_total"@[11]);
    assert("network.rx_bytes_per_sec"@[8] != "network.tx_packets_total"@[8]);
    assert("network.tx_bytes_per_sec"@[8] != "network.rx_packets_total"@[8]);
    assert("network.tx_bytes_per_sec"@[11] != "network.tx_packets_total"@[11]);
    assert("network.rx_bytes_total"@.len() == 22);
    assert("network.tx_bytes_total"@.len() == 22);
    assert("network.rx_bytes_per_sec"@.len() == 24);
    assert("network.tx_bytes_per_sec"@.len() == 24);
    assert("network.rx_packets_per_sec"@.len() == 26);
    assert("network.tx_packets_per_sec"@.len() == 26);
    assert("network.rx_packets_total"@.len() == 24);
    assert("network.tx_packets_total"@.len() == 24);
    assert("network.bandwidth_bytes_per_sec"@.len() == 31);
    assert("network.connections_active"@.len() == 26);
    assert("network.interface_count"@.len() == 23);
    assert("network.rx_packets_per_sec"@[8] != "network.connections_active"@[8]);
    assert("network.tx_packets_per_sec"@[8] != "network.connections_active"@[8]);
}

/// A rate entry: present, an integer, between zero and the cap.
pub open spec fn rate_present(m: Map<Seq<char>, MetricValue>, k: Seq<char>) -> bool {
    m.contains_key(k) && (m[k] matches MetricValue::Int(v) && 0 <= v <= RATE_CAP)
}

/// A sample taken after a positive interval since the previous one holds
/// every rate, each a non-negative integer no larger than the cap.
pub proof fn lemma_second_network_sample_has_rates(
    m: NetworkMonitor,
    interfaces: Seq<InterfaceCounters>,
    connections: Option<i64>,
    now: u64,
)
    requires
        m.rx_bytes.previous is Some,
        m.tx_bytes.previous is Some,
        m.rx_packets.previous is Some,
        m.tx_packets.previous is Some,
        m.rx_bytes.previous.unwrap().1 < now,
        m.tx_bytes.previous.unwrap().1 < now,
        m.rx_packets.previous.unwrap().1 < now,
        m.tx_packets.previous.unwrap().1 < now,
    ensures
        rate_present(m.snapshot(interfaces, connections, now), "network.rx_bytes_per_sec"@),
        rate_present(m.snapshot(interfaces, connections, now), "network.tx_bytes_per_sec"@),
        rate_present(m.snapshot(interfaces, connections, now), "network.rx_packets_per_sec"@),
        rate_present(m.snapshot(interfaces, connections, now), "network.tx_packets_per_sec"@),
        rate_present(m.snapshot(interfaces, connections, now), "network.bandwidth_bytes_per_sec"@),
{
    reveal_strlit("network.rx_bytes_total");
    assert("network.rx_bytes_total"@.len() == 22);
    reveal_strlit("network.tx_bytes_total");
    assert("network.tx_bytes_total"@.len() == 22);
    reveal_strlit("network.rx_packets_total");
    assert("network.rx_packets_total"@.len() == 24);
    reveal_strlit("network.tx_packets_total");
    assert("network.tx_packets_total"@.len() == 24);
    reveal_strlit("network.rx_bytes_per_sec");
    assert("network.rx_bytes_per_sec"@.len() == 24);
    reveal_strlit("network.tx_bytes_per_sec");
    assert("network.tx_bytes_per_sec"@.len() == 24);
    reveal_strlit("network.rx_packets_per_sec");
    assert("network.rx_packets_per_sec"@.len() == 26);
    reveal_strlit("network.tx_packets_per_sec");
    assert("network.tx_packets_per_sec"@.len() == 26);
    reveal_strlit("network.bandwidth_bytes_per_sec");
    assert("network.bandwidth_bytes_per_sec"@.len() == 31);
    reveal_strlit("network.connections_active");
    assert("network.connections_active"@.len() == 26);
    reveal_strlit("network.interface_count");
    assert("network.interface_count"@.len() == 23);
    assert("network.rx_bytes_per_sec"@[8] != "network.tx_bytes_per_sec"@[8]);
    assert("network.rx_packets_per_sec"@[8] != "network.tx_packets_per_sec"@[8]);
    assert("network.rx_packets_per_sec"@[8] != "network.connections_active"@[8]);
    assert("network.tx_packets_per_sec"@[8] != "network.connections_active"@[8]);
}

} // verus!
