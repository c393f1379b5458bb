use system_monitor::cpu_monitor::{CoreReading, CpuMonitor, CpuReading, LoadAverages};
use system_monitor::disk_monitor::{aggregate_io, DiskCounters, DiskMonitor, MountUsage};
use system_monitor::memory_monitor::{MemoryMonitor, MemoryReading};
use system_monitor::metric::{MetricSnapshot, MetricValue, PERCENT_FULL};
use system_monitor::network_monitor::{get_connection_count, InterfaceCounters, NetworkMonitor};
use system_monitor::rate::{rate_per_second, RateWindow, RATE_CAP};

const SECOND: u64 = 1_000_000_000;

fn core_at(usage: i64, mhz: u64) -> CoreReading {
    CoreReading { usage, frequency_mhz: mhz, brand: "Test CPU".to_string() }
}

fn cpu_reading() -> CpuReading {
    CpuReading {
        cores: vec![core_at(10_000_000, 2400), core_at(30_000_000, 2600)],
        load_average: Some(LoadAverages { one: 1_500_000, five: 1_000_000, fifteen: 500_000 }),
        thread_counts: vec![Some(4), None, Some(2)],
        temperature: Some(45_000_000),
    }
}

fn memory_reading() -> MemoryReading {
    MemoryReading {
        total: 1000,
        used: 250,
        available: 750,
        free: 700,
        swap_total: 0,
        swap_used: 0,
        swap_free: 0,
    }
}

fn ifaces(rx: u64, tx: u64, rxp: u64, txp: u64) -> Vec<InterfaceCounters> {
    vec![InterfaceCounters { rx_bytes: rx, tx_bytes: tx, rx_packets: rxp, tx_packets: txp }]
}

fn disk(name: &str, sectors_read: u64, sectors_written: u64, reads: u64, writes: u64) -> DiskCounters {
    DiskCounters { name: name.to_string(), sectors_read, sectors_written, reads, writes }
}

fn mount(path: &str, total: u64, available: u64) -> MountUsage {
    MountUsage { mount_point: path.to_string(), total, available }
}

#[test]
fn test_cpu_monitor_creation() {
    let mut monitor = CpuMonitor::new();
    let metrics = monitor.get_metrics(&cpu_reading());
    assert!(metrics.len() > 0);
}

#[test]
fn test_cpu_metrics_collection() {
    let mut monitor = CpuMonitor::new();
    let metrics = monitor.get_metrics(&cpu_reading());
    assert!(metrics.contains_key("cpu.usage_percent"));
    assert!(metrics.contains_key("cpu.count"));
    assert!(metrics.contains_key("cpu.process_count"));
    assert!(metrics.contains_key("cpu.thread_count"));
    for i in 0..2 {
        assert!(metrics.contains_key(&format!("cpu.core{}.usage_percent", i)));
        assert!(metrics.contains_key(&format!("cpu.core{}.frequency_mhz", i)));
    }
}

#[test]
fn cpu_values_are_exact() {
    let mut monitor = CpuMonitor::new();
    let m = monitor.get_metrics(&cpu_reading());
    assert_eq!(m.get("cpu.usage_percent"), Some(&MetricValue::Float(20_000_000)));
    assert_eq!(m.get("cpu.count"), Some(&MetricValue::Int(2)));
    assert_eq!(m.get("cpu.process_count"), Some(&MetricValue::Int(3)));
    assert_eq!(m.get("cpu.thread_count"), Some(&MetricValue::Int(7)));
    assert_eq!(m.get("cpu.core1.frequency_mhz"), Some(&MetricValue::Float(2_600_000_000)));
    assert_eq!(m.get("cpu.load_avg_1min"), Some(&MetricValue::Float(1_500_000)));
    assert_eq!(m.get("cpu.temperature_celsius"), Some(&MetricValue::Float(45_000_000)));
    assert_eq!(m.get("cpu.brand"), Some(&MetricValue::Text("Test CPU".to_string())));
}

#[test]
fn cpu_without_cores_reports_zero_usage() {
    let mut monitor = CpuMonitor::new();
    let reading = CpuReading { cores: vec![], load_average: None, thread_counts: vec![], temperature: None };
    let m = monitor.get_metrics(&reading);
    assert_eq!(m.get("cpu.usage_percent"), Some(&MetricValue::Float(0)));
    assert!(!m.contains_key("cpu.brand"));
    assert!(!m.contains_key("cpu.load_avg_1min"));
}

#[test]
fn cpu_usage_is_held_within_range() {
    let mut monitor = CpuMonitor::new();
    let reading = CpuReading {
        cores: vec![core_at(-5, 1000), core_at(PERCENT_FULL + 7, 1000)],
        load_average: None,
        thread_counts: vec![],
        temperature: None,
    };
    let m = monitor.get_metrics(&reading);
    assert_eq!(m.get("cpu.core0.usage_percent"), Some(&MetricValue::Float(0)));
    assert_eq!(m.get("cpu.core1.usage_percent"), Some(&MetricValue::Float(PERCENT_FULL)));
    assert_eq!(m.get("cpu.usage_percent"), Some(&MetricValue::Float(PERCENT_FULL / 2)));
}

#[test]
fn test_memory_monitor_creation() {
    let mut monitor = MemoryMonitor::new();
    let metrics = monitor.get_metrics(&memory_reading());
    assert_eq!(metrics.get("memory.total_bytes"), Some(&MetricValue::Int(1000)));
}

#[test]
fn test_memory_metrics_collection() {
    let mut monitor = MemoryMonitor::new();
    let metrics = monitor.get_metrics(&memory_reading());
    for key in [
        "memory.total_bytes",
        "memory.used_bytes",
        "memory.available_bytes",
        "memory.free_bytes",
        "memory.usage_percent",
        "memory.swap_total_bytes",
        "memory.swap_used_bytes",
        "memory.pressure_high",
    ] {
        assert!(metrics.contains_key(key), "{}", key);
    }
    if let Some(MetricValue::Int(total)) = metrics.get("memory.total_bytes") {
        assert!(*total > 0);
    }
    if let Some(MetricValue::Float(usage)) = metrics.get("memory.usage_percent") {
        assert!(*usage >= 0 && *usage <= PERCENT_FULL);
    }
}

#[test]
fn memory_percentages_and_pressure() {
    let mut monitor = MemoryMonitor::new();
    let m = monitor.get_metrics(&memory_reading());
    assert_eq!(m.get("memory.usage_percent"), Some(&MetricValue::Float(25_000_000)));
    assert_eq!(m.get("memory.swap_usage_percent"), Some(&MetricValue::Float(0)));
    assert_eq!(m.get("memory.pressure_high"), Some(&MetricValue::Int(0)));
    let busy = MemoryReading { used: 901, ..memory_reading() };
    let m = monitor.get_metrics(&busy);
    assert_eq!(m.get("memory.pressure_high"), Some(&MetricValue::Int(1)));
    let edge = MemoryReading { used: 900, ..memory_reading() };
    let m = monitor.get_metrics(&edge);
    assert_eq!(m.get("memory.pressure_high"), Some(&MetricValue::Int(0)));
    let over = MemoryReading { used: 5000, ..memory_reading() };
    let m = monitor.get_metrics(&over);
    assert_eq!(m.get("memory.usage_percent"), Some(&MetricValue::Float(PERCENT_FULL)));
}

#[test]
fn test_disk_monitor_creation() {
    let mut monitor = DiskMonitor::new();
    let metrics = monitor.get_metrics(&vec![mount("/", 100, 40)], None, SECOND);
    assert!(metrics.len() > 0);
}

#[test]
fn test_disk_metrics_collection() {
    let mut monitor = DiskMonitor::new();
    let mounts = vec![mount("/", 1000, 400), mount("/home", 1000, 1000), mount("/proc", 50, 0)];
    let metrics = monitor.get_metrics(&mounts, None, SECOND);
    assert!(metrics.contains_key("disk.total_bytes"));
    assert!(metrics.contains_key("disk.used_bytes"));
    assert!(metrics.contains_key("disk.usage_percent"));
    assert_eq!(metrics.get("disk.total_bytes"), Some(&MetricValue::Int(2000)));
    assert_eq!(metrics.get("disk.used_bytes"), Some(&MetricValue::Int(600)));
    assert_eq!(metrics.get("disk.usage_percent"), Some(&MetricValue::Float(30_000_000)));
    assert_eq!(metrics.get("disk.root.usage_percent"), Some(&MetricValue::Float(60_000_000)));
    assert_eq!(metrics.get("disk.root.available_bytes"), Some(&MetricValue::Int(400)));
}

#[test]
fn disk_without_space_reports_zero_percent() {
    let mut monitor = DiskMonitor::new();
    let m = monitor.get_metrics(&vec![], None, SECOND);
    assert_eq!(m.get("disk.total_bytes"), Some(&MetricValue::Int(0)));
    assert_eq!(m.get("disk.usage_percent"), Some(&MetricValue::Float(0)));
    assert!(!m.contains_key("disk.root.total_bytes"));
}

#[test]
fn disk_first_sample_has_no_io_rates() {
    let mut monitor = DiskMonitor::new();
    let m = monitor.get_metrics(&vec![], Some(vec![disk("sda", 10, 10, 1, 1)]), SECOND);
    assert!(!m.contains_key("disk.io_read_bytes_per_sec"));
    assert!(!m.contains_key("disk.io_total_ops_per_sec"));
}

#[test]
fn disk_io_counts_whole_devices_only() {
    let prev = vec![disk("sda", 0, 0, 0, 0), disk("sda1", 0, 0, 0, 0)];
    let curr = vec![disk("sda", 100, 50, 10, 5), disk("sda1", 100, 50, 10, 5)];
    assert_eq!(aggregate_io(&prev, &curr), (100 * 512, 50 * 512, 10, 5));
    let mut monitor = DiskMonitor::new();
    monitor.get_metrics(&vec![], Some(prev), SECOND);
    let m = monitor.get_metrics(&vec![], Some(curr), 3 * SECOND);
    assert_eq!(m.get("disk.io_read_bytes_per_sec"), Some(&MetricValue::Int(100 * 512 / 2)));
    assert_eq!(m.get("disk.io_write_bytes_per_sec"), Some(&MetricValue::Int(50 * 512 / 2)));
    assert_eq!(m.get("disk.io_read_ops_per_sec"), Some(&MetricValue::Int(5)));
    assert_eq!(m.get("disk.io_write_ops_per_sec"), Some(&MetricValue::Int(2)));
    assert_eq!(m.get("disk.io_total_ops_per_sec"), Some(&MetricValue::Int(7)));
}

#[test]
fn disk_counter_reset_gives_zero_rate() {
    let mut monitor = DiskMonitor::new();
    monitor.get_metrics(&vec![], Some(vec![disk("nvme0n", 1000, 1000, 100, 100)]), SECOND);
    let m = monitor.get_metrics(&vec![], Some(vec![disk("nvme0n", 10, 10, 1, 1)]), 2 * SECOND);
    assert_eq!(m.get("disk.io_read_bytes_per_sec"), Some(&MetricValue::Int(0)));
    assert_eq!(m.get("disk.io_total_ops_per_sec"), Some(&MetricValue::Int(0)));
}

#[test]
fn disk_stalled_clock_keeps_previous_reading() {
    let mut monitor = DiskMonitor::new();
    monitor.get_metrics(&vec![], Some(vec![disk("sda", 0, 0, 0, 0)]), 5 * SECOND);
    let m = monitor.get_metrics(&vec![], Some(vec![disk("sda", 8, 0, 4, 0)]), 5 * SECOND);
    assert!(!m.contains_key("disk.io_read_ops_per_sec"));
    let m = monitor.get_metrics(&vec![], Some(vec![disk("sda", 8, 0, 4, 0)]), 6 * SECOND);
    assert_eq!(m.get("disk.io_read_ops_per_sec"), Some(&MetricValue::Int(4)));
}

#[test]
fn test_network_monitor_creation() {
    let monitor = NetworkMonitor::new();
    assert!(monitor.rx_bytes.previous.is_none());
}

#[test]
fn test_network_metrics_collection() {
    let mut monitor = NetworkMonitor::new();
    let metrics = monitor.get_metrics(&ifaces(1000, 500, 10, 5), None, SECOND);
    assert!(metrics.contains_key("network.rx_bytes_total"));
    assert!(metrics.contains_key("network.tx_bytes_total"));
    assert!(metrics.contains_key("network.rx_packets_total"));
    assert!(metrics.contains_key("network.tx_packets_total"));
    assert!(metrics.contains_key("network.interface_count"));
    assert!(!metrics.contains_key("network.rx_bytes_per_sec"));
    let metrics = monitor.get_metrics(&ifaces(1000, 500, 10, 5), None, SECOND + 100_000_000);
    assert!(metrics.contains_key("network.rx_bytes_per_sec"));
    assert!(metrics.contains_key("network.tx_bytes_per_sec"));
    assert!(metrics.contains_key("network.bandwidth_bytes_per_sec"));
}

#[test]
fn network_rates_are_exact() {
    let mut monitor = NetworkMonitor::new();
    monitor.get_metrics(&ifaces(1000, 500, 10, 5), Some(3), SECOND);
    let m = monitor.get_metrics(&ifaces(3000, 1500, 30, 9), Some(3), 3 * SECOND);
    assert_eq!(m.get("network.rx_bytes_per_sec"), Some(&MetricValue::Int(1000)));
    assert_eq!(m.get("network.tx_bytes_per_sec"), Some(&MetricValue::Int(500)));
    assert_eq!(m.get("network.rx_packets_per_sec"), Some(&MetricValue::Int(10)));
    assert_eq!(m.get("network.tx_packets_per_sec"), Some(&MetricValue::Int(2)));
    assert_eq!(m.get("network.bandwidth_bytes_per_sec"), Some(&MetricValue::Int(1500)));
    assert_eq!(m.get("network.connections_active"), Some(&MetricValue::Int(3)));
    assert_eq!(m.get("network.interface_count"), Some(&MetricValue::Int(1)));
}

#[test]
fn network_counter_reset_gives_zero_rate() {
    let mut monitor = NetworkMonitor::new();
    monitor.get_metrics(&ifaces(5000, 5000, 50, 50), None, SECOND);
    let m = monitor.get_metrics(&ifaces(10, 6000, 1, 60), None, 2 * SECOND);
    assert_eq!(m.get("network.rx_bytes_per_sec"), Some(&MetricValue::Int(0)));
    assert_eq!(m.get("network.tx_bytes_per_sec"), Some(&MetricValue::Int(1000)));
}

#[test]
fn network_totals_sum_interfaces() {
    let list = vec![
        InterfaceCounters { rx_bytes: 1, tx_bytes: 2, rx_packets: 3, tx_packets: 4 },
        InterfaceCounters { rx_bytes: u64::MAX, tx_bytes: 20, rx_packets: 30, tx_packets: 40 },
    ];
    assert_eq!(NetworkMonitor::get_totals(&list), (u64::MAX, 22, 33, 44));
}

#[test]
fn connection_tables_skip_headers() {
    let tcp = "  sl  local_address rem_address\n   0: 0100007F:1F90\n   1: 0100007F:0277\n";
    let tcp6 = "  sl  local_address\n   0: 0000\n";
    assert_eq!(get_connection_count(Some(tcp), Some(tcp6)), Some(3));
    assert_eq!(get_connection_count(Some("header only\n"), None), None);
    assert_eq!(get_connection_count(None, None), None);
}

#[test]
fn rate_window_first_observation_has_no_rate() {
    let mut w = RateWindow::new();
    assert_eq!(w.observe(100, SECOND), None);
    assert_eq!(w.observe(300, 3 * SECOND), Some(100));
    assert_eq!(w.observe(50, 4 * SECOND), Some(0));
    assert_eq!(w.observe(60, 4 * SECOND), None);
    assert_eq!(w.previous, Some((50, 4 * SECOND)));
}

#[test]
fn rate_is_capped_and_rounded_down() {
    assert_eq!(rate_per_second(10, 3 * SECOND), 3);
    assert_eq!(rate_per_second(u64::MAX, 1), RATE_CAP);
    assert_eq!(rate_per_second(0, 1), 0);
}

#[test]
fn snapshot_insert_replaces() {
    let mut m = MetricSnapshot::new();
    m.insert("a".to_string(), MetricValue::Int(1));
    m.insert("b".to_string(), MetricValue::Bool(true));
    m.insert("a".to_string(), MetricValue::Int(2));
    assert_eq!(m.len(), 2);
    assert_eq!(m.get("a"), Some(&MetricValue::Int(2)));
    assert_eq!(m.get("c"), None);
}
