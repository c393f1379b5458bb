use system_monitor::metric::{MetricSnapshot, MetricValue};
use system_monitor::rest_api::{
    accelerator_index_of, accelerator_indices, convert_to_response, get_float, get_int, get_string,
    health_response, resolve_node_id, system_info, MetricsQuery, NetworkMetrics,
};
use system_monitor::service::{
    device_filter, fraction_to_text, handshake_token, is_parent_alive, parent_matches,
    socket_file_name, stats_items, stats_sample, use_tcp, value_json, watchdog_enabled,
    watchdog_step, Endpoint, ShutdownSignal, SystemMonitorServiceImpl, WatchdogAction, WatchdogEvent, WatchdogPhase,
    WATCHDOG_INTERVAL_SECS,
};

fn snapshot(entries: &[(&str, MetricValue)]) -> MetricSnapshot {
    let mut m = MetricSnapshot::new();
    for (k, v) in entries {
        m.insert(k.to_string(), v.clone());
    }
    m
}

#[test]
fn value_helpers_convert_between_kinds() {
    let m = snapshot(&[
        ("f", MetricValue::Float(42_500_000)),
        ("i", MetricValue::Int(7)),
        ("n", MetricValue::Float(-2_700_000)),
        ("s", MetricValue::Text("x".to_string())),
    ]);
    assert_eq!(get_float(&m, "f"), Some(42_500_000));
    assert_eq!(get_float(&m, "i"), Some(7_000_000));
    assert_eq!(get_float(&m, "s"), None);
    assert_eq!(get_int(&m, "f"), Some(42));
    assert_eq!(get_int(&m, "n"), Some(-2));
    assert_eq!(get_int(&m, "i"), Some(7));
    assert_eq!(get_int(&m, "missing"), None);
    assert_eq!(get_string(&m, "s"), Some("x".to_string()));
    assert_eq!(get_string(&m, "i"), None);
}

#[test]
fn response_carries_values_over() {
    let cpu = snapshot(&[
        ("cpu.usage_percent", MetricValue::Float(42_500_000)),
        ("cpu.count", MetricValue::Int(2)),
        ("cpu.core0.usage_percent", MetricValue::Float(40_000_000)),
        ("cpu.core1.usage_percent", MetricValue::Float(45_000_000)),
        ("cpu.core1.frequency_mhz", MetricValue::Float(3_000_000_000)),
        ("cpu.load_avg_5min", MetricValue::Float(1_250_000)),
        ("cpu.process_count", MetricValue::Int(120)),
        ("cpu.thread_count", MetricValue::Int(800)),
    ]);
    let memory = snapshot(&[
        ("memory.usage_percent", MetricValue::Float(25_000_000)),
        ("memory.used_bytes", MetricValue::Int(250)),
        ("memory.total_bytes", MetricValue::Int(1000)),
        ("memory.swap_total_bytes", MetricValue::Int(64)),
    ]);
    let disk = snapshot(&[
        ("disk.usage_percent", MetricValue::Float(30_000_000)),
        ("disk.io_total_ops_per_sec", MetricValue::Int(9)),
    ]);
    let network = snapshot(&[
        ("network.rx_bytes_per_sec", MetricValue::Int(1000)),
        ("network.connections_active", MetricValue::Int(4)),
    ]);
    let gpu = snapshot(&[
        ("accelerator.3.name", MetricValue::Text("Card".to_string())),
        ("accelerator.3.gpu_utilization", MetricValue::Float(55_000_000)),
        ("accelerator.0.memory_used", MetricValue::Int(2048)),
        ("accelerator.0.power_usage", MetricValue::Float(70_000_000)),
        ("other.1.name", MetricValue::Text("skip".to_string())),
    ]);
    let r = convert_to_response("node-a".to_string(), cpu, memory, disk, network, gpu, 1_700_000_000_000);
    assert_eq!(r.node_id, "node-a");
    assert_eq!(r.timestamp, 1_700_000_000_000);
    assert_eq!(r.cpu.overall, 42_500_000);
    assert_eq!(r.cpu.cores.len(), 2);
    assert_eq!(r.cpu.cores[1].usage, 45_000_000);
    assert_eq!(r.cpu.cores[1].frequency, 3_000_000_000);
    assert_eq!(r.cpu.cores[0].frequency, 0);
    assert_eq!(r.cpu.cores[0].temperature, None);
    assert_eq!(r.cpu.load_average, vec![0, 1_250_000, 0]);
    assert_eq!(r.cpu.processes, 120);
    assert_eq!(r.cpu.threads, 800);
    assert_eq!(r.memory.usage, 25_000_000);
    assert_eq!(r.memory.used, 250);
    assert_eq!(r.memory.total, 1000);
    assert_eq!(r.memory.swap.total, 64);
    assert_eq!(r.memory.swap.percentage, 0);
    assert_eq!(r.disk.usage, 30_000_000);
    assert_eq!(r.disk.iops, 9);
    assert_eq!(r.disk.used, 0);
    assert_eq!(
        r.network,
        NetworkMetrics { bytes_in: 1000, bytes_out: 0, packets_in: 0, packets_out: 0, connections: 4 }
    );
    assert_eq!(r.accelerators.len(), 2);
    assert_eq!(r.accelerators[0].id, 0);
    assert_eq!(r.accelerators[0].name, "GPU 0");
    assert_eq!(r.accelerators[0].device_type, "gpu");
    assert_eq!(r.accelerators[0].memory.used, 2048);
    assert_eq!(r.accelerators[0].power, Some(70_000_000));
    assert_eq!(r.accelerators[0].fan_speed, None);
    assert_eq!(r.accelerators[1].id, 3);
    assert_eq!(r.accelerators[1].name, "Card");
    assert_eq!(r.accelerators[1].utilization, 55_000_000);
}

#[test]
fn missing_core_count_means_one_core() {
    let empty = || MetricSnapshot::new();
    let r = convert_to_response("n".to_string(), empty(), empty(), empty(), empty(), empty(), 0);
    assert_eq!(r.cpu.cores.len(), 1);
    assert_eq!(r.cpu.cores[0].id, 0);
    assert_eq!(r.cpu.overall, 0);
    assert!(r.accelerators.is_empty());
}

#[test]
fn accelerator_keys_are_scanned() {
    assert_eq!(accelerator_index_of("accelerator.12.name"), Some(12));
    assert_eq!(accelerator_index_of("accelerator.7"), Some(7));
    assert_eq!(accelerator_index_of("accelerator..name"), None);
    assert_eq!(accelerator_index_of("accelerator.x1.name"), None);
    assert_eq!(accelerator_index_of("gpu.1.name"), None);
    let gpu = snapshot(&[
        ("accelerator.5.a", MetricValue::Int(1)),
        ("accelerator.2.a", MetricValue::Int(1)),
        ("accelerator.5.b", MetricValue::Int(1)),
    ]);
    assert_eq!(accelerator_indices(&gpu), vec![2, 5]);
}

#[test]
fn node_id_query_overrides_default() {
    let default = "localhost".to_string();
    assert_eq!(resolve_node_id(MetricsQuery { node_id: Some("n7".to_string()) }, &default), "n7");
    assert_eq!(resolve_node_id(MetricsQuery { node_id: None }, &default), "localhost");
}

#[test]
fn health_reports_healthy() {
    let r = health_response("2024-01-01T00:00:00+00:00".to_string());
    assert_eq!(r[0], ("status".to_string(), "healthy".to_string()));
    assert_eq!(r[1], ("service".to_string(), "system_monitor".to_string()));
    assert_eq!(r[2].1, "2024-01-01T00:00:00+00:00");
}

#[test]
fn system_info_defaults_and_totals() {
    let info = system_info(
        "linux".to_string(),
        "x86_64".to_string(),
        &vec!["Model X".to_string(), "Model X".to_string()],
        1 << 30,
        1 << 20,
        &vec![100, 200],
        Some((2, "nvidia".to_string())),
        None,
        None,
    );
    assert_eq!(info.cpu_model, "Model X");
    assert_eq!(info.cpu_cores, 2);
    assert_eq!(info.cpu_threads, 2);
    assert_eq!(info.disk_total, 300);
    assert_eq!(info.gpu_count, 1);
    assert_eq!(info.gpu_info, vec!["2 GPU(s) - nvidia".to_string()]);
    assert_eq!(info.hostname, "unknown");
    assert_eq!(info.ip_address, "127.0.0.1");
    let bare = system_info(String::new(), String::new(), &vec![], 0, 0, &vec![], None, Some("h".to_string()), Some("10.0.0.2".to_string()));
    assert_eq!(bare.cpu_model, "Unknown");
    assert_eq!(bare.gpu_count, 0);
    assert_eq!(bare.hostname, "h");
    assert_eq!(bare.ip_address, "10.0.0.2");
}

#[test]
fn tear_down_twice_is_a_noop() {
    let mut service = SystemMonitorServiceImpl::new(42, 17u32);
    assert!(service.watches_parent());
    assert!(!service.shutdown.has_fired());
    assert_eq!(service.tear_down(), Some(17));
    assert!(service.shutdown.has_fired());
    assert_eq!(service.tear_down(), None);
    assert_eq!(service.shutdown.fire(), None);
    assert!(!SystemMonitorServiceImpl::new(0, ()).watches_parent());
}

#[test]
fn shutdown_signal_fires_once() {
    let mut signal = ShutdownSignal::new("sender");
    assert_eq!(signal.fire(), Some("sender"));
    assert_eq!(signal.fire(), None);
}

#[test]
fn watchdog_fires_once_then_stops() {
    assert!(watchdog_enabled(42));
    assert!(!watchdog_enabled(0));
    assert_eq!(WATCHDOG_INTERVAL_SECS, 5);
    let alive = WatchdogEvent::Checked { parent_alive: true };
    let gone = WatchdogEvent::Checked { parent_alive: false };
    assert_eq!(watchdog_step(WatchdogPhase::Running, alive), (WatchdogPhase::Running, WatchdogAction::KeepWatching));
    assert_eq!(watchdog_step(WatchdogPhase::Running, gone), (WatchdogPhase::Firing, WatchdogAction::FireShutdown));
    assert_eq!(watchdog_step(WatchdogPhase::Firing, WatchdogEvent::Fired), (WatchdogPhase::Stopped, WatchdogAction::Exit));
    assert_eq!(watchdog_step(WatchdogPhase::Stopped, gone), (WatchdogPhase::Stopped, WatchdogAction::Exit));
}

#[test]
fn parent_check_compares_ids() {
    assert!(parent_matches(10, 10));
    assert!(!parent_matches(10, 11));
    assert!(!is_parent_alive(-12345));
}

#[test]
fn handshake_tokens() {
    assert_eq!(handshake_token(&Endpoint::Tcp(50051)), "sock=50051");
    assert_eq!(handshake_token(&Endpoint::Tcp(0)), "sock=0");
    assert_eq!(handshake_token(&Endpoint::Unix("/tmp/a.sock".to_string())), "unix=/tmp/a.sock");
    assert!(use_tcp(true, false));
    assert!(use_tcp(false, true));
    assert!(!use_tcp(false, false));
    assert_eq!(socket_file_name(-1, 77, 1234), "wandb_gpu_stats--1-77-1234.sock");
}

#[test]
fn values_are_written_as_json() {
    assert_eq!(value_json(&MetricValue::Int(-42)), "-42");
    assert_eq!(value_json(&MetricValue::Int(i64::MIN)), "-9223372036854775808");
    assert_eq!(value_json(&MetricValue::Float(42_500_000)), "42.5");
    assert_eq!(value_json(&MetricValue::Float(3_000_000)), "3.0");
    assert_eq!(value_json(&MetricValue::Float(-1)), "-0.000001");
    assert_eq!(value_json(&MetricValue::Bool(true)), "true");
    assert_eq!(value_json(&MetricValue::Text("gpu \"0\"".to_string())), "\"gpu \\\"0\\\"\"");
    assert_eq!(fraction_to_text(10_250_000), "10.25");
}

#[test]
fn stats_skip_internal_keys() {
    let sample = stats_sample(
        1_700_000_000_000_000,
        vec![
            ("accelerator.0.temperature".to_string(), MetricValue::Float(61_000_000)),
            ("_internal".to_string(), MetricValue::Int(1)),
            ("accelerator.0.name".to_string(), MetricValue::Text("A100".to_string())),
        ],
    );
    assert_eq!(sample.len(), 4);
    assert_eq!(sample[0].0, "_timestamp");
    let items = stats_items(&sample);
    assert_eq!(items.len(), 2);
    assert_eq!(items[0].key, "accelerator.0.temperature");
    assert_eq!(items[0].value_json, "61.0");
    assert_eq!(items[1].value_json, "\"A100\"");
    assert_eq!(device_filter(vec![]), None);
    assert_eq!(device_filter(vec![1, 2]), Some(vec![1, 2]));
}
