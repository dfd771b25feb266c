use simon::catalog::{
    catalog, no_labels, one_label, two_labels, CPU_SECONDS_TOTAL, CPU_USAGE, FAMILY_COUNT,
    MEMORY_AVAILABLE, MEMORY_FREE, MEMORY_TOTAL, MEMORY_USED, NETWORK_ERRORS_ON_RECEIVED_TOTAL,
    NETWORK_ERRORS_ON_TRANSMITTED_TOTAL, NETWORK_PACKETS_RECEIVED_TOTAL,
    NETWORK_PACKETS_TRANSMITTED_TOTAL, NETWORK_RECEIVED_TOTAL, NETWORK_TRANSMITTED_TOTAL,
    PROCESS_CPU_USAGE, PROCESS_DISK_READ_TOTAL, PROCESS_DISK_WRITE_TOTAL, PROCESS_MEMORY,
    PROCESS_RUNTIME, PROCESS_START_TIME, PROCESS_VIRTUAL_MEMORY, SWAP_FREE, SWAP_TOTAL, SWAP_USED,
    USAGE_SCALE,
};
use simon::decimal::decimal_string;
use simon::metrics::Metrics;
use simon::model::MetricKind;
use simon::sample::{
    CpuSample, InterfaceSample, MemorySample, NetworkSample, ProcessSample, SwapSample,
    SystemSample,
};
use simon::store::{FamilySpec, MetricStore, StoreError};

const MIB: u64 = 1024 * 1024;

fn fresh() -> Metrics {
    Metrics::new(MetricStore::new()).unwrap()
}

fn process(name: &str) -> ProcessSample {
    ProcessSample {
        name: Some(name.to_string()),
        start_time: 0,
        run_time: 0,
        cpu_usage: 0,
        memory: 0,
        virtual_memory: 0,
        disk_read_bytes: 0,
        disk_written_bytes: 0,
    }
}

fn system(processes: Vec<ProcessSample>) -> SystemSample {
    SystemSample {
        cpus: vec![],
        memory: MemorySample { total: 0, free: 0, available: 0, used: 0 },
        swap: SwapSample { total: 0, free: 0, used: 0 },
        processes,
    }
}

fn network(received: u64) -> NetworkSample {
    NetworkSample {
        received,
        transmitted: 0,
        packets_received: 0,
        packets_transmitted: 0,
        errors_on_received: 0,
        errors_on_transmitted: 0,
    }
}

fn names_of(metrics: &Metrics, family: &str) -> Vec<String> {
    metrics
        .snapshot()
        .into_iter()
        .filter(|e| e.name == family)
        .map(|e| e.labels[0].1.clone())
        .collect()
}

#[test]
fn catalog_holds_the_families_in_order() {
    let families = catalog();
    assert_eq!(families.len(), FAMILY_COUNT);
    assert_eq!(FAMILY_COUNT, 22);
    assert_eq!(families[CPU_SECONDS_TOTAL].name, "simon_cpu_cpu_seconds_total");
    assert_eq!(families[CPU_SECONDS_TOTAL].help, "Total CPU seconds");
    assert_eq!(families[CPU_SECONDS_TOTAL].label_names, vec!["core", "mode"]);
    assert_eq!(families[CPU_SECONDS_TOTAL].kind, MetricKind::Counter);
    assert_eq!(families[MEMORY_TOTAL].name, "simon_memory_total_bytes");
    assert_eq!(families[MEMORY_FREE].name, "simon_memory_free_bytes");
    assert_eq!(families[MEMORY_AVAILABLE].name, "simon_memory_available_bytes");
    assert_eq!(families[MEMORY_USED].name, "simon_memory_used_bytes");
    assert!(families[MEMORY_USED].label_names.is_empty());
    assert_eq!(families[MEMORY_USED].kind, MetricKind::Gauge);
    assert_eq!(families[SWAP_TOTAL].name, "simon_swap_total_bytes");
    assert_eq!(families[SWAP_FREE].name, "simon_swap_free_bytes");
    assert_eq!(families[SWAP_USED].name, "simon_swap_used_bytes");
    assert_eq!(families[PROCESS_MEMORY].name, "simon_process_memory_bytes");
    assert_eq!(families[PROCESS_VIRTUAL_MEMORY].name, "simon_process_virtual_memory_bytes");
    assert_eq!(families[PROCESS_START_TIME].name, "simon_process_start_time_seconds");
    assert_eq!(families[PROCESS_RUNTIME].name, "simon_process_runtime_seconds");
    assert_eq!(families[PROCESS_CPU_USAGE].name, "simon_process_cpu_usage_percentage");
    assert_eq!(families[PROCESS_CPU_USAGE].label_names, vec!["name"]);
    assert_eq!(families[PROCESS_CPU_USAGE].scale, USAGE_SCALE);
    assert_eq!(families[PROCESS_MEMORY].scale, 1);
    assert_eq!(families[PROCESS_DISK_READ_TOTAL].name, "simon_process_disk_read_bytes_total");
    assert_eq!(families[PROCESS_DISK_WRITE_TOTAL].name, "simon_process_disk_write_bytes_total");
    assert_eq!(families[PROCESS_DISK_WRITE_TOTAL].kind, MetricKind::Counter);
    assert_eq!(families[NETWORK_RECEIVED_TOTAL].name, "simon_network_received_bytes_total");
    assert_eq!(families[NETWORK_TRANSMITTED_TOTAL].name, "simon_network_transmitted_bytes_total");
    assert_eq!(
        families[NETWORK_PACKETS_RECEIVED_TOTAL].name,
        "simon_network_packets_received_total"
    );
    assert_eq!(
        families[NETWORK_PACKETS_TRANSMITTED_TOTAL].name,
        "simon_network_packets_transmitted_total"
    );
    assert_eq!(
        families[NETWORK_ERRORS_ON_RECEIVED_TOTAL].name,
        "simon_network_errors_on_received_total"
    );
    assert_eq!(
        families[NETWORK_ERRORS_ON_TRANSMITTED_TOTAL].name,
        "simon_network_errors_on_transmitted_total"
    );
    assert_eq!(families[NETWORK_RECEIVED_TOTAL].label_names, vec!["interface"]);
    assert_eq!(families[CPU_USAGE].name, "simon_cpu_usage_percentage");
    assert_eq!(families[CPU_USAGE].label_names, vec!["core"]);
    assert_eq!(families[CPU_USAGE].kind, MetricKind::Gauge);
}

#[test]
fn catalog_names_are_distinct() {
    let families = catalog();
    for i in 0..families.len() {
        for j in 0..i {
            assert_ne!(families[i].name, families[j].name);
        }
    }
}

#[test]
fn label_builders_keep_the_order() {
    assert!(no_labels().is_empty());
    assert_eq!(one_label("eth0"), vec!["eth0"]);
    assert_eq!(two_labels("3", "idle"), vec!["3", "idle"]);
}

#[test]
fn decimal_string_writes_numbers() {
    assert_eq!(decimal_string(0), "0");
    assert_eq!(decimal_string(7), "7");
    assert_eq!(decimal_string(10), "10");
    assert_eq!(decimal_string(109), "109");
    assert_eq!(decimal_string(4096), "4096");
    assert_eq!(decimal_string(usize::MAX), usize::MAX.to_string());
}

#[test]
fn new_registers_the_catalog_without_series() {
    let metrics = fresh();
    let families = metrics.families();
    assert_eq!(families.len(), FAMILY_COUNT);
    assert_eq!(families[0].name, "simon_cpu_cpu_seconds_total");
    assert_eq!(families[FAMILY_COUNT - 1].name, "simon_cpu_usage_percentage");
    assert!(metrics.snapshot().is_empty());
}

#[test]
fn new_refuses_a_registry_that_holds_one_of_the_names() {
    let mut registry = MetricStore::new();
    let taken = FamilySpec {
        name: "simon_memory_used_bytes".to_string(),
        help: String::new(),
        label_names: vec![],
        kind: MetricKind::Gauge,
        scale: 1,
    };
    assert_eq!(registry.register(taken), Ok(0));
    assert!(matches!(Metrics::new(registry), Err(StoreError::DuplicateFamily)));
}

#[test]
fn new_registers_behind_the_families_of_the_registry() {
    let mut registry = MetricStore::new();
    let other = FamilySpec {
        name: "build_info".to_string(),
        help: String::new(),
        label_names: vec!["version".to_string()],
        kind: MetricKind::Gauge,
        scale: 1,
    };
    assert_eq!(registry.register(other), Ok(0));
    let mut metrics = Metrics::new(registry).unwrap();
    let families = metrics.families();
    assert_eq!(families.len(), FAMILY_COUNT + 1);
    assert_eq!(families[0].name, "build_info");
    assert_eq!(families[1].name, "simon_cpu_cpu_seconds_total");
    metrics.update_memory_metrics(8, 4, 6, 2);
    assert_eq!(metrics.value(MEMORY_TOTAL, &no_labels()), Some(8));
    let snapshot = metrics.snapshot();
    assert_eq!(snapshot[0].name, "simon_memory_total_bytes");
}

#[test]
fn two_workers_are_summed_under_one_name() {
    let mut metrics = fresh();
    let mut first = process("worker");
    first.cpu_usage = 10 * USAGE_SCALE;
    first.memory = 100 * MIB;
    let mut second = process("worker");
    second.cpu_usage = 15 * USAGE_SCALE;
    second.memory = 50 * MIB;
    metrics.update_system_metrics(&system(vec![first, second]));
    let worker = one_label("worker");
    assert_eq!(metrics.value(PROCESS_CPU_USAGE, &worker), Some(25 * USAGE_SCALE));
    assert_eq!(metrics.value(PROCESS_CPU_USAGE, &worker).unwrap() / USAGE_SCALE, 25);
    assert_eq!(metrics.value(PROCESS_MEMORY, &worker), Some(157286400));
    assert_eq!(names_of(&metrics, "simon_process_memory_bytes"), vec!["worker"]);
}

#[test]
fn update_process_metrics_folds_one_process_in() {
    let mut metrics = fresh();
    let mut p = process("db");
    p.start_time = 1000;
    p.run_time = 50;
    p.cpu_usage = 1500;
    p.memory = 4096;
    p.virtual_memory = 8192;
    p.disk_read_bytes = 10;
    p.disk_written_bytes = 20;
    metrics.update_process_metrics("db", &p);
    let db = one_label("db");
    assert_eq!(metrics.value(PROCESS_CPU_USAGE, &db), Some(1500));
    assert_eq!(metrics.value(PROCESS_MEMORY, &db), Some(4096));
    assert_eq!(metrics.value(PROCESS_VIRTUAL_MEMORY, &db), Some(8192));
    assert_eq!(metrics.value(PROCESS_START_TIME, &db), Some(1000));
    assert_eq!(metrics.value(PROCESS_RUNTIME, &db), Some(50));
    assert_eq!(metrics.value(PROCESS_DISK_READ_TOTAL, &db), Some(10));
    assert_eq!(metrics.value(PROCESS_DISK_WRITE_TOTAL, &db), Some(20));
    let mut q = process("ignored");
    q.start_time = 900;
    q.run_time = 70;
    q.cpu_usage = 500;
    q.memory = 1;
    q.virtual_memory = 2;
    q.disk_read_bytes = 3;
    q.disk_written_bytes = 4;
    metrics.update_process_metrics("db", &q);
    assert_eq!(metrics.value(PROCESS_CPU_USAGE, &db), Some(2000));
    assert_eq!(metrics.value(PROCESS_MEMORY, &db), Some(4097));
    assert_eq!(metrics.value(PROCESS_VIRTUAL_MEMORY, &db), Some(8194));
    assert_eq!(metrics.value(PROCESS_START_TIME, &db), Some(900));
    assert_eq!(metrics.value(PROCESS_RUNTIME, &db), Some(70));
    assert_eq!(metrics.value(PROCESS_DISK_READ_TOTAL, &db), Some(13));
    assert_eq!(metrics.value(PROCESS_DISK_WRITE_TOTAL, &db), Some(24));
    assert_eq!(metrics.value(PROCESS_MEMORY, &one_label("ignored")), None);
}

#[test]
fn start_time_is_the_earliest_and_run_time_the_longest() {
    let mut metrics = fresh();
    let mut a = process("pool");
    a.start_time = 1700000300;
    a.run_time = 40;
    let mut b = process("pool");
    b.start_time = 1700000100;
    b.run_time = 240;
    let mut c = process("pool");
    c.start_time = 1700000200;
    c.run_time = 140;
    let mut other = process("cron");
    other.start_time = 5;
    other.run_time = 999;
    metrics.update_system_metrics(&system(vec![a, other, b, c]));
    assert_eq!(metrics.value(PROCESS_START_TIME, &one_label("pool")), Some(1700000100));
    assert_eq!(metrics.value(PROCESS_RUNTIME, &one_label("pool")), Some(240));
    assert_eq!(metrics.value(PROCESS_START_TIME, &one_label("cron")), Some(5));
    assert_eq!(metrics.value(PROCESS_RUNTIME, &one_label("cron")), Some(999));
}

#[test]
fn a_start_time_of_zero_is_the_earliest() {
    let mut metrics = fresh();
    let mut a = process("init");
    a.start_time = 0;
    let mut b = process("init");
    b.start_time = 5;
    metrics.update_system_metrics(&system(vec![a.clone(), b.clone()]));
    assert_eq!(metrics.value(PROCESS_START_TIME, &one_label("init")), Some(0));
    metrics.update_system_metrics(&system(vec![b, a]));
    assert_eq!(metrics.value(PROCESS_START_TIME, &one_label("init")), Some(0));
}

#[test]
fn rebuilt_gauges_hold_exactly_the_names_of_the_cycle() {
    let mut metrics = fresh();
    let mut a = process("alpha");
    a.memory = 1;
    a.cpu_usage = 7;
    let mut b = process("beta");
    b.memory = 2;
    metrics.update_system_metrics(&system(vec![a, b.clone()]));
    for family in [
        "simon_process_memory_bytes",
        "simon_process_virtual_memory_bytes",
        "simon_process_start_time_seconds",
        "simon_process_runtime_seconds",
        "simon_process_cpu_usage_percentage",
    ] {
        assert_eq!(names_of(&metrics, family), vec!["alpha", "beta"]);
    }
    let mut c = process("gamma");
    c.memory = 3;
    metrics.update_system_metrics(&system(vec![c, b]));
    for family in [
        "simon_process_memory_bytes",
        "simon_process_virtual_memory_bytes",
        "simon_process_start_time_seconds",
        "simon_process_runtime_seconds",
        "simon_process_cpu_usage_percentage",
    ] {
        assert_eq!(names_of(&metrics, family), vec!["gamma", "beta"]);
    }
    assert_eq!(metrics.value(PROCESS_MEMORY, &one_label("alpha")), None);
    assert_eq!(metrics.value(PROCESS_CPU_USAGE, &one_label("alpha")), None);
    assert_eq!(metrics.value(PROCESS_MEMORY, &one_label("beta")), Some(2));
    assert_eq!(metrics.value(PROCESS_MEMORY, &one_label("gamma")), Some(3));
    metrics.update_system_metrics(&system(vec![]));
    assert!(names_of(&metrics, "simon_process_memory_bytes").is_empty());
}

#[test]
fn gauges_do_not_add_up_over_cycles() {
    let mut metrics = fresh();
    let mut a = process("alpha");
    a.memory = 10;
    a.cpu_usage = 4;
    a.run_time = 9;
    metrics.update_system_metrics(&system(vec![a.clone()]));
    a.run_time = 3;
    metrics.update_system_metrics(&system(vec![a]));
    assert_eq!(metrics.value(PROCESS_MEMORY, &one_label("alpha")), Some(10));
    assert_eq!(metrics.value(PROCESS_CPU_USAGE, &one_label("alpha")), Some(4));
    assert_eq!(metrics.value(PROCESS_RUNTIME, &one_label("alpha")), Some(3));
}

#[test]
fn a_process_without_name_is_left_out() {
    let mut metrics = fresh();
    let mut nameless = process("x");
    nameless.name = None;
    nameless.memory = 77;
    nameless.disk_read_bytes = 5;
    let mut named = process("shell");
    named.memory = 3;
    metrics.update_system_metrics(&system(vec![nameless.clone(), named, nameless]));
    assert_eq!(names_of(&metrics, "simon_process_memory_bytes"), vec!["shell"]);
    assert_eq!(names_of(&metrics, "simon_process_disk_read_bytes_total"), vec!["shell"]);
    assert_eq!(metrics.value(PROCESS_MEMORY, &one_label("shell")), Some(3));
}

#[test]
fn disk_counters_grow_over_cycles_and_stay() {
    let mut metrics = fresh();
    let mut a = process("backup");
    a.disk_read_bytes = 100;
    a.disk_written_bytes = 10;
    let mut b = process("backup");
    b.disk_read_bytes = 50;
    b.disk_written_bytes = 5;
    metrics.update_system_metrics(&system(vec![a.clone(), b]));
    let backup = one_label("backup");
    assert_eq!(metrics.value(PROCESS_DISK_READ_TOTAL, &backup), Some(150));
    assert_eq!(metrics.value(PROCESS_DISK_WRITE_TOTAL, &backup), Some(15));
    a.disk_read_bytes = 1;
    a.disk_written_bytes = 0;
    metrics.update_system_metrics(&system(vec![a]));
    assert_eq!(metrics.value(PROCESS_DISK_READ_TOTAL, &backup), Some(151));
    assert_eq!(metrics.value(PROCESS_DISK_WRITE_TOTAL, &backup), Some(15));
    metrics.update_system_metrics(&system(vec![process("other")]));
    assert_eq!(metrics.value(PROCESS_DISK_READ_TOTAL, &backup), Some(151));
    assert_eq!(metrics.value(PROCESS_DISK_WRITE_TOTAL, &backup), Some(15));
    assert_eq!(metrics.value(PROCESS_DISK_READ_TOTAL, &one_label("other")), Some(0));
    assert_eq!(metrics.value(PROCESS_MEMORY, &backup), None);
}

#[test]
fn sums_stay_at_the_largest_value() {
    let mut metrics = fresh();
    let mut a = process("huge");
    a.memory = u64::MAX - 1;
    a.disk_read_bytes = u64::MAX;
    let mut b = process("huge");
    b.memory = 5;
    b.disk_read_bytes = 1;
    metrics.update_system_metrics(&system(vec![a, b.clone()]));
    assert_eq!(metrics.value(PROCESS_MEMORY, &one_label("huge")), Some(u64::MAX));
    assert_eq!(metrics.value(PROCESS_DISK_READ_TOTAL, &one_label("huge")), Some(u64::MAX));
    metrics.update_system_metrics(&system(vec![b]));
    assert_eq!(metrics.value(PROCESS_MEMORY, &one_label("huge")), Some(5));
    assert_eq!(metrics.value(PROCESS_DISK_READ_TOTAL, &one_label("huge")), Some(u64::MAX));
}

#[test]
fn memory_and_swap_are_overwritten() {
    let mut metrics = fresh();
    let mut sample = system(vec![]);
    sample.memory = MemorySample { total: 16, free: 4, available: 9, used: 7 };
    sample.swap = SwapSample { total: 8, free: 6, used: 2 };
    metrics.update_system_metrics(&sample);
    sample.memory = MemorySample { total: 16, free: 3, available: 8, used: 8 };
    sample.swap = SwapSample { total: 8, free: 5, used: 3 };
    metrics.update_system_metrics(&sample);
    let none = no_labels();
    assert_eq!(metrics.value(MEMORY_TOTAL, &none), Some(16));
    assert_eq!(metrics.value(MEMORY_FREE, &none), Some(3));
    assert_eq!(metrics.value(MEMORY_AVAILABLE, &none), Some(8));
    assert_eq!(metrics.value(MEMORY_USED, &none), Some(8));
    assert_eq!(metrics.value(SWAP_TOTAL, &none), Some(8));
    assert_eq!(metrics.value(SWAP_FREE, &none), Some(5));
    assert_eq!(metrics.value(SWAP_USED, &none), Some(3));
    let snapshot = metrics.snapshot();
    assert_eq!(snapshot.len(), 7);
    assert!(snapshot.iter().all(|e| e.labels.is_empty() && e.kind == MetricKind::Gauge));
}

#[test]
fn update_memory_and_swap_write_each_gauge() {
    let mut metrics = fresh();
    metrics.update_memory_metrics(1, 2, 3, 4);
    metrics.update_swap_metrics(5, 6, 7);
    let none = no_labels();
    assert_eq!(metrics.value(MEMORY_TOTAL, &none), Some(1));
    assert_eq!(metrics.value(MEMORY_FREE, &none), Some(2));
    assert_eq!(metrics.value(MEMORY_AVAILABLE, &none), Some(3));
    assert_eq!(metrics.value(MEMORY_USED, &none), Some(4));
    assert_eq!(metrics.value(SWAP_TOTAL, &none), Some(5));
    assert_eq!(metrics.value(SWAP_FREE, &none), Some(6));
    assert_eq!(metrics.value(SWAP_USED, &none), Some(7));
}

#[test]
fn cpu_seconds_are_rebuilt_from_the_reading() {
    let mut metrics = fresh();
    let mut sample = system(vec![]);
    sample.cpus = vec![
        CpuSample::Times { user: 100, system: 20, nice: 3, idle: 4000 },
        CpuSample::Times { user: 90, system: 25, nice: 0, idle: 4100 },
    ];
    metrics.update_system_metrics(&sample);
    assert_eq!(metrics.value(CPU_SECONDS_TOTAL, &two_labels("0", "user")), Some(100));
    assert_eq!(metrics.value(CPU_SECONDS_TOTAL, &two_labels("0", "system")), Some(20));
    assert_eq!(metrics.value(CPU_SECONDS_TOTAL, &two_labels("0", "nice")), Some(3));
    assert_eq!(metrics.value(CPU_SECONDS_TOTAL, &two_labels("0", "idle")), Some(4000));
    assert_eq!(metrics.value(CPU_SECONDS_TOTAL, &two_labels("1", "user")), Some(90));
    assert_eq!(metrics.value(CPU_SECONDS_TOTAL, &two_labels("1", "idle")), Some(4100));
    sample.cpus = vec![CpuSample::Times { user: 110, system: 21, nice: 3, idle: 4005 }];
    metrics.update_system_metrics(&sample);
    assert_eq!(metrics.value(CPU_SECONDS_TOTAL, &two_labels("0", "user")), Some(110));
    assert_eq!(metrics.value(CPU_SECONDS_TOTAL, &two_labels("0", "system")), Some(21));
    assert_eq!(metrics.value(CPU_SECONDS_TOTAL, &two_labels("0", "idle")), Some(4005));
    assert_eq!(metrics.value(CPU_SECONDS_TOTAL, &two_labels("1", "user")), None);
    let cpu: Vec<_> = metrics
        .snapshot()
        .into_iter()
        .filter(|e| e.name == "simon_cpu_cpu_seconds_total")
        .collect();
    assert_eq!(cpu.len(), 4);
    assert_eq!(
        cpu[0].labels,
        vec![("core".to_string(), "0".to_string()), ("mode".to_string(), "user".to_string())]
    );
    assert_eq!(cpu[3].labels[1].1, "idle");
    assert!(cpu.iter().all(|e| e.kind == MetricKind::Counter));
}

#[test]
fn cores_are_labelled_by_their_place() {
    let mut metrics = fresh();
    let mut sample = system(vec![]);
    sample.cpus = (0..12u64)
        .map(|i| CpuSample::Times { user: i, system: 0, nice: 0, idle: 0 })
        .collect();
    metrics.update_system_metrics(&sample);
    assert_eq!(metrics.value(CPU_SECONDS_TOTAL, &two_labels("1", "user")), Some(1));
    assert_eq!(metrics.value(CPU_SECONDS_TOTAL, &two_labels("10", "user")), Some(10));
    assert_eq!(metrics.value(CPU_SECONDS_TOTAL, &two_labels("11", "user")), Some(11));
    assert_eq!(metrics.value(CPU_SECONDS_TOTAL, &two_labels("12", "user")), None);
}

#[test]
fn busy_shares_are_overwritten() {
    let mut metrics = fresh();
    let mut sample = system(vec![]);
    sample.cpus = vec![CpuSample::Busy { usage: 12500 }, CpuSample::Busy { usage: 99000 }];
    metrics.update_system_metrics(&sample);
    assert_eq!(metrics.value(CPU_USAGE, &one_label("0")), Some(12500));
    assert_eq!(metrics.value(CPU_USAGE, &one_label("1")), Some(99000));
    sample.cpus = vec![CpuSample::Busy { usage: 500 }];
    metrics.update_system_metrics(&sample);
    assert_eq!(metrics.value(CPU_USAGE, &one_label("0")), Some(500));
    assert_eq!(metrics.value(CPU_USAGE, &one_label("1")), Some(99000));
    assert_eq!(metrics.value(CPU_SECONDS_TOTAL, &two_labels("0", "user")), None);
}

#[test]
fn update_cpu_usage_folds_one_core_in() {
    let mut metrics = fresh();
    metrics.update_cpu_usage("3", &CpuSample::Times { user: 1, system: 2, nice: 3, idle: 4 });
    metrics.update_cpu_usage("3", &CpuSample::Times { user: 10, system: 20, nice: 30, idle: 40 });
    metrics.update_cpu_usage("4", &CpuSample::Busy { usage: 42 });
    assert_eq!(metrics.value(CPU_SECONDS_TOTAL, &two_labels("3", "user")), Some(11));
    assert_eq!(metrics.value(CPU_SECONDS_TOTAL, &two_labels("3", "system")), Some(22));
    assert_eq!(metrics.value(CPU_SECONDS_TOTAL, &two_labels("3", "nice")), Some(33));
    assert_eq!(metrics.value(CPU_SECONDS_TOTAL, &two_labels("3", "idle")), Some(44));
    assert_eq!(metrics.value(CPU_USAGE, &one_label("4")), Some(42));
    assert_eq!(metrics.value(CPU_USAGE, &one_label("3")), None);
}

#[test]
fn reset_process_metrics_empties_the_gauges_only() {
    let mut metrics = fresh();
    let mut p = process("db");
    p.memory = 1;
    p.disk_read_bytes = 2;
    metrics.update_process_metrics("db", &p);
    metrics.update_memory_metrics(9, 9, 9, 9);
    metrics.update_network_metrics("eth0", &network(5));
    metrics.reset_process_metrics();
    let db = one_label("db");
    assert_eq!(metrics.value(PROCESS_MEMORY, &db), None);
    assert_eq!(metrics.value(PROCESS_VIRTUAL_MEMORY, &db), None);
    assert_eq!(metrics.value(PROCESS_START_TIME, &db), None);
    assert_eq!(metrics.value(PROCESS_RUNTIME, &db), None);
    assert_eq!(metrics.value(PROCESS_CPU_USAGE, &db), None);
    assert_eq!(metrics.value(PROCESS_DISK_READ_TOTAL, &db), Some(2));
    assert_eq!(metrics.value(MEMORY_TOTAL, &no_labels()), Some(9));
    assert_eq!(metrics.value(NETWORK_RECEIVED_TOTAL, &one_label("eth0")), Some(5));
}

#[test]
fn network_counter_grows_by_the_delta() {
    let mut metrics = fresh();
    let eth0 = one_label("eth0");
    metrics.update_network_metrics("eth0", &network(0));
    assert_eq!(metrics.value(NETWORK_RECEIVED_TOTAL, &eth0), Some(0));
    let before = metrics.value(NETWORK_RECEIVED_TOTAL, &eth0).unwrap();
    metrics.update_network_metrics("eth0", &network(1500 - 1000));
    let after = metrics.value(NETWORK_RECEIVED_TOTAL, &eth0).unwrap();
    assert_eq!(after - before, 500);
    assert_eq!(after, 500);
    assert_ne!(after, 1500);
}

#[test]
fn update_network_metrics_folds_each_counter_in() {
    let mut metrics = fresh();
    let reading = NetworkSample {
        received: 1,
        transmitted: 2,
        packets_received: 3,
        packets_transmitted: 4,
        errors_on_received: 5,
        errors_on_transmitted: 6,
    };
    metrics.update_network_metrics("wlan0", &reading);
    metrics.update_network_metrics("wlan0", &reading);
    metrics.update_network_metrics("lo", &reading);
    let wlan0 = one_label("wlan0");
    assert_eq!(metrics.value(NETWORK_RECEIVED_TOTAL, &wlan0), Some(2));
    assert_eq!(metrics.value(NETWORK_TRANSMITTED_TOTAL, &wlan0), Some(4));
    assert_eq!(metrics.value(NETWORK_PACKETS_RECEIVED_TOTAL, &wlan0), Some(6));
    assert_eq!(metrics.value(NETWORK_PACKETS_TRANSMITTED_TOTAL, &wlan0), Some(8));
    assert_eq!(metrics.value(NETWORK_ERRORS_ON_RECEIVED_TOTAL, &wlan0), Some(10));
    assert_eq!(metrics.value(NETWORK_ERRORS_ON_TRANSMITTED_TOTAL, &wlan0), Some(12));
    assert_eq!(metrics.value(NETWORK_TRANSMITTED_TOTAL, &one_label("lo")), Some(2));
    assert_eq!(names_of(&metrics, "simon_network_received_bytes_total"), vec!["wlan0", "lo"]);
}

#[test]
fn an_interface_that_is_gone_keeps_its_counters() {
    let mut metrics = fresh();
    let both = vec![
        InterfaceSample { name: "eth0".to_string(), data: network(10) },
        InterfaceSample { name: "usb0".to_string(), data: network(7) },
    ];
    metrics.update_interfaces(&both);
    let one = vec![InterfaceSample { name: "eth0".to_string(), data: network(5) }];
    metrics.update_interfaces(&one);
    metrics.update_system_metrics(&system(vec![process("a")]));
    assert_eq!(metrics.value(NETWORK_RECEIVED_TOTAL, &one_label("eth0")), Some(15));
    assert_eq!(metrics.value(NETWORK_RECEIVED_TOTAL, &one_label("usb0")), Some(7));
}

#[test]
fn counters_do_not_fall_over_cycles() {
    let mut metrics = fresh();
    let mut last_read = 0;
    let mut last_received = 0;
    for round in 0..6u64 {
        let mut p = process("job");
        p.disk_read_bytes = (round * 37) % 5;
        let processes = if round % 2 == 0 { vec![p] } else { vec![] };
        metrics.update_system_metrics(&system(processes));
        metrics.update_interfaces(&vec![InterfaceSample {
            name: "eth0".to_string(),
            data: network((round * 11) % 4),
        }]);
        let read = metrics.value(PROCESS_DISK_READ_TOTAL, &one_label("job")).unwrap();
        let received = metrics.value(NETWORK_RECEIVED_TOTAL, &one_label("eth0")).unwrap();
        assert!(read >= last_read);
        assert!(received >= last_received);
        last_read = read;
        last_received = received;
    }
    assert_eq!(last_read, 0 + 4 + 3);
    assert_eq!(last_received, 0 + 3 + 2 + 1 + 0 + 3);
}

#[test]
fn value_is_none_past_the_catalog() {
    let mut metrics = fresh();
    metrics.update_memory_metrics(1, 2, 3, 4);
    assert_eq!(metrics.value(FAMILY_COUNT, &no_labels()), None);
    assert_eq!(metrics.value(usize::MAX, &no_labels()), None);
}
