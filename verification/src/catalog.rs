//! The families that the aggregator keeps, in the order of their registration.

use crate::model::{FamilySpecView, MetricKind};
use crate::store::FamilySpec;
use vstd::prelude::*;

verus! {

/// Usage families hold thousandths of a percent: 12.5 percent is 12500.
pub const USAGE_SCALE: u64 = 1000;

/// The number of families.
pub const FAMILY_COUNT: usize = 22;

pub const CPU_SECONDS_TOTAL: usize = 0;

pub const MEMORY_TOTAL: usize = 1;

pub const MEMORY_FREE: usize = 2;

pub const MEMORY_AVAILABLE: usize = 3;

pub const MEMORY_USED: usize = 4;

pub const SWAP_TOTAL: usize = 5;

pub const SWAP_FREE: usize = 6;

pub const SWAP_USED: usize = 7;

pub const PROCESS_MEMORY: usize = 8;

pub const PROCESS_VIRTUAL_MEMORY: usize = 9;

pub const PROCESS_START_TIME: usize = 10;

pub const PROCESS_RUNTIME: usize = 11;

pub const PROCESS_CPU_USAGE: usize = 12;

pub const PROCESS_DISK_READ_TOTAL: usize = 13;

pub const PROCESS_DISK_WRITE_TOTAL: usize = 14;

pub const NETWORK_RECEIVED_TOTAL: usize = 15;

pub const NETWORK_TRANSMITTED_TOTAL: usize = 16;

pub const NETWORK_PACKETS_RECEIVED_TOTAL: usize = 17;

pub const NETWORK_PACKETS_TRANSMITTED_TOTAL: usize = 18;

pub const NETWORK_ERRORS_ON_RECEIVED_TOTAL: usize = 19;

pub const NETWORK_ERRORS_ON_TRANSMITTED_TOTAL: usize = 20;

pub const CPU_USAGE: usize = 21;

/// The registration of the family at place `k`.
pub open spec fn family_spec(k: int) -> FamilySpecView {
    if k == CPU_SECONDS_TOTAL {
        FamilySpecView {
            name: "simon_cpu_cpu_seconds_total"@,
            help: "Total CPU seconds"@,
            label_names: seq!["core"@, "mode"@],
            kind: MetricKind::Counter,
            scale: 1,
        }
    } else if k == MEMORY_TOTAL {
        FamilySpecView {
            name: "simon_memory_total_bytes"@,
            help: "Total physical memory in bytes"@,
            label_names: Seq::empty(),
            kind: MetricKind::Gauge,
            scale: 1,
        }
    } else if k == MEMORY_FREE {
        FamilySpecView {
            name: "simon_memory_free_bytes"@,
            help: "Free physical memory in bytes"@,
            label_names: Seq::empty(),
            kind: MetricKind::Gauge,
            scale: 1,
        }
    } else if k == MEMORY_AVAILABLE {
        FamilySpecView {
            name: "simon_memory_available_bytes"@,
            help: "Available physical memory in bytes"@,
            label_names: Seq::empty(),
            kind: MetricKind::Gauge,
            scale: 1,
        }
    } else if k == MEMORY_USED {
        FamilySpecView {
            name: "simon_memory_used_bytes"@,
            help: "Used physical memory in bytes"@,
            label_names: Seq::empty(),
            kind: MetricKind::Gauge,
            scale: 1,
        }
    } else if k == SWAP_TOTAL {
        FamilySpecView {
            name: "simon_swap_total_bytes"@,
            help: "Total swap memory in bytes"@,
            label_names: Seq::empty(),
            kind: MetricKind::Gauge,
            scale: 1,
        }
    } else if k == SWAP_FREE {
        FamilySpecView {
            name: "simon_swap_free_bytes"@,
            help: "Free swap memory in bytes"@,
            label_names: Seq::empty(),
            kind: MetricKind::Gauge,
            scale: 1,
        }
    } else if k == SWAP_USED {
        FamilySpecView {
            name: "simon_swap_used_bytes"@,
            help: "Used swap memory in bytes"@,
            label_names: Seq::empty(),
            kind: MetricKind::Gauge,
            scale: 1,
        }
    } else if k == PROCESS_MEMORY {
        FamilySpecView {
            name: "simon_process_memory_bytes"@,
            help: "Memory usage per process (aggregated by name)"@,
            label_names: seq!["name"@],
            kind: MetricKind::Gauge,
            scale: 1,
        }
    } else if k == PROCESS_VIRTUAL_MEMORY {
        FamilySpecView {
            name: "simon_process_virtual_memory_bytes"@,
            help: "Virtual memory usage per process (aggregated by name)"@,
            label_names: seq!["name"@],
            kind: MetricKind::Gauge,
            scale: 1,
        }
    } else if k == PROCESS_START_TIME {
        FamilySpecView {
            name: "simon_process_start_time_seconds"@,
            help: "Start time per process (earliest start time by name)"@,
            label_names: seq!["name"@],
            kind: MetricKind::Gauge,
            scale: 1,
        }
    } else if k == PROCESS_RUNTIME {
        FamilySpecView {
            name: "simon_process_runtime_seconds"@,
            help: "Runtime per process (max runtime by name)"@,
            label_names: seq!["name"@],
            kind: MetricKind::Gauge,
            scale: 1,
        }
    } else if k == PROCESS_CPU_USAGE {
        FamilySpecView {
            name: "simon_process_cpu_usage_percentage"@,
            help: "CPU usage per process (aggregated by name)"@,
            label_names: seq!["name"@],
            kind: MetricKind::Gauge,
            scale: USAGE_SCALE,
        }
    } else if k == PROCESS_DISK_READ_TOTAL {
        FamilySpecView {
            name: "simon_process_disk_read_bytes_total"@,
            help: "Disk read per process (aggregated by name)"@,
            label_names: seq!["name"@],
            kind: MetricKind::Counter,
            scale: 1,
        }
    } else if k == PROCESS_DISK_WRITE_TOTAL {
        FamilySpecView {
            name: "simon_process_disk_write_bytes_total"@,
            help: "Disk write per process (aggregated by name)"@,
            label_names: seq!["name"@],
            kind: MetricKind::Counter,
            scale: 1,
        }
    } else if k == NETWORK_RECEIVED_TOTAL {
        FamilySpecView {
            name: "simon_network_received_bytes_total"@,
            help: "Total number of bytes received, per network interface"@,
            label_names: seq!["interface"@],
            kind: MetricKind::Counter,
            scale: 1,
        }
    } else if k == NETWORK_TRANSMITTED_TOTAL {
        FamilySpecView {
            name: "simon_network_transmitted_bytes_total"@,
            help: "Total number of bytes transmitted, per network interface"@,
            label_names: seq!["interface"@],
            kind: MetricKind::Counter,
            scale: 1,
        }
    } else if k == NETWORK_PACKETS_RECEIVED_TOTAL {
        FamilySpecView {
            name: "simon_network_packets_received_total"@,
            help: "Total number of packets received, per network interface"@,
            label_names: seq!["interface"@],
            kind: MetricKind::Counter,
            scale: 1,
        }
    } else if k == NETWORK_PACKETS_TRANSMITTED_TOTAL {
        FamilySpecView {
            name: "simon_network_packets_transmitted_total"@,
            help: "Total number of packets transmitted, per network interface"@,
            label_names: seq!["interface"@],
            kind: MetricKind::Counter,
            scale: 1,
        }
    } else if k == NETWORK_ERRORS_ON_RECEIVED_TOTAL {
        FamilySpecView {
            name: "simon_network_errors_on_received_total"@,
            help: "Total number of errors on received packets, per network interface"@,
            label_names: seq!["interface"@],
            kind: MetricKind::Counter,
            scale: 1,
        }
    } else if k == NETWORK_ERRORS_ON_TRANSMITTED_TOTAL {
        FamilySpecView {
            name: "simon_network_errors_on_transmitted_total"@,
            help: "Total number of errors on transmitted packets, per network interface"@,
            label_names: seq!["interface"@],
            kind: MetricKind::Counter,
            scale: 1,
        }
    } else {
        FamilySpecView {
            name: "simon_cpu_usage_percentage"@,
            help: "CPU usage per core"@,
            label_names: seq!["core"@],
            kind: MetricKind::Gauge,
            scale: USAGE_SCALE,
        }
    }
}

/// The registrations of all families.
pub open spec fn catalog_view() -> Seq<FamilySpecView> {
    Seq::new(FAMILY_COUNT as nat, |k: int| family_spec(k))
}

/// The number of label values that a series of the family at place `k` has.
pub open spec fn arity(k: int) -> nat {
    family_spec(k).label_names.len()
}

fn family(name: &str, help: &str, label_names: Vec<String>, kind: MetricKind, scale: u64) -> (r:
    FamilySpec)
    ensures
        r@ == (FamilySpecView {
            name: name@,
            help: help@,
            label_names: label_names.deep_view(),
            kind,
            scale,
        }),
{
    FamilySpec { name: name.to_owned(), help: help.to_owned(), label_names, kind, scale }
}

/// No label values.
pub fn no_labels() -> (r: Vec<String>)
    ensures
        r.deep_view() == Seq::<Seq<char>>::empty(),
{
    let r: Vec<String> = Vec::new();
    assert(r.deep_view() =~= Seq::<Seq<char>>::empty());
    r
}

/// One label value.
pub fn one_label(a: &str) -> (r: Vec<String>)
    ensures
        r.deep_view() == seq![a@],
{
    let mut r: Vec<String> = Vec::new();
    r.push(a.to_owned());
    assert(r.deep_view() =~= seq![a@]);
    r
}

/// Two label values.
pub fn two_labels(a: &str, b: &str) -> (r: Vec<String>)
    ensures
        r.deep_view() == seq![a@, b@],
{
    let mut r: Vec<String> = Vec::new();
    r.push(a.to_owned());
    r.push(b.to_owned());
    assert(r.deep_view() =~= seq![a@, b@]);
    r
}

/// The registrations of all families, in the order of their places.
pub fn catalog() -> (r: Vec<FamilySpec>)
    ensures
        r.deep_view() == catalog_view(),
{
    let mut r: Vec<FamilySpec> = Vec::new();
    r.push(
        family(
            "simon_cpu_cpu_seconds_total",
            "Total CPU seconds",
            two_labels("core", "mode"),
            MetricKind::Counter,
            1,
        ),
    );
    r.push(
        family(
            "simon_memory_total_bytes",
            "Total physical memory in bytes",
            no_labels(),
            MetricKind::Gauge,
            1,
        ),
    );
    r.push(
        family(
            "simon_memory_free_bytes",
            "Free physical memory in bytes",
            no_labels(),
            MetricKind::Gauge,
            1,
        ),
    );
    r.push(
        family(
            "simon_memory_available_bytes",
            "Available physical memory in bytes",
            no_labels(),
            MetricKind::Gauge,
            1,
        ),
    );
    r.push(
        family(
            "simon_memory_used_bytes",
            "Used physical memory in bytes",
            no_labels(),
            MetricKind::Gauge,
            1,
        ),
    );
    r.push(
        family(
            "simon_swap_total_bytes",
            "Total swap memory in bytes",
            no_labels(),
            MetricKind::Gauge,
            1,
        ),
    );
    r.push(
        family(
            "simon_swap_free_bytes",
            "Free swap memory in bytes",
            no_labels(),
            MetricKind::Gauge,
            1,
        ),
    );
    r.push(
        family(
            "simon_swap_used_bytes",
            "Used swap memory in bytes",
            no_labels(),
            MetricKind::Gauge,
            1,
        ),
    );
    r.push(
        family(
            "simon_process_memory_bytes",
            "Memory usage per process (aggregated by name)",
            one_label("name"),
            MetricKind::Gauge,
            1,
        ),
    );
    r.push(
        family(
            "simon_process_virtual_memory_bytes",
            "Virtual memory usage per process (aggregated by name)",
            one_label("name"),
            MetricKind::Gauge,
            1,
        ),
    );
    r.push(
        family(
            "simon_process_start_time_seconds",
            "Start time per process (earliest start time by name)",
            one_label("name"),
            MetricKind::Gauge,
            1,
        ),
    );
    r.push(
        family(
            "simon_process_runtime_seconds",
            "Runtime per process (max runtime by name)",
            one_label("name"),
            MetricKind::Gauge,
            1,
        ),
    );
    r.push(
        family(
            "simon_process_cpu_usage_percentage",
            "CPU usage per process (aggregated by name)",
            one_label("name"),
            MetricKind::Gauge,
            USAGE_SCALE,
        ),
    );
    r.push(
        family(
            "simon_process_disk_read_bytes_total",
            "Disk read per process (aggregated by name)",
            one_label("name"),
            MetricKind::Counter,
            1,
        ),
    );
    r.push(
        family(
            "simon_process_disk_write_bytes_total",
            "Disk write per process (aggregated by name)",
            one_label("name"),
            MetricKind::Counter,
            1,
        ),
    );
    r.push(
        family(
            "simon_network_received_bytes_total",
            "Total number of bytes received, per network interface",
            one_label("interface"),
            MetricKind::Counter,
            1,
        ),
    );
    r.push(
        family(
            "simon_network_transmitted_bytes_total",
            "Total number of bytes transmitted, per network interface",
            one_label("interface"),
            MetricKind::Counter,
            1,
        ),
    );
    r.push(
        family(
            "simon_network_packets_received_total",
            "Total number of packets received, per network interface",
            one_label("interface"),
            MetricKind::Counter,
            1,
        ),
    );
    r.push(
        family(
            "simon_network_packets_transmitted_total",
            "Total number of packets transmitted, per network interface",
            one_label("interface"),
            MetricKind::Counter,
            1,
        ),
    );
    r.push(
        family(
            "simon_network_errors_on_received_total",
            "Total number of errors on received packets, per network interface",
            one_label("interface"),
            MetricKind::Counter,
            1,
        ),
    );
    r.push(
        family(
            "simon_network_errors_on_transmitted_total",
            "Total number of errors on transmitted packets, per network interface",
            one_label("interface"),
            MetricKind::Counter,
            1,
        ),
    );
    r.push(
        family(
            "simon_cpu_usage_percentage",
            "CPU usage per core",
            one_label("core"),
            MetricKind::Gauge,
            USAGE_SCALE,
        ),
    );
    assert(r.deep_view() =~= catalog_view());
    r
}

/// No two families of the catalog share a name.
pub proof fn lemma_catalog_names_distinct()
    ensures
        forall|i: int, j: int|
            0 <= i < j < FAMILY_COUNT ==> (#[trigger] family_spec(i)).name != (
            #[trigger] family_spec(j)).name,
{
    reveal_strlit("simon_cpu_cpu_seconds_total");
    reveal_strlit("simon_memory_total_bytes");
    reveal_strlit("simon_memory_free_bytes");
    reveal_strlit("simon_memory_available_bytes");
    reveal_strlit("simon_memory_used_bytes");
    reveal_strlit("simon_swap_total_bytes");
    reveal_strlit("simon_swap_free_bytes");
    reveal_strlit("simon_swap_used_bytes");
    reveal_strlit("simon_process_memory_bytes");
    reveal_strlit("simon_process_virtual_memory_bytes");
    reveal_strlit("simon_process_start_time_seconds");
    reveal_strlit("simon_process_runtime_seconds");
    reveal_strlit("simon_process_cpu_usage_percentage");
    reveal_strlit("simon_process_disk_read_bytes_total");
    reveal_strlit("simon_process_disk_write_bytes_total");
    reveal_strlit("simon_network_received_bytes_total");
    reveal_strlit("simon_network_transmitted_bytes_total");
    reveal_strlit("simon_network_packets_received_total");
    reveal_strlit("simon_network_packets_transmitted_total");
    reveal_strlit("simon_network_errors_on_received_total");
    reveal_strlit("simon_network_errors_on_transmitted_total");
    reveal_strlit("simon_cpu_usage_percentage");
    // Most names differ in their length.
    assert(family_spec(CPU_SECONDS_TOTAL as int).name.len() == 27);
    assert(family_spec(MEMORY_TOTAL as int).name.len() == 24);
    assert(family_spec(MEMORY_FREE as int).name.len() == 23);
    assert(family_spec(MEMORY_AVAILABLE as int).name.len() == 28);
    assert(family_spec(MEMORY_USED as int).name.len() == 23);
    assert(family_spec(SWAP_TOTAL as int).name.len() == 22);
    assert(family_spec(SWAP_FREE as int).name.len() == 21);
    assert(family_spec(SWAP_USED as int).name.len() == 21);
    assert(family_spec(PROCESS_MEMORY as int).name.len() == 26);
    assert(family_spec(PROCESS_VIRTUAL_MEMORY as int).name.len() == 34);
    assert(family_spec(PROCESS_START_TIME as int).name.len() == 32);
    assert(family_spec(PROCESS_RUNTIME as int).name.len() == 29);
    assert(family_spec(PROCESS_CPU_USAGE as int).name.len() == 34);
    assert(family_spec(PROCESS_DISK_READ_TOTAL as int).name.len() == 35);
    assert(family_spec(PROCESS_DISK_WRITE_TOTAL as int).name.len() == 36);
    assert(family_spec(NETWORK_RECEIVED_TOTAL as int).name.len() == 34);
    assert(family_spec(NETWORK_TRANSMITTED_TOTAL as int).name.len() == 37);
    assert(family_spec(NETWORK_PACKETS_RECEIVED_TOTAL as int).name.len() == 36);
    assert(family_spec(NETWORK_PACKETS_TRANSMITTED_TOTAL as int).name.len() == 39);
    assert(family_spec(NETWORK_ERRORS_ON_RECEIVED_TOTAL as int).name.len() == 38);
    assert(family_spec(NETWORK_ERRORS_ON_TRANSMITTED_TOTAL as int).name.len() == 41);
    assert(family_spec(CPU_USAGE as int).name.len() == 26);
    // Those of one length differ in some character.
    assert(family_spec(MEMORY_FREE as int).name[13] != family_spec(
        MEMORY_USED as int,
    ).name[13]);
    assert(family_spec(SWAP_FREE as int).name[11] != family_spec(
        SWAP_USED as int,
    ).name[11]);
    assert(family_spec(PROCESS_MEMORY as int).name[6] != family_spec(
        CPU_USAGE as int,
    ).name[6]);
    assert(family_spec(PROCESS_VIRTUAL_MEMORY as int).name[14] != family_spec(
        PROCESS_CPU_USAGE as int,
    ).name[14]);
    assert(family_spec(PROCESS_VIRTUAL_MEMORY as int).name[6] != family_spec(
        NETWORK_RECEIVED_TOTAL as int,
    ).name[6]);
    assert(family_spec(PROCESS_CPU_USAGE as int).name[6] != family_spec(
        NETWORK_RECEIVED_TOTAL as int,
    ).name[6]);
    assert(family_spec(PROCESS_DISK_WRITE_TOTAL as int).name[6] != family_spec(
        NETWORK_PACKETS_RECEIVED_TOTAL as int,
    ).name[6]);
}

} // verus!
