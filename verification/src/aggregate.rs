//! What a reading does to each family: the rules of the aggregator, stated
//! over the model of the store.

use crate::catalog::{
    CPU_SECONDS_TOTAL, CPU_USAGE, FAMILY_COUNT, MEMORY_AVAILABLE, MEMORY_FREE, MEMORY_TOTAL,
    MEMORY_USED, NETWORK_ERRORS_ON_RECEIVED_TOTAL, NETWORK_ERRORS_ON_TRANSMITTED_TOTAL,
    NETWORK_PACKETS_RECEIVED_TOTAL, NETWORK_PACKETS_TRANSMITTED_TOTAL, NETWORK_RECEIVED_TOTAL,
    NETWORK_TRANSMITTED_TOTAL, PROCESS_CPU_USAGE, PROCESS_DISK_READ_TOTAL, PROCESS_DISK_WRITE_TOTAL,
    PROCESS_MEMORY, PROCESS_RUNTIME, PROCESS_START_TIME, PROCESS_VIRTUAL_MEMORY, SWAP_FREE,
    SWAP_TOTAL, SWAP_USED,
};
use crate::decimal::decimal;
use crate::model::{merged, upsert, FamilyView, Rule, SeriesView};
use crate::sample::{
    CpuSample, InterfaceView, MemorySample, NetworkSample, ProcessView, RawView, SwapSample,
    SystemView,
};
use vstd::prelude::*;

verus! {

/// The quantities of a process that are aggregated by name.
pub enum ProcessField {
    CpuUsage,
    Memory,
    VirtualMemory,
    StartTime,
    RunTime,
    DiskRead,
    DiskWritten,
}

/// The counters of a network interface.
pub enum NetworkField {
    Received,
    Transmitted,
    PacketsReceived,
    PacketsTransmitted,
    ErrorsOnReceived,
    ErrorsOnTransmitted,
}

/// What a process holds in `field`.
pub open spec fn process_value(process: ProcessView, field: ProcessField) -> u64 {
    match field {
        ProcessField::CpuUsage => process.cpu_usage,
        ProcessField::Memory => process.memory,
        ProcessField::VirtualMemory => process.virtual_memory,
        ProcessField::StartTime => process.start_time,
        ProcessField::RunTime => process.run_time,
        ProcessField::DiskRead => process.disk_read_bytes,
        ProcessField::DiskWritten => process.disk_written_bytes,
    }
}

/// What the reading of an interface holds in `field`.
pub open spec fn network_value(network: NetworkSample, field: NetworkField) -> u64 {
    match field {
        NetworkField::Received => network.received,
        NetworkField::Transmitted => network.transmitted,
        NetworkField::PacketsReceived => network.packets_received,
        NetworkField::PacketsTransmitted => network.packets_transmitted,
        NetworkField::ErrorsOnReceived => network.errors_on_received,
        NetworkField::ErrorsOnTransmitted => network.errors_on_transmitted,
    }
}

/// The place of the family that holds `field`.
pub open spec fn process_family(field: ProcessField) -> int {
    match field {
        ProcessField::CpuUsage => PROCESS_CPU_USAGE as int,
        ProcessField::Memory => PROCESS_MEMORY as int,
        ProcessField::VirtualMemory => PROCESS_VIRTUAL_MEMORY as int,
        ProcessField::StartTime => PROCESS_START_TIME as int,
        ProcessField::RunTime => PROCESS_RUNTIME as int,
        ProcessField::DiskRead => PROCESS_DISK_READ_TOTAL as int,
        ProcessField::DiskWritten => PROCESS_DISK_WRITE_TOTAL as int,
    }
}

/// The rule by which `field` is aggregated over the processes of one name.
pub open spec fn process_rule(field: ProcessField) -> Rule {
    match field {
        ProcessField::StartTime => Rule::Min,
        ProcessField::RunTime => Rule::Max,
        _ => Rule::Sum,
    }
}

/// One observation for each process that has a name, in the order of the
/// processes: the name as the only label value, and the value of `field`.
pub open spec fn process_observations(processes: Seq<ProcessView>, field: ProcessField) -> Seq<
    SeriesView,
>
    decreases processes.len(),
{
    if processes.len() == 0 {
        Seq::empty()
    } else {
        let rest = process_observations(processes.drop_last(), field);
        match processes.last().name {
            Some(name) => rest.push(
                SeriesView { labels: seq![name], value: process_value(processes.last(), field) },
            ),
            None => rest,
        }
    }
}

/// Four observations for each core that reports times, in the order of the
/// cores: the core's number and the mode as label values.
pub open spec fn cpu_time_observations(cpus: Seq<CpuSample>) -> Seq<SeriesView>
    decreases cpus.len(),
{
    if cpus.len() == 0 {
        Seq::empty()
    } else {
        let rest = cpu_time_observations(cpus.drop_last());
        let core = decimal((cpus.len() - 1) as nat);
        match cpus.last() {
            CpuSample::Times { user, system, nice, idle } => rest.push(
                SeriesView { labels: seq![core, "user"@], value: user },
            ).push(SeriesView { labels: seq![core, "system"@], value: system }).push(
                SeriesView { labels: seq![core, "nice"@], value: nice },
            ).push(SeriesView { labels: seq![core, "idle"@], value: idle }),
            CpuSample::Busy { .. } => rest,
        }
    }
}

/// One observation for each core that reports its busy share, in the order
/// of the cores: the core's number as the only label value.
pub open spec fn cpu_busy_observations(cpus: Seq<CpuSample>) -> Seq<SeriesView>
    decreases cpus.len(),
{
    if cpus.len() == 0 {
        Seq::empty()
    } else {
        let rest = cpu_busy_observations(cpus.drop_last());
        let core = decimal((cpus.len() - 1) as nat);
        match cpus.last() {
            CpuSample::Busy { usage } => rest.push(SeriesView { labels: seq![core], value: usage }),
            CpuSample::Times { .. } => rest,
        }
    }
}

/// One observation for each interface, in their order: the interface's name
/// as the only label value, and the value of `field`.
pub open spec fn interface_observations(interfaces: Seq<InterfaceView>, field: NetworkField) -> Seq<
    SeriesView,
> {
    Seq::new(
        interfaces.len(),
        |i: int|
            SeriesView {
                labels: seq![interfaces[i].name],
                value: network_value(interfaces[i].data, field),
            },
    )
}

/// The only series of a family without labels.
pub open spec fn single(value: u64) -> Seq<SeriesView> {
    seq![SeriesView { labels: Seq::empty(), value }]
}

/// `store` with the series of each family of the aggregator given by
/// `series`, which takes the family's place among them and its series so far.
/// The aggregator's families stand at the places `base .. base + FAMILY_COUNT`.
pub open spec fn rebuilt(
    store: Seq<FamilyView>,
    base: int,
    series: spec_fn(int, Seq<SeriesView>) -> Seq<SeriesView>,
) -> Seq<FamilyView> {
    Seq::new(
        store.len(),
        |i: int|
            if base <= i < base + FAMILY_COUNT {
                FamilyView { spec: store[i].spec, series: series(i - base, store[i].series) }
            } else {
                store[i]
            },
    )
}

/// The series of the family at place `k` after the reading of one core.
pub open spec fn cpu_series(
    k: int,
    before: Seq<SeriesView>,
    label: Seq<char>,
    cpu: CpuSample,
) -> Seq<SeriesView> {
    match cpu {
        CpuSample::Times { user, system, nice, idle } => if k == CPU_SECONDS_TOTAL {
            upsert(
                upsert(
                    upsert(
                        upsert(before, seq![label, "user"@], user, Rule::Sum),
                        seq![label, "system"@],
                        system,
                        Rule::Sum,
                    ),
                    seq![label, "nice"@],
                    nice,
                    Rule::Sum,
                ),
                seq![label, "idle"@],
                idle,
                Rule::Sum,
            )
        } else {
            before
        },
        CpuSample::Busy { usage } => if k == CPU_USAGE {
            upsert(before, seq![label], usage, Rule::Replace)
        } else {
            before
        },
    }
}

/// The series of the family at place `k` after memory was read.
pub open spec fn memory_series(k: int, before: Seq<SeriesView>, memory: MemorySample) -> Seq<
    SeriesView,
> {
    if k == MEMORY_TOTAL {
        single(memory.total)
    } else if k == MEMORY_FREE {
        single(memory.free)
    } else if k == MEMORY_AVAILABLE {
        single(memory.available)
    } else if k == MEMORY_USED {
        single(memory.used)
    } else {
        before
    }
}

/// The series of the family at place `k` after swap was read.
pub open spec fn swap_series(k: int, before: Seq<SeriesView>, swap: SwapSample) -> Seq<SeriesView> {
    if k == SWAP_TOTAL {
        single(swap.total)
    } else if k == SWAP_FREE {
        single(swap.free)
    } else if k == SWAP_USED {
        single(swap.used)
    } else {
        before
    }
}

/// The family at place `k` is one of the gauges that are kept by process name.
pub open spec fn is_process_gauge(k: int) -> bool {
    k == PROCESS_CPU_USAGE || k == PROCESS_MEMORY || k == PROCESS_VIRTUAL_MEMORY || k
        == PROCESS_START_TIME || k == PROCESS_RUNTIME
}

/// The series of the family at place `k` after the process gauges were emptied.
pub open spec fn reset_series(k: int, before: Seq<SeriesView>) -> Seq<SeriesView> {
    if is_process_gauge(k) {
        Seq::empty()
    } else {
        before
    }
}

/// The series of the family at place `k` after one process was folded in
/// under `name`.
pub open spec fn process_series(
    k: int,
    before: Seq<SeriesView>,
    name: Seq<char>,
    process: ProcessView,
) -> Seq<SeriesView> {
    if k == PROCESS_CPU_USAGE {
        upsert(before, seq![name], process.cpu_usage, Rule::Sum)
    } else if k == PROCESS_MEMORY {
        upsert(before, seq![name], process.memory, Rule::Sum)
    } else if k == PROCESS_VIRTUAL_MEMORY {
        upsert(before, seq![name], process.virtual_memory, Rule::Sum)
    } else if k == PROCESS_START_TIME {
        upsert(before, seq![name], process.start_time, Rule::Min)
    } else if k == PROCESS_RUNTIME {
        upsert(before, seq![name], process.run_time, Rule::Max)
    } else if k == PROCESS_DISK_READ_TOTAL {
        upsert(before, seq![name], process.disk_read_bytes, Rule::Sum)
    } else if k == PROCESS_DISK_WRITE_TOTAL {
        upsert(before, seq![name], process.disk_written_bytes, Rule::Sum)
    } else {
        before
    }
}

/// The series of the family at place `k` after the reading of one network
/// interface was folded in under `name`.
pub open spec fn network_series(
    k: int,
    before: Seq<SeriesView>,
    name: Seq<char>,
    network: NetworkSample,
) -> Seq<SeriesView> {
    if k == NETWORK_RECEIVED_TOTAL {
        upsert(before, seq![name], network.received, Rule::Sum)
    } else if k == NETWORK_TRANSMITTED_TOTAL {
        upsert(before, seq![name], network.transmitted, Rule::Sum)
    } else if k == NETWORK_PACKETS_RECEIVED_TOTAL {
        upsert(before, seq![name], network.packets_received, Rule::Sum)
    } else if k == NETWORK_PACKETS_TRANSMITTED_TOTAL {
        upsert(before, seq![name], network.packets_transmitted, Rule::Sum)
    } else if k == NETWORK_ERRORS_ON_RECEIVED_TOTAL {
        upsert(before, seq![name], network.errors_on_received, Rule::Sum)
    } else if k == NETWORK_ERRORS_ON_TRANSMITTED_TOTAL {
        upsert(before, seq![name], network.errors_on_transmitted, Rule::Sum)
    } else {
        before
    }
}

/// The series of the family at place `k` after the readings of all
/// interfaces of one cycle.
pub open spec fn networks_series(
    k: int,
    before: Seq<SeriesView>,
    interfaces: Seq<InterfaceView>,
) -> Seq<SeriesView> {
    if k == NETWORK_RECEIVED_TOTAL {
        merged(before, interface_observations(interfaces, NetworkField::Received), Rule::Sum)
    } else if k == NETWORK_TRANSMITTED_TOTAL {
        merged(before, interface_observations(interfaces, NetworkField::Transmitted), Rule::Sum)
    } else if k == NETWORK_PACKETS_RECEIVED_TOTAL {
        merged(
            before,
            interface_observations(interfaces, NetworkField::PacketsReceived),
            Rule::Sum,
        )
    } else if k == NETWORK_PACKETS_TRANSMITTED_TOTAL {
        merged(
            before,
            interface_observations(interfaces, NetworkField::PacketsTransmitted),
            Rule::Sum,
        )
    } else if k == NETWORK_ERRORS_ON_RECEIVED_TOTAL {
        merged(
            before,
            interface_observations(interfaces, NetworkField::ErrorsOnReceived),
            Rule::Sum,
        )
    } else if k == NETWORK_ERRORS_ON_TRANSMITTED_TOTAL {
        merged(
            before,
            interface_observations(interfaces, NetworkField::ErrorsOnTransmitted),
            Rule::Sum,
        )
    } else {
        before
    }
}

/// The series of the family at place `k` after the system reading of one
/// cycle. The CPU seconds and the process gauges are rebuilt from nothing;
/// the busy shares, memory and swap are overwritten; the disk counters grow;
/// the network families stay as they are.
pub open spec fn system_series(k: int, before: Seq<SeriesView>, sample: SystemView) -> Seq<
    SeriesView,
> {
    if k == CPU_SECONDS_TOTAL {
        merged(Seq::empty(), cpu_time_observations(sample.cpus), Rule::Sum)
    } else if k == CPU_USAGE {
        merged(before, cpu_busy_observations(sample.cpus), Rule::Replace)
    } else if k == MEMORY_TOTAL {
        single(sample.memory.total)
    } else if k == MEMORY_FREE {
        single(sample.memory.free)
    } else if k == MEMORY_AVAILABLE {
        single(sample.memory.available)
    } else if k == MEMORY_USED {
        single(sample.memory.used)
    } else if k == SWAP_TOTAL {
        single(sample.swap.total)
    } else if k == SWAP_FREE {
        single(sample.swap.free)
    } else if k == SWAP_USED {
        single(sample.swap.used)
    } else if k == PROCESS_CPU_USAGE {
        merged(
            Seq::empty(),
            process_observations(sample.processes, ProcessField::CpuUsage),
            Rule::Sum,
        )
    } else if k == PROCESS_MEMORY {
        merged(
            Seq::empty(),
            process_observations(sample.processes, ProcessField::Memory),
            Rule::Sum,
        )
    } else if k == PROCESS_VIRTUAL_MEMORY {
        merged(
            Seq::empty(),
            process_observations(sample.processes, ProcessField::VirtualMemory),
            Rule::Sum,
        )
    } else if k == PROCESS_START_TIME {
        merged(
            Seq::empty(),
            process_observations(sample.processes, ProcessField::StartTime),
            Rule::Min,
        )
    } else if k == PROCESS_RUNTIME {
        merged(
            Seq::empty(),
            process_observations(sample.processes, ProcessField::RunTime),
            Rule::Max,
        )
    } else if k == PROCESS_DISK_READ_TOTAL {
        merged(before, process_observations(sample.processes, ProcessField::DiskRead), Rule::Sum)
    } else if k == PROCESS_DISK_WRITE_TOTAL {
        merged(before, process_observations(sample.processes, ProcessField::DiskWritten), Rule::Sum)
    } else {
        before
    }
}

/// The series of the family at place `k` after one cycle: the system
/// reading is folded in if there is one, then the readings of the network
/// interfaces if there are any.
pub open spec fn cycle_series(k: int, before: Seq<SeriesView>, sample: RawView) -> Seq<SeriesView> {
    let with_system = match sample.system {
        Some(system) => system_series(k, before, system),
        None => before,
    };
    match sample.interfaces {
        Some(interfaces) => networks_series(k, with_system, interfaces),
        None => with_system,
    }
}

} // verus!
