//! One reading of the host, as plain values.

use vstd::prelude::*;

verus! {

/// What one core reports: its busy share at the moment of the reading, in
/// thousandths of a percent, or the seconds it has spent in each mode since
/// the host started.
#[derive(Clone, Copy, Debug, PartialEq, Eq)]
pub enum CpuSample {
    Busy { usage: u64 },
    Times { user: u64, system: u64, nice: u64, idle: u64 },
}

/// Physical memory, in bytes.
#[derive(Clone, Copy, Debug, PartialEq, Eq)]
pub struct MemorySample {
    pub total: u64,
    pub free: u64,
    pub available: u64,
    pub used: u64,
}

/// Swap space, in bytes.
#[derive(Clone, Copy, Debug, PartialEq, Eq)]
pub struct SwapSample {
    pub total: u64,
    pub free: u64,
    pub used: u64,
}

/// One process. `name` is `None` where the process has no name that is text.
/// `cpu_usage` is in thousandths of a percent; the disk fields count the
/// bytes since the reading before this one.
#[derive(Clone, Debug, PartialEq, Eq)]
pub struct ProcessSample {
    pub name: Option<String>,
    pub start_time: u64,
    pub run_time: u64,
    pub cpu_usage: u64,
    pub memory: u64,
    pub virtual_memory: u64,
    pub disk_read_bytes: u64,
    pub disk_written_bytes: u64,
}

pub struct ProcessView {
    pub name: Option<Seq<char>>,
    pub start_time: u64,
    pub run_time: u64,
    pub cpu_usage: u64,
    pub memory: u64,
    pub virtual_memory: u64,
    pub disk_read_bytes: u64,
    pub disk_written_bytes: u64,
}

impl View for ProcessSample {
    type V = ProcessView;

    open spec fn view(&self) -> ProcessView {
        ProcessView {
            name: match self.name {
                Some(name) => Some(name@),
                None => None,
            },
            start_time: self.start_time,
            run_time: self.run_time,
            cpu_usage: self.cpu_usage,
            memory: self.memory,
            virtual_memory: self.virtual_memory,
            disk_read_bytes: self.disk_read_bytes,
            disk_written_bytes: self.disk_written_bytes,
        }
    }
}

/// What one network interface has carried since the reading before this one.
#[derive(Clone, Copy, Debug, PartialEq, Eq)]
pub struct NetworkSample {
    pub received: u64,
    pub transmitted: u64,
    pub packets_received: u64,
    pub packets_transmitted: u64,
    pub errors_on_received: u64,
    pub errors_on_transmitted: u64,
}

/// A network interface with its reading.
#[derive(Clone, Debug, PartialEq, Eq)]
pub struct InterfaceSample {
    pub name: String,
    pub data: NetworkSample,
}

pub struct InterfaceView {
    pub name: Seq<char>,
    pub data: NetworkSample,
}

impl View for InterfaceSample {
    type V = InterfaceView;

    open spec fn view(&self) -> InterfaceView {
        InterfaceView { name: self.name@, data: self.data }
    }
}

/// The interfaces of a reading, as the model has them.
pub open spec fn interface_views(interfaces: Seq<InterfaceSample>) -> Seq<InterfaceView> {
    Seq::new(interfaces.len(), |i: int| interfaces[i]@)
}

/// Cores in the order of their numbers, memory, swap and the processes.
#[derive(Clone, Debug, PartialEq, Eq)]
pub struct SystemSample {
    pub cpus: Vec<CpuSample>,
    pub memory: MemorySample,
    pub swap: SwapSample,
    pub processes: Vec<ProcessSample>,
}

pub struct SystemView {
    pub cpus: Seq<CpuSample>,
    pub memory: MemorySample,
    pub swap: SwapSample,
    pub processes: Seq<ProcessView>,
}

impl View for SystemSample {
    type V = SystemView;

    open spec fn view(&self) -> SystemView {
        SystemView {
            cpus: self.cpus@,
            memory: self.memory,
            swap: self.swap,
            processes: Seq::new(self.processes@.len(), |i: int| self.processes@[i]@),
        }
    }
}

/// One reading of the host. A part that could not be read is `None`.
#[derive(Clone, Debug, PartialEq, Eq)]
pub struct RawSample {
    pub system: Option<SystemSample>,
    pub interfaces: Option<Vec<InterfaceSample>>,
}

pub struct RawView {
    pub system: Option<SystemView>,
    pub interfaces: Option<Seq<InterfaceView>>,
}

impl View for RawSample {
    type V = RawView;

    open spec fn view(&self) -> RawView {
        RawView {
            system: match self.system {
                Some(system) => Some(system@),
                None => None,
            },
            interfaces: match self.interfaces {
                Some(interfaces) => Some(interface_views(interfaces@)),
                None => None,
            },
        }
    }
}

} // verus!
