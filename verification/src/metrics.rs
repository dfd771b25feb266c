//! The aggregator: it owns the store and folds each reading into the
//! families of the catalog.

use crate::aggregate::{
    cpu_busy_observations, cpu_series, cpu_time_observations, interface_observations, memory_series,
    network_series, network_value, networks_series, process_observations, process_rule,
    process_series, process_value, rebuilt, reset_series, swap_series, system_series, NetworkField,
    ProcessField,
};
use crate::catalog::{
    arity, catalog, catalog_view, family_spec, lemma_catalog_names_distinct, no_labels, one_label,
    two_labels, CPU_SECONDS_TOTAL, CPU_USAGE, FAMILY_COUNT, MEMORY_AVAILABLE, MEMORY_FREE,
    MEMORY_TOTAL, MEMORY_USED, NETWORK_ERRORS_ON_RECEIVED_TOTAL,
    NETWORK_ERRORS_ON_TRANSMITTED_TOTAL, NETWORK_PACKETS_RECEIVED_TOTAL,
    NETWORK_PACKETS_TRANSMITTED_TOTAL, NETWORK_RECEIVED_TOTAL, NETWORK_TRANSMITTED_TOTAL,
    PROCESS_CPU_USAGE, PROCESS_DISK_READ_TOTAL, PROCESS_DISK_WRITE_TOTAL, PROCESS_MEMORY,
    PROCESS_RUNTIME, PROCESS_START_TIME, PROCESS_VIRTUAL_MEMORY, SWAP_FREE, SWAP_TOTAL, SWAP_USED,
};
use crate::cycle::{
    counters_hold, gauges_reflect, lemma_network_cycle, lemma_network_reading, lemma_system_cycle,
};
use crate::decimal::{decimal, decimal_string};
use crate::model::{
    has_family, lemma_merged_push, lemma_unlabelled, merged, snapshot_of, store_wf, upsert,
    value_of, with_series, FamilyView, Rule, SeriesView,
};
use crate::sample::{
    interface_views, CpuSample, InterfaceSample, InterfaceView, MemorySample, NetworkSample,
    ProcessSample, ProcessView, SwapSample, SystemSample, SystemView,
};
use crate::store::{FamilySpec, MetricStore, SnapshotEntry, StoreError};
use vstd::prelude::*;

verus! {

/// The families of the catalog, without series.
pub open spec fn fresh_families() -> Seq<FamilyView> {
    Seq::new(
        FAMILY_COUNT as nat,
        |k: int| FamilyView { spec: family_spec(k), series: Seq::empty() },
    )
}

/// The families of the catalog stand in `store` at the places
/// `base .. base + FAMILY_COUNT`, in the order of the catalog.
pub open spec fn catalog_at(store: Seq<FamilyView>, base: int) -> bool {
    &&& 0 <= base
    &&& base + FAMILY_COUNT <= store.len()
    &&& forall|k: int| 0 <= k < FAMILY_COUNT ==> (#[trigger] store[base + k]).spec == family_spec(k)
}

/// The series of the family at place `k` once the cores `cpus` are folded
/// in, the CPU seconds starting from nothing.
spec fn cpus_series(k: int, before: Seq<SeriesView>, cpus: Seq<CpuSample>) -> Seq<SeriesView> {
    if k == CPU_SECONDS_TOTAL {
        merged(Seq::empty(), cpu_time_observations(cpus), Rule::Sum)
    } else if k == CPU_USAGE {
        merged(before, cpu_busy_observations(cpus), Rule::Replace)
    } else {
        before
    }
}

/// `sample` with only its first `count` processes.
spec fn first_processes(sample: SystemView, count: int) -> SystemView {
    SystemView {
        cpus: sample.cpus,
        memory: sample.memory,
        swap: sample.swap,
        processes: sample.processes.take(count),
    }
}

proof fn lemma_cpu_step(k: int, before: Seq<SeriesView>, cpus: Seq<CpuSample>, i: int)
    requires
        0 <= i < cpus.len(),
    ensures
        cpu_series(k, cpus_series(k, before, cpus.take(i)), decimal(i as nat), cpus[i])
            == cpus_series(k, before, cpus.take(i + 1)),
{
    let next = cpus.take(i + 1);
    assert(next.drop_last() =~= cpus.take(i));
    assert(next.last() == cpus[i]);
    let core = decimal(i as nat);
    match cpus[i] {
        CpuSample::Times { user, system, nice, idle } => {
            let o1 = cpu_time_observations(cpus.take(i));
            let a = SeriesView { labels: seq![core, "user"@], value: user };
            let b = SeriesView { labels: seq![core, "system"@], value: system };
            let c = SeriesView { labels: seq![core, "nice"@], value: nice };
            let d = SeriesView { labels: seq![core, "idle"@], value: idle };
            assert(cpu_time_observations(next) == o1.push(a).push(b).push(c).push(d));
            lemma_merged_push(Seq::empty(), o1, a, Rule::Sum);
            lemma_merged_push(Seq::empty(), o1.push(a), b, Rule::Sum);
            lemma_merged_push(Seq::empty(), o1.push(a).push(b), c, Rule::Sum);
            lemma_merged_push(Seq::empty(), o1.push(a).push(b).push(c), d, Rule::Sum);
            assert(cpu_busy_observations(next) == cpu_busy_observations(cpus.take(i)));
        },
        CpuSample::Busy { usage } => {
            let o1 = cpu_busy_observations(cpus.take(i));
            let a = SeriesView { labels: seq![core], value: usage };
            assert(cpu_busy_observations(next) == o1.push(a));
            lemma_merged_push(before, o1, a, Rule::Replace);
            assert(cpu_time_observations(next) == cpu_time_observations(cpus.take(i)));
        },
    }
}

proof fn lemma_process_step(k: int, before: Seq<SeriesView>, sample: SystemView, j: int)
    requires
        0 <= j < sample.processes.len(),
    ensures
        match sample.processes[j].name {
            Some(name) => process_series(
                k,
                system_series(k, before, first_processes(sample, j)),
                name,
                sample.processes[j],
            ) == system_series(k, before, first_processes(sample, j + 1)),
            None => system_series(k, before, first_processes(sample, j)) == system_series(
                k,
                before,
                first_processes(sample, j + 1),
            ),
        },
{
    let process = sample.processes[j];
    let next = sample.processes.take(j + 1);
    let prev = sample.processes.take(j);
    assert(next.drop_last() =~= prev);
    assert(next.last() == process);
    match process.name {
        Some(name) => {
            lemma_field_step(prev, next, process, name, ProcessField::CpuUsage, Seq::empty());
            lemma_field_step(prev, next, process, name, ProcessField::Memory, Seq::empty());
            lemma_field_step(prev, next, process, name, ProcessField::VirtualMemory, Seq::empty());
            lemma_field_step(prev, next, process, name, ProcessField::StartTime, Seq::empty());
            lemma_field_step(prev, next, process, name, ProcessField::RunTime, Seq::empty());
            lemma_field_step(prev, next, process, name, ProcessField::DiskRead, before);
            lemma_field_step(prev, next, process, name, ProcessField::DiskWritten, before);
        },
        None => {
            assert forall|field: ProcessField| #[trigger]
                process_observations(next, field) == process_observations(prev, field) by {}
        },
    }
}

proof fn lemma_field_step(
    prev: Seq<ProcessView>,
    next: Seq<ProcessView>,
    process: ProcessView,
    name: Seq<char>,
    field: ProcessField,
    base: Seq<SeriesView>,
)
    requires
        next.len() > 0,
        next.drop_last() == prev,
        next.last() == process,
        process.name == Some(name),
    ensures
        merged(base, process_observations(next, field), process_rule(field)) == upsert(
            merged(base, process_observations(prev, field), process_rule(field)),
            seq![name],
            process_value(process, field),
            process_rule(field),
        ),
{
    let last = SeriesView { labels: seq![name], value: process_value(process, field) };
    assert(process_observations(next, field) == process_observations(prev, field).push(last));
    lemma_merged_push(base, process_observations(prev, field), last, process_rule(field));
}

proof fn lemma_network_step(
    k: int,
    before: Seq<SeriesView>,
    interfaces: Seq<InterfaceView>,
    i: int,
)
    requires
        0 <= i < interfaces.len(),
    ensures
        network_series(
            k,
            networks_series(k, before, interfaces.take(i)),
            interfaces[i].name,
            interfaces[i].data,
        ) == networks_series(k, before, interfaces.take(i + 1)),
{
    lemma_interface_step(before, interfaces, i, NetworkField::Received);
    lemma_interface_step(before, interfaces, i, NetworkField::Transmitted);
    lemma_interface_step(before, interfaces, i, NetworkField::PacketsReceived);
    lemma_interface_step(before, interfaces, i, NetworkField::PacketsTransmitted);
    lemma_interface_step(before, interfaces, i, NetworkField::ErrorsOnReceived);
    lemma_interface_step(before, interfaces, i, NetworkField::ErrorsOnTransmitted);
}

proof fn lemma_interface_step(
    before: Seq<SeriesView>,
    interfaces: Seq<InterfaceView>,
    i: int,
    field: NetworkField,
)
    requires
        0 <= i < interfaces.len(),
    ensures
        merged(before, interface_observations(interfaces.take(i + 1), field), Rule::Sum) == upsert(
            merged(before, interface_observations(interfaces.take(i), field), Rule::Sum),
            seq![interfaces[i].name],
            network_value(interfaces[i].data, field),
            Rule::Sum,
        ),
{
    let last = SeriesView {
        labels: seq![interfaces[i].name],
        value: network_value(interfaces[i].data, field),
    };
    assert(interface_observations(interfaces.take(i + 1), field) =~= interface_observations(
        interfaces.take(i),
        field,
    ).push(last));
    lemma_merged_push(before, interface_observations(interfaces.take(i), field), last, Rule::Sum);
}

/// The aggregator with its store.
pub struct Metrics {
    store: MetricStore,
    base: usize,
}

impl View for Metrics {
    type V = Seq<FamilyView>;

    closed spec fn view(&self) -> Seq<FamilyView> {
        self.store@
    }
}

impl Metrics {
    /// The place of the first family of the catalog in the store.
    pub closed spec fn base(&self) -> int {
        self.base as int
    }

    /// The store is well formed and holds the families of the catalog. This
    /// holds of every value that `new` has made, and every method keeps it.
    pub open spec fn wf(&self) -> bool {
        &&& store_wf(self@)
        &&& catalog_at(self@, self.base())
        &&& self.base() + FAMILY_COUNT <= usize::MAX
    }

    /// The series of the family at place `k` of the catalog.
    pub open spec fn series(&self, k: int) -> Seq<SeriesView> {
        self@[self.base() + k].series
    }

    /// Registers the families of the catalog in `registry`, behind those it
    /// holds already. This fails where `registry` holds a family under one
    /// of the catalog's names.
    pub fn new(registry: MetricStore) -> (r: Result<Metrics, StoreError>)
        ensures
            match r {
                Ok(metrics) => {
                    &&& forall|k: int|
                        0 <= k < FAMILY_COUNT ==> !has_family(
                            registry@,
                            (#[trigger] family_spec(k)).name,
                        )
                    &&& metrics.base() == registry@.len()
                    &&& metrics@ == registry@ + fresh_families()
                    &&& metrics.wf()
                },
                Err(e) => {
                    &&& e == StoreError::DuplicateFamily
                    &&& exists|k: int|
                        0 <= k < FAMILY_COUNT && has_family(
                            registry@,
                            (#[trigger] family_spec(k)).name,
                        )
                },
            },
    {
        let mut store = registry;
        let base = store.len();
        let specs = catalog();
        assert(specs.len() == specs.deep_view().len());
        let mut k: usize = 0;
        assert(store@ =~= registry@ + fresh_families().take(0));
        while k < specs.len()
            invariant
                specs.deep_view() == catalog_view(),
                specs.len() == FAMILY_COUNT,
                k <= FAMILY_COUNT,
                base == registry@.len(),
                store@ == registry@ + fresh_families().take(k as int),
                forall|j: int|
                    0 <= j < k ==> !has_family(registry@, (#[trigger] family_spec(j)).name),
            decreases specs.len() - k,
        {
            let spec = specs[k].duplicate();
            let ghost before = store@;
            assert(spec@ == family_spec(k as int)) by {
                assert(specs.deep_view()[k as int] == specs[k as int]@);
            }
            match store.register(spec) {
                Ok(_) => {
                    proof {
                        assert(store@ =~= registry@ + fresh_families().take(k as int + 1));
                        if has_family(registry@, family_spec(k as int).name) {
                            let i = choose|i: int|
                                0 <= i < registry@.len() && (#[trigger] registry@[i]).spec.name
                                    == family_spec(k as int).name;
                            assert(before[i].spec.name == family_spec(k as int).name);
                        }
                    }
                },
                Err(_) => {
                    proof {
                        let name = family_spec(k as int).name;
                        let i = choose|i: int|
                            0 <= i < before.len() && (#[trigger] before[i]).spec.name == name;
                        if i >= base {
                            lemma_catalog_names_distinct();
                            assert(before[i].spec == family_spec(i - base));
                            assert(family_spec(i - base).name != family_spec(k as int).name);
                        }
                        assert(registry@[i].spec.name == name);
                    }
                    return Err(StoreError::DuplicateFamily);
                },
            }
            k += 1;
        }
        // The length of the store is a `usize`, and so is every place in it.
        let end = store.len();
        proof {
            assert(fresh_families().take(FAMILY_COUNT as int) =~= fresh_families());
            assert(end == base + FAMILY_COUNT);
            use_type_invariant(&store);
        }
        Ok(Metrics { store, base })
    }

    /// The store, to be read.
    pub fn store(&self) -> (r: &MetricStore)
        ensures
            r@ == self@,
    {
        &self.store
    }

    /// Every series of the store, family after family.
    pub fn snapshot(&self) -> (r: Vec<SnapshotEntry>)
        ensures
            r.deep_view() == snapshot_of(self@),
    {
        self.store.snapshot()
    }

    /// The registrations of the families of the store.
    pub fn families(&self) -> (r: Vec<FamilySpec>)
        ensures
            r.deep_view() == self@.map_values(|f: FamilyView| f.spec),
    {
        self.store.families()
    }

    /// The value of the series with these label values in the family at
    /// place `k` of the catalog.
    pub fn value(&self, k: usize, labels: &Vec<String>) -> (r: Option<u64>)
        requires
            self.wf(),
        ensures
            k < FAMILY_COUNT ==> r == value_of(self.series(k as int), labels.deep_view()),
            k >= FAMILY_COUNT ==> r is None,
    {
        if k >= FAMILY_COUNT {
            return None;
        }
        self.store.lookup(self.base + k, labels)
    }

    fn clear(&mut self, k: usize)
        requires
            old(self).wf(),
            k < FAMILY_COUNT,
        ensures
            final(self).wf(),
            final(self).base() == old(self).base(),
            final(self)@ == with_series(old(self)@, old(self).base() + k, Seq::empty()),
    {
        self.store.clear(self.base + k);
        proof {
            use_type_invariant(&self.store);
        }
    }

    /// Folds the reading of one core in, under the core's label.
    pub fn update_cpu_usage(&mut self, label: &str, cpu: &CpuSample)
        requires
            old(self).wf(),
        ensures
            final(self).wf(),
            final(self).base() == old(self).base(),
            final(self)@ == rebuilt(
                old(self)@,
                old(self).base(),
                |k: int, before: Seq<SeriesView>| cpu_series(k, before, label@, *cpu),
            ),
    {
        match *cpu {
            CpuSample::Times { user, system, nice, idle } => {
                self.observe(CPU_SECONDS_TOTAL, two_labels(label, "user"), user, Rule::Sum);
                self.observe(CPU_SECONDS_TOTAL, two_labels(label, "system"), system, Rule::Sum);
                self.observe(CPU_SECONDS_TOTAL, two_labels(label, "nice"), nice, Rule::Sum);
                self.observe(CPU_SECONDS_TOTAL, two_labels(label, "idle"), idle, Rule::Sum);
            },
            CpuSample::Busy { usage } => {
                self.observe(CPU_USAGE, one_label(label), usage, Rule::Replace);
            },
        }
        assert(self@ =~= rebuilt(
            old(self)@,
            old(self).base(),
            |k: int, before: Seq<SeriesView>| cpu_series(k, before, label@, *cpu),
        ));
    }

    /// Overwrites the memory gauges.
    pub fn update_memory_metrics(&mut self, total: u64, free: u64, available: u64, used: u64)
        requires
            old(self).wf(),
        ensures
            final(self).wf(),
            final(self).base() == old(self).base(),
            final(self)@ == rebuilt(
                old(self)@,
                old(self).base(),
                |k: int, before: Seq<SeriesView>|
                    memory_series(k, before, MemorySample { total, free, available, used }),
            ),
    {
        proof {
            let base = self.base();
            lemma_unlabelled(self@[base + MEMORY_TOTAL], total);
            lemma_unlabelled(self@[base + MEMORY_FREE], free);
            lemma_unlabelled(self@[base + MEMORY_AVAILABLE], available);
            lemma_unlabelled(self@[base + MEMORY_USED], used);
        }
        self.observe(MEMORY_TOTAL, no_labels(), total, Rule::Replace);
        self.observe(MEMORY_FREE, no_labels(), free, Rule::Replace);
        self.observe(MEMORY_AVAILABLE, no_labels(), available, Rule::Replace);
        self.observe(MEMORY_USED, no_labels(), used, Rule::Replace);
        assert(self@ =~= rebuilt(
            old(self)@,
            old(self).base(),
            |k: int, before: Seq<SeriesView>|
                memory_series(k, before, MemorySample { total, free, available, used }),
        ));
    }

    /// Overwrites the swap gauges.
    pub fn update_swap_metrics(&mut self, total: u64, free: u64, used: u64)
        requires
            old(self).wf(),
        ensures
            final(self).wf(),
            final(self).base() == old(self).base(),
            final(self)@ == rebuilt(
                old(self)@,
                old(self).base(),
                |k: int, before: Seq<SeriesView>|
                    swap_series(k, before, SwapSample { total, free, used }),
            ),
    {
        proof {
            let base = self.base();
            lemma_unlabelled(self@[base + SWAP_TOTAL], total);
            lemma_unlabelled(self@[base + SWAP_FREE], free);
            lemma_unlabelled(self@[base + SWAP_USED], used);
        }
        self.observe(SWAP_TOTAL, no_labels(), total, Rule::Replace);
        self.observe(SWAP_FREE, no_labels(), free, Rule::Replace);
        self.observe(SWAP_USED, no_labels(), used, Rule::Replace);
        assert(self@ =~= rebuilt(
            old(self)@,
            old(self).base(),
            |k: int, before: Seq<SeriesView>|
                swap_series(k, before, SwapSample { total, free, used }),
        ));
    }

    /// Empties the gauges that are kept by process name.
    pub fn reset_process_metrics(&mut self)
        requires
            old(self).wf(),
        ensures
            final(self).wf(),
            final(self).base() == old(self).base(),
            final(self)@ == rebuilt(
                old(self)@,
                old(self).base(),
                |k: int, before: Seq<SeriesView>| reset_series(k, before),
            ),
    {
        self.clear(PROCESS_CPU_USAGE);
        self.clear(PROCESS_MEMORY);
        self.clear(PROCESS_VIRTUAL_MEMORY);
        self.clear(PROCESS_START_TIME);
        self.clear(PROCESS_RUNTIME);
        assert(self@ =~= rebuilt(
            old(self)@,
            old(self).base(),
            |k: int, before: Seq<SeriesView>| reset_series(k, before),
        ));
    }

    /// Folds one process in, under `name`: usage and memory are added to
    /// what the name has, the start time is the earliest and the run time
    /// the longest under the name, and the disk counters grow.
    pub fn update_process_metrics(&mut self, name: &str, process: &ProcessSample)
        requires
            old(self).wf(),
        ensures
            final(self).wf(),
            final(self).base() == old(self).base(),
            final(self)@ == rebuilt(
                old(self)@,
                old(self).base(),
                |k: int, before: Seq<SeriesView>| process_series(k, before, name@, process@),
            ),
    {
        self.observe(PROCESS_CPU_USAGE, one_label(name), process.cpu_usage, Rule::Sum);
        self.observe(PROCESS_MEMORY, one_label(name), process.memory, Rule::Sum);
        self.observe(PROCESS_VIRTUAL_MEMORY, one_label(name), process.virtual_memory, Rule::Sum);
        self.observe(PROCESS_DISK_READ_TOTAL, one_label(name), process.disk_read_bytes, Rule::Sum);
        self.observe(
            PROCESS_DISK_WRITE_TOTAL,
            one_label(name),
            process.disk_written_bytes,
            Rule::Sum,
        );
        self.observe(PROCESS_START_TIME, one_label(name), process.start_time, Rule::Min);
        self.observe(PROCESS_RUNTIME, one_label(name), process.run_time, Rule::Max);
        assert(self@ =~= rebuilt(
            old(self)@,
            old(self).base(),
            |k: int, before: Seq<SeriesView>| process_series(k, before, name@, process@),
        ));
    }

    /// Folds the system reading of one cycle in. The CPU seconds and the
    /// gauges kept by process name are emptied and rebuilt, so that they hold
    /// exactly what this reading reports; the busy shares, memory and swap are
    /// overwritten; the disk counters grow; the network families stay.
    pub fn update_system_metrics(&mut self, system: &SystemSample)
        requires
            old(self).wf(),
        ensures
            final(self).wf(),
            final(self).base() == old(self).base(),
            final(self)@ == rebuilt(
                old(self)@,
                old(self).base(),
                |k: int, before: Seq<SeriesView>| system_series(k, before, system@),
            ),
            gauges_reflect(final(self)@, final(self).base(), system@.processes),
            counters_hold(old(self)@, final(self)@, final(self).base()),
    {
        let ghost start = self@;
        let ghost base = self.base();
        let ghost sample = system@;
        self.clear(CPU_SECONDS_TOTAL);
        proof {
            assert(sample.cpus.take(0) =~= Seq::<CpuSample>::empty());
            assert(self@ =~= rebuilt(
                start,
                base,
                |k: int, before: Seq<SeriesView>| cpus_series(k, before, sample.cpus.take(0)),
            ));
        }
        let mut i: usize = 0;
        while i < system.cpus.len()
            invariant
                self.wf(),
                self.base() == base,
                i <= system.cpus.len(),
                sample == system@,
                self@ == rebuilt(
                    start,
                    base,
                    |k: int, before: Seq<SeriesView>|
                        cpus_series(k, before, sample.cpus.take(i as int)),
                ),
            decreases system.cpus.len() - i,
        {
            let label = decimal_string(i);
            self.update_cpu_usage(label.as_str(), &system.cpus[i]);
            proof {
                let expected = rebuilt(
                    start,
                    base,
                    |k: int, before: Seq<SeriesView>|
                        cpus_series(k, before, sample.cpus.take(i as int + 1)),
                );
                assert forall|j: int| 0 <= j < expected.len() implies self@[j] == expected[j] by {
                    if base <= j < base + FAMILY_COUNT {
                        lemma_cpu_step(j - base, start[j].series, sample.cpus, i as int);
                    }
                }
                assert(self@ =~= expected);
            }
            i += 1;
        }
        self.update_memory_metrics(
            system.memory.total,
            system.memory.free,
            system.memory.available,
            system.memory.used,
        );
        self.update_swap_metrics(system.swap.total, system.swap.free, system.swap.used);
        self.reset_process_metrics();
        proof {
            assert(sample.cpus.take(i as int) =~= sample.cpus);
            assert(sample.processes.take(0) =~= Seq::<ProcessView>::empty());
            let expected = rebuilt(
                start,
                base,
                |k: int, before: Seq<SeriesView>|
                    system_series(k, before, first_processes(sample, 0)),
            );
            assert forall|j: int| 0 <= j < expected.len() implies self@[j] == expected[j] by {
                assert forall|field: ProcessField| #[trigger]
                    process_observations(Seq::empty(), field) == Seq::<SeriesView>::empty() by {}
            }
            assert(self@ =~= expected);
        }
        let mut j: usize = 0;
        while j < system.processes.len()
            invariant
                self.wf(),
                self.base() == base,
                j <= system.processes.len(),
                sample == system@,
                self@ == rebuilt(
                    start,
                    base,
                    |k: int, before: Seq<SeriesView>|
                        system_series(k, before, first_processes(sample, j as int)),
                ),
            decreases system.processes.len() - j,
        {
            let process = &system.processes[j];
            assert(process@ == sample.processes[j as int]);
            let ghost expected = rebuilt(
                start,
                base,
                |k: int, before: Seq<SeriesView>|
                    system_series(k, before, first_processes(sample, j as int + 1)),
            );
            match &process.name {
                Some(name) => {
                    self.update_process_metrics(name.as_str(), process);
                },
                None => {},
            }
            proof {
                assert forall|m: int| 0 <= m < expected.len() implies self@[m] == expected[m] by {
                    if base <= m < base + FAMILY_COUNT {
                        lemma_process_step(m - base, start[m].series, sample, j as int);
                    }
                }
                assert(self@ =~= expected);
            }
            j += 1;
        }
        proof {
            assert(sample.processes.take(j as int) =~= sample.processes);
            assert(first_processes(sample, j as int) == sample);
            lemma_system_cycle(start, self@, base, sample);
        }
    }

    /// Folds the reading of one network interface in, under its name: each
    /// of its six counters grows by what the reading reports.
    pub fn update_network_metrics(&mut self, interface_name: &str, network: &NetworkSample)
        requires
            old(self).wf(),
        ensures
            final(self).wf(),
            final(self).base() == old(self).base(),
            final(self)@ == rebuilt(
                old(self)@,
                old(self).base(),
                |k: int, before: Seq<SeriesView>|
                    network_series(k, before, interface_name@, *network),
            ),
            counters_hold(old(self)@, final(self)@, final(self).base()),
    {
        self.observe(
            NETWORK_RECEIVED_TOTAL,
            one_label(interface_name),
            network.received,
            Rule::Sum,
        );
        self.observe(
            NETWORK_TRANSMITTED_TOTAL,
            one_label(interface_name),
            network.transmitted,
            Rule::Sum,
        );
        self.observe(
            NETWORK_PACKETS_RECEIVED_TOTAL,
            one_label(interface_name),
            network.packets_received,
            Rule::Sum,
        );
        self.observe(
            NETWORK_PACKETS_TRANSMITTED_TOTAL,
            one_label(interface_name),
            network.packets_transmitted,
            Rule::Sum,
        );
        self.observe(
            NETWORK_ERRORS_ON_RECEIVED_TOTAL,
            one_label(interface_name),
            network.errors_on_received,
            Rule::Sum,
        );
        self.observe(
            NETWORK_ERRORS_ON_TRANSMITTED_TOTAL,
            one_label(interface_name),
            network.errors_on_transmitted,
            Rule::Sum,
        );
        assert(self@ =~= rebuilt(
            old(self)@,
            old(self).base(),
            |k: int, before: Seq<SeriesView>| network_series(k, before, interface_name@, *network),
        ));
        proof {
            lemma_network_reading(old(self)@, self@, self.base(), interface_name@, *network);
        }
    }

    /// Folds the readings of all network interfaces of one cycle in, in
    /// their order.
    pub fn update_interfaces(&mut self, interfaces: &Vec<InterfaceSample>)
        requires
            old(self).wf(),
        ensures
            final(self).wf(),
            final(self).base() == old(self).base(),
            final(self)@ == rebuilt(
                old(self)@,
                old(self).base(),
                |k: int, before: Seq<SeriesView>|
                    networks_series(k, before, interface_views(interfaces@)),
            ),
            counters_hold(old(self)@, final(self)@, final(self).base()),
    {
        let ghost start = self@;
        let ghost base = self.base();
        let ghost views = interface_views(interfaces@);
        proof {
            assert(views.take(0) =~= Seq::<InterfaceView>::empty());
            assert forall|field: NetworkField| #[trigger]
                interface_observations(Seq::empty(), field) =~= Seq::<SeriesView>::empty() by {}
            assert(self@ =~= rebuilt(
                start,
                base,
                |k: int, before: Seq<SeriesView>| networks_series(k, before, views.take(0)),
            ));
        }
        let mut i: usize = 0;
        while i < interfaces.len()
            invariant
                self.wf(),
                self.base() == base,
                i <= interfaces.len(),
                views == interface_views(interfaces@),
                self@ == rebuilt(
                    start,
                    base,
                    |k: int, before: Seq<SeriesView>|
                        networks_series(k, before, views.take(i as int)),
                ),
            decreases interfaces.len() - i,
        {
            let interface = &interfaces[i];
            assert(interface@ == views[i as int]);
            self.update_network_metrics(interface.name.as_str(), &interface.data);
            proof {
                let expected = rebuilt(
                    start,
                    base,
                    |k: int, before: Seq<SeriesView>|
                        networks_series(k, before, views.take(i as int + 1)),
                );
                assert forall|m: int| 0 <= m < expected.len() implies self@[m] == expected[m] by {
                    if base <= m < base + FAMILY_COUNT {
                        lemma_network_step(m - base, start[m].series, views, i as int);
                    }
                }
                assert(self@ =~= expected);
            }
            i += 1;
        }
        proof {
            assert(views.take(i as int) =~= views);
            lemma_network_cycle(start, self@, base, views);
        }
    }

    fn observe(&mut self, k: usize, labels: Vec<String>, value: u64, rule: Rule)
        requires
            old(self).wf(),
            k < FAMILY_COUNT,
            labels.deep_view().len() == arity(k as int),
        ensures
            final(self).wf(),
            final(self).base() == old(self).base(),
            final(self)@ == with_series(
                old(self)@,
                old(self).base() + k,
                upsert(old(self).series(k as int), labels.deep_view(), value, rule),
            ),
    {
        self.store.fold_in(self.base + k, labels, value, rule);
        proof {
            use_type_invariant(&self.store);
        }
    }
}

} // verus!
