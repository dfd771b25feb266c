//! What holds of the families after a cycle, stated over the reading itself:
//! which names a rebuilt family holds, what is summed, what is least and
//! greatest, and that counters do not fall.

use crate::aggregate::{
    cpu_busy_observations, cpu_time_observations, cycle_series, interface_observations,
    is_process_gauge, network_series, networks_series, process_family, process_observations,
    process_rule, process_value, rebuilt, system_series, NetworkField, ProcessField,
};
use crate::catalog::{
    CPU_SECONDS_TOTAL, CPU_USAGE, FAMILY_COUNT, NETWORK_ERRORS_ON_RECEIVED_TOTAL,
    NETWORK_ERRORS_ON_TRANSMITTED_TOTAL, NETWORK_PACKETS_RECEIVED_TOTAL,
    NETWORK_PACKETS_TRANSMITTED_TOTAL, NETWORK_RECEIVED_TOTAL, NETWORK_TRANSMITTED_TOTAL,
    PROCESS_DISK_READ_TOTAL, PROCESS_DISK_WRITE_TOTAL, PROCESS_RUNTIME, PROCESS_START_TIME,
};
use crate::decimal::{decimal, lemma_decimal_injective};
use crate::laws::{
    lemma_merged_distinct, lemma_merged_grows, lemma_merged_keys, lemma_merged_sum,
    lemma_rebuilt_max, lemma_rebuilt_min, lemma_upsert_grows, lemma_upsert_other,
    lemma_upsert_value, observes, total, value_or_zero,
};
use crate::metrics::catalog_at;
use crate::model::{
    clamp, distinct_keys, family_wf, has_key, lemma_merged_push, merged, store_wf, value_of,
    FamilyView, Rule, SeriesView,
};
use crate::sample::{CpuSample, InterfaceView, NetworkSample, ProcessView, RawView, SystemView};
use vstd::prelude::*;

verus! {

/// `key` is the name of a process of the reading, as the only label value.
pub open spec fn names(processes: Seq<ProcessView>, key: Seq<Seq<char>>) -> bool {
    exists|i: int|
        0 <= i < processes.len() && (#[trigger] processes[i]).name is Some && key
            == seq![processes[i].name.unwrap()]
}

/// Some process of the reading is called `name` and has `value` in `field`.
pub open spec fn process_has(
    processes: Seq<ProcessView>,
    name: Seq<char>,
    field: ProcessField,
    value: u64,
) -> bool {
    exists|i: int|
        0 <= i < processes.len() && (#[trigger] processes[i]).name == Some(name) && process_value(
            processes[i],
            field,
        ) == value
}

/// The sum of `field` over the processes of the reading that are called `name`.
pub open spec fn process_total(
    processes: Seq<ProcessView>,
    name: Seq<char>,
    field: ProcessField,
) -> int
    decreases processes.len(),
{
    if processes.len() == 0 {
        0
    } else {
        process_total(processes.drop_last(), name, field) + if processes.last().name == Some(name) {
            process_value(processes.last(), field) as int
        } else {
            0
        }
    }
}

/// `m` is the least value of `field` among the processes called `name`.
pub open spec fn is_least_of(
    processes: Seq<ProcessView>,
    name: Seq<char>,
    field: ProcessField,
    m: u64,
) -> bool {
    &&& forall|i: int|
        0 <= i < processes.len() && (#[trigger] processes[i]).name == Some(name) ==> m
            <= process_value(processes[i], field)
    &&& process_has(processes, name, field, m)
}

/// `m` is the greatest value of `field` among the processes called `name`.
pub open spec fn is_greatest_of(
    processes: Seq<ProcessView>,
    name: Seq<char>,
    field: ProcessField,
    m: u64,
) -> bool {
    &&& forall|i: int|
        0 <= i < processes.len() && (#[trigger] processes[i]).name == Some(name) ==> m
            >= process_value(processes[i], field)
    &&& process_has(processes, name, field, m)
}

/// The family at place `k` is a counter that is never emptied: a disk
/// counter of the processes or a counter of the network interfaces.
pub open spec fn is_running_counter(k: int) -> bool {
    k == PROCESS_DISK_READ_TOTAL || k == PROCESS_DISK_WRITE_TOTAL || k == NETWORK_RECEIVED_TOTAL
        || k == NETWORK_TRANSMITTED_TOTAL || k == NETWORK_PACKETS_RECEIVED_TOTAL || k
        == NETWORK_PACKETS_TRANSMITTED_TOTAL || k == NETWORK_ERRORS_ON_RECEIVED_TOTAL || k
        == NETWORK_ERRORS_ON_TRANSMITTED_TOTAL
}

/// The modes by which the seconds of a core are counted.
pub enum CpuMode {
    User,
    System,
    Nice,
    Idle,
}

pub open spec fn mode_name(mode: CpuMode) -> Seq<char> {
    match mode {
        CpuMode::User => "user"@,
        CpuMode::System => "system"@,
        CpuMode::Nice => "nice"@,
        CpuMode::Idle => "idle"@,
    }
}

/// The seconds that a core reports for `mode`; 0 where it reports none.
pub open spec fn mode_seconds(cpu: CpuSample, mode: CpuMode) -> u64 {
    match cpu {
        CpuSample::Times { user, system, nice, idle } => match mode {
            CpuMode::User => user,
            CpuMode::System => system,
            CpuMode::Nice => nice,
            CpuMode::Idle => idle,
        },
        CpuSample::Busy { .. } => 0,
    }
}

proof fn lemma_single_label(a: Seq<char>, b: Seq<char>)
    ensures
        (seq![a] == seq![b]) <==> a == b,
{
    if seq![a] == seq![b] {
        assert(seq![a][0] == seq![b][0]);
    }
}

/// The observations of a reading carry exactly the names of its processes.
pub proof fn lemma_observed_names(
    processes: Seq<ProcessView>,
    field: ProcessField,
    key: Seq<Seq<char>>,
)
    ensures
        observes(process_observations(processes, field), key) <==> names(processes, key),
    decreases processes.len(),
{
    if processes.len() > 0 {
        let rest = processes.drop_last();
        let last = processes.last();
        let end = processes.len() - 1;
        let observations = process_observations(processes, field);
        let before = process_observations(rest, field);
        lemma_observed_names(rest, field, key);
        assert(processes[end] == last);
        if names(rest, key) {
            let i = choose|i: int|
                0 <= i < rest.len() && (#[trigger] rest[i]).name is Some && key
                    == seq![rest[i].name.unwrap()];
            assert(processes[i].name is Some && key == seq![processes[i].name.unwrap()]);
        }
        if names(processes, key) {
            let i = choose|i: int|
                0 <= i < processes.len() && (#[trigger] processes[i]).name is Some && key
                    == seq![processes[i].name.unwrap()];
            if i < end {
                assert(rest[i].name is Some && key == seq![rest[i].name.unwrap()]);
            }
        }
        if observes(before, key) {
            let a = choose|a: int| 0 <= a < before.len() && (#[trigger] before[a]).labels == key;
            assert(observations[a].labels == key);
        }
        if observes(observations, key) {
            let a = choose|a: int|
                0 <= a < observations.len() && (#[trigger] observations[a]).labels == key;
            if a < before.len() {
                assert(before[a].labels == key);
            }
        }
        match last.name {
            Some(name) => {
                assert(observations[before.len() as int].labels == seq![name]);
            },
            None => {},
        }
    }
}

/// The observations of a reading carry exactly the values of its processes,
/// each under the name of its process.
pub proof fn lemma_observed_values(
    processes: Seq<ProcessView>,
    field: ProcessField,
    name: Seq<char>,
    value: u64,
)
    ensures
        (exists|a: int|
            0 <= a < process_observations(processes, field).len() && (
            #[trigger] process_observations(processes, field)[a]) == (SeriesView {
                labels: seq![name],
                value,
            })) <==> process_has(processes, name, field, value),
    decreases processes.len(),
{
    let observations = process_observations(processes, field);
    let wanted = SeriesView { labels: seq![name], value };
    if processes.len() > 0 {
        let rest = processes.drop_last();
        let last = processes.last();
        let end = processes.len() - 1;
        let before = process_observations(rest, field);
        lemma_observed_values(rest, field, name, value);
        assert(processes[end] == last);
        if process_has(rest, name, field, value) {
            let i = choose|i: int|
                0 <= i < rest.len() && (#[trigger] rest[i]).name == Some(name) && process_value(
                    rest[i],
                    field,
                ) == value;
            assert(processes[i].name == Some(name));
        }
        if process_has(processes, name, field, value) {
            let i = choose|i: int|
                0 <= i < processes.len() && (#[trigger] processes[i]).name == Some(name)
                    && process_value(processes[i], field) == value;
            if i < end {
                assert(rest[i].name == Some(name));
            }
        }
        if exists|a: int| 0 <= a < before.len() && (#[trigger] before[a]) == wanted {
            let a = choose|a: int| 0 <= a < before.len() && (#[trigger] before[a]) == wanted;
            assert(observations[a] == wanted);
        }
        if exists|a: int| 0 <= a < observations.len() && (#[trigger] observations[a]) == wanted {
            let a = choose|a: int|
                0 <= a < observations.len() && (#[trigger] observations[a]) == wanted;
            if a < before.len() {
                assert(before[a] == wanted);
            }
        }
        match last.name {
            Some(other) => {
                lemma_single_label(other, name);
                assert(observations[before.len() as int] == (SeriesView {
                    labels: seq![other],
                    value: process_value(last, field),
                }));
            },
            None => {},
        }
    }
}

/// What the observations of a reading sum to under a name is the sum over
/// the processes of that name.
pub proof fn lemma_observed_total(processes: Seq<ProcessView>, field: ProcessField, name: Seq<char>)
    ensures
        total(process_observations(processes, field), seq![name]) == process_total(
            processes,
            name,
            field,
        ),
    decreases processes.len(),
{
    if processes.len() > 0 {
        let rest = processes.drop_last();
        let last = processes.last();
        let before = process_observations(rest, field);
        lemma_observed_total(rest, field, name);
        match last.name {
            Some(other) => {
                lemma_single_label(other, name);
                let pushed = SeriesView { labels: seq![other], value: process_value(last, field) };
                assert(before.push(pushed).drop_last() =~= before);
            },
            None => {},
        }
    }
}

/// After the system reading of a cycle, each gauge that is kept by process
/// name holds exactly the names of the processes of that reading: none that
/// the reading does not hold, and all that it holds.
pub proof fn lemma_rebuilt_names(
    before: Seq<SeriesView>,
    sample: SystemView,
    field: ProcessField,
    key: Seq<Seq<char>>,
)
    requires
        is_process_gauge(process_family(field)),
    ensures
        has_key(system_series(process_family(field), before, sample), key) <==> names(
            sample.processes,
            key,
        ),
{
    let observations = process_observations(sample.processes, field);
    lemma_merged_keys(Seq::empty(), observations, process_rule(field), key);
    lemma_observed_names(sample.processes, field, key);
}

/// After the system reading of a cycle, usage, memory and virtual memory of
/// a name are the sums over the processes of that name, held at `u64::MAX`.
pub proof fn lemma_rebuilt_sums(
    before: Seq<SeriesView>,
    sample: SystemView,
    field: ProcessField,
    name: Seq<char>,
)
    requires
        field is CpuUsage || field is Memory || field is VirtualMemory,
        names(sample.processes, seq![name]),
    ensures
        value_of(system_series(process_family(field), before, sample), seq![name]) == Some(
            clamp(process_total(sample.processes, name, field)),
        ),
{
    let observations = process_observations(sample.processes, field);
    lemma_observed_names(sample.processes, field, seq![name]);
    lemma_observed_total(sample.processes, field, name);
    lemma_merged_sum(Seq::empty(), observations, seq![name]);
}

/// After the system reading of a cycle, a disk counter of a name holds what
/// it held before plus the sum over the processes of that name, held at
/// `u64::MAX`.
pub proof fn lemma_disk_totals(
    before: Seq<SeriesView>,
    sample: SystemView,
    field: ProcessField,
    name: Seq<char>,
)
    requires
        distinct_keys(before),
        field is DiskRead || field is DiskWritten,
        has_key(before, seq![name]) || names(sample.processes, seq![name]),
    ensures
        value_of(system_series(process_family(field), before, sample), seq![name]) == Some(
            clamp(value_or_zero(before, seq![name]) + process_total(sample.processes, name, field)),
        ),
{
    let observations = process_observations(sample.processes, field);
    lemma_observed_names(sample.processes, field, seq![name]);
    lemma_observed_total(sample.processes, field, name);
    lemma_merged_sum(before, observations, seq![name]);
}

/// After the system reading of a cycle, the start time of a name is the
/// earliest start time among the processes of that name.
pub proof fn lemma_earliest_start(before: Seq<SeriesView>, sample: SystemView, name: Seq<char>)
    requires
        names(sample.processes, seq![name]),
    ensures
        value_of(
            system_series(process_family(ProcessField::StartTime), before, sample),
            seq![name],
        ) matches Some(m) && is_least_of(sample.processes, name, ProcessField::StartTime, m),
{
    let field = ProcessField::StartTime;
    let processes = sample.processes;
    let observations = process_observations(processes, field);
    let key = seq![name];
    lemma_observed_names(processes, field, key);
    lemma_rebuilt_min(observations, key);
    let m = value_of(merged(Seq::empty(), observations, Rule::Min), key).unwrap();
    assert(process_has(processes, name, field, m)) by {
        let a = choose|a: int|
            0 <= a < observations.len() && (#[trigger] observations[a]).labels == key
                && observations[a].value == m;
        assert(observations[a] == (SeriesView { labels: key, value: m }));
        lemma_observed_values(processes, field, name, m);
    }
    assert forall|i: int|
        0 <= i < processes.len() && (#[trigger] processes[i]).name == Some(name) implies m
        <= process_value(processes[i], field) by {
        let v = process_value(processes[i], field);
        lemma_observed_values(processes, field, name, v);
        let a = choose|a: int|
            0 <= a < observations.len() && (#[trigger] observations[a]) == (SeriesView {
                labels: key,
                value: v,
            });
        assert(observations[a].labels == key);
    }
}

/// After the system reading of a cycle, the run time of a name is the
/// longest run time among the processes of that name.
pub proof fn lemma_longest_run(before: Seq<SeriesView>, sample: SystemView, name: Seq<char>)
    requires
        names(sample.processes, seq![name]),
    ensures
        value_of(
            system_series(process_family(ProcessField::RunTime), before, sample),
            seq![name],
        ) matches Some(m) && is_greatest_of(sample.processes, name, ProcessField::RunTime, m),
{
    let field = ProcessField::RunTime;
    let processes = sample.processes;
    let observations = process_observations(processes, field);
    let key = seq![name];
    lemma_observed_names(processes, field, key);
    lemma_rebuilt_max(observations, key);
    let m = value_of(merged(Seq::empty(), observations, Rule::Max), key).unwrap();
    assert(process_has(processes, name, field, m)) by {
        let a = choose|a: int|
            0 <= a < observations.len() && (#[trigger] observations[a]).labels == key
                && observations[a].value == m;
        assert(observations[a] == (SeriesView { labels: key, value: m }));
        lemma_observed_values(processes, field, name, m);
    }
    assert forall|i: int|
        0 <= i < processes.len() && (#[trigger] processes[i]).name == Some(name) implies m
        >= process_value(processes[i], field) by {
        let v = process_value(processes[i], field);
        lemma_observed_values(processes, field, name, v);
        let a = choose|a: int|
            0 <= a < observations.len() && (#[trigger] observations[a]) == (SeriesView {
                labels: key,
                value: v,
            });
        assert(observations[a].labels == key);
    }
}

/// The label values of the seconds that core `core` has spent in `mode`.
pub open spec fn cpu_key(core: int, mode: CpuMode) -> Seq<Seq<char>> {
    seq![decimal(core as nat), mode_name(mode)]
}

/// No two cores, and no two modes, share their label values.
pub proof fn lemma_cpu_key_injective(i: int, a: CpuMode, j: int, b: CpuMode)
    requires
        0 <= i,
        0 <= j,
        cpu_key(i, a) == cpu_key(j, b),
    ensures
        i == j,
        a == b,
{
    assert(cpu_key(i, a)[0] == cpu_key(j, b)[0]);
    assert(cpu_key(i, a)[1] == cpu_key(j, b)[1]);
    lemma_decimal_injective(i as nat, j as nat);
    reveal_strlit("user");
    reveal_strlit("system");
    reveal_strlit("nice");
    reveal_strlit("idle");
    assert("user"@[0] != "nice"@[0]);
    assert("user"@[0] != "idle"@[0]);
    assert("nice"@[0] != "idle"@[0]);
}

proof fn lemma_total_push(observations: Seq<SeriesView>, last: SeriesView, key: Seq<Seq<char>>)
    ensures
        total(observations.push(last), key) == total(observations, key) + if last.labels == key {
            last.value as int
        } else {
            0
        },
{
    assert(observations.push(last).drop_last() =~= observations);
}

/// What the observations of the cores sum to under the label values of a
/// core and a mode is what that core reports for that mode.
pub proof fn lemma_cpu_total(cpus: Seq<CpuSample>, i: int, mode: CpuMode)
    requires
        0 <= i,
    ensures
        total(cpu_time_observations(cpus), cpu_key(i, mode)) == if i < cpus.len() {
            mode_seconds(cpus[i], mode) as int
        } else {
            0
        },
        i < cpus.len() && cpus[i] is Times ==> observes(
            cpu_time_observations(cpus),
            cpu_key(i, mode),
        ),
    decreases cpus.len(),
{
    if cpus.len() > 0 {
        let rest = cpus.drop_last();
        let end = cpus.len() - 1;
        let key = cpu_key(i, mode);
        let before = cpu_time_observations(rest);
        let observations = cpu_time_observations(cpus);
        lemma_cpu_total(rest, i, mode);
        assert(cpus[end] == cpus.last());
        if i < end {
            assert(rest[i] == cpus[i]);
        }
        match cpus.last() {
            CpuSample::Times { user, system, nice, idle } => {
                let core = decimal(end as nat);
                let a = SeriesView { labels: seq![core, "user"@], value: user };
                let b = SeriesView { labels: seq![core, "system"@], value: system };
                let c = SeriesView { labels: seq![core, "nice"@], value: nice };
                let d = SeriesView { labels: seq![core, "idle"@], value: idle };
                assert(observations == before.push(a).push(b).push(c).push(d));
                lemma_total_push(before, a, key);
                lemma_total_push(before.push(a), b, key);
                lemma_total_push(before.push(a).push(b), c, key);
                lemma_total_push(before.push(a).push(b).push(c), d, key);
                assert(a.labels == cpu_key(end, CpuMode::User));
                assert(b.labels == cpu_key(end, CpuMode::System));
                assert(c.labels == cpu_key(end, CpuMode::Nice));
                assert(d.labels == cpu_key(end, CpuMode::Idle));
                if a.labels == key {
                    lemma_cpu_key_injective(end, CpuMode::User, i, mode);
                }
                if b.labels == key {
                    lemma_cpu_key_injective(end, CpuMode::System, i, mode);
                }
                if c.labels == key {
                    lemma_cpu_key_injective(end, CpuMode::Nice, i, mode);
                }
                if d.labels == key {
                    lemma_cpu_key_injective(end, CpuMode::Idle, i, mode);
                }
                if i < end && rest[i] is Times {
                    let w = choose|w: int|
                        0 <= w < before.len() && (#[trigger] before[w]).labels == key;
                    assert(observations[w].labels == key);
                }
                if i == end {
                    let n = before.len() as int;
                    assert(observations[n] == a);
                    assert(observations[n + 1] == b);
                    assert(observations[n + 2] == c);
                    assert(observations[n + 3] == d);
                }
            },
            CpuSample::Busy { .. } => {},
        }
    }
}

/// After the system reading of a cycle, the seconds of a core that reports
/// times are exactly what the reading holds for that core, mode by mode.
pub proof fn lemma_cpu_seconds_exact(
    before: Seq<SeriesView>,
    sample: SystemView,
    i: int,
    mode: CpuMode,
)
    requires
        0 <= i < sample.cpus.len(),
        sample.cpus[i] is Times,
    ensures
        value_of(system_series(CPU_SECONDS_TOTAL as int, before, sample), cpu_key(i, mode))
            == Some(mode_seconds(sample.cpus[i], mode)),
{
    lemma_cpu_total(sample.cpus, i, mode);
    lemma_merged_sum(Seq::empty(), cpu_time_observations(sample.cpus), cpu_key(i, mode));
}

/// Some core of the reading reports times, and `key` holds its number and
/// one of the modes.
pub open spec fn times_key(cpus: Seq<CpuSample>, key: Seq<Seq<char>>) -> bool {
    exists|i: int, mode: CpuMode|
        0 <= i < cpus.len() && (#[trigger] cpus[i]) is Times && key == #[trigger] cpu_key(i, mode)
}

proof fn lemma_observed_cores(cpus: Seq<CpuSample>, key: Seq<Seq<char>>)
    ensures
        observes(cpu_time_observations(cpus), key) <==> times_key(cpus, key),
    decreases cpus.len(),
{
    if cpus.len() > 0 {
        let rest = cpus.drop_last();
        let end = cpus.len() - 1;
        let before = cpu_time_observations(rest);
        let observations = cpu_time_observations(cpus);
        lemma_observed_cores(rest, key);
        assert(cpus[end] == cpus.last());
        if times_key(rest, key) {
            let (i, mode) = choose|i: int, mode: CpuMode|
                0 <= i < rest.len() && (#[trigger] rest[i]) is Times && key == #[trigger] cpu_key(
                    i,
                    mode,
                );
            assert(cpus[i] is Times && key == cpu_key(i, mode));
        }
        if observes(before, key) {
            let a = choose|a: int| 0 <= a < before.len() && (#[trigger] before[a]).labels == key;
            assert(observations[a].labels == key);
        }
        match cpus.last() {
            CpuSample::Times { user, system, nice, idle } => {
                let n = before.len() as int;
                assert(observations[n].labels == cpu_key(end, CpuMode::User));
                assert(observations[n + 1].labels == cpu_key(end, CpuMode::System));
                assert(observations[n + 2].labels == cpu_key(end, CpuMode::Nice));
                assert(observations[n + 3].labels == cpu_key(end, CpuMode::Idle));
                if observes(observations, key) {
                    let a = choose|a: int|
                        0 <= a < observations.len() && (#[trigger] observations[a]).labels == key;
                    if a < n {
                        assert(before[a].labels == key);
                    }
                }
                if times_key(cpus, key) {
                    let (i, mode) = choose|i: int, mode: CpuMode|
                        0 <= i < cpus.len() && (#[trigger] cpus[i]) is Times && key
                            == #[trigger] cpu_key(i, mode);
                    if i < end {
                        assert(rest[i] is Times && key == cpu_key(i, mode));
                    }
                }
            },
            CpuSample::Busy { .. } => {
                if times_key(cpus, key) {
                    let (i, mode) = choose|i: int, mode: CpuMode|
                        0 <= i < cpus.len() && (#[trigger] cpus[i]) is Times && key
                            == #[trigger] cpu_key(i, mode);
                    assert(rest[i] is Times && key == cpu_key(i, mode));
                }
            },
        }
    }
}

/// After the system reading of a cycle, the seconds are kept for exactly
/// the cores that report times in that reading, each by its four modes.
pub proof fn lemma_cpu_seconds_keys(
    before: Seq<SeriesView>,
    sample: SystemView,
    key: Seq<Seq<char>>,
)
    ensures
        has_key(system_series(CPU_SECONDS_TOTAL as int, before, sample), key) <==> times_key(
            sample.cpus,
            key,
        ),
{
    lemma_merged_keys(Seq::empty(), cpu_time_observations(sample.cpus), Rule::Sum, key);
    lemma_observed_cores(sample.cpus, key);
}

/// Between two cycles the seconds of a core do not fall, as long as what the
/// host reports for it does not fall.
pub proof fn lemma_cpu_seconds_never_fall(
    before_first: Seq<SeriesView>,
    first: SystemView,
    before_second: Seq<SeriesView>,
    second: SystemView,
    i: int,
    mode: CpuMode,
)
    requires
        0 <= i < first.cpus.len(),
        i < second.cpus.len(),
        first.cpus[i] is Times,
        second.cpus[i] is Times,
        mode_seconds(first.cpus[i], mode) <= mode_seconds(second.cpus[i], mode),
    ensures
        value_of(
            system_series(CPU_SECONDS_TOTAL as int, before_first, first),
            cpu_key(i, mode),
        ) matches Some(earlier) && value_of(
            system_series(CPU_SECONDS_TOTAL as int, before_second, second),
            cpu_key(i, mode),
        ) matches Some(later) && earlier <= later,
{
    lemma_cpu_seconds_exact(before_first, first, i, mode);
    lemma_cpu_seconds_exact(before_second, second, i, mode);
}

proof fn lemma_busy_value(before: Seq<SeriesView>, cpus: Seq<CpuSample>, i: int)
    requires
        distinct_keys(before),
        0 <= i < cpus.len(),
        cpus[i] is Busy,
    ensures
        value_of(
            merged(before, cpu_busy_observations(cpus), Rule::Replace),
            seq![decimal(i as nat)],
        ) == Some(cpus[i]->usage),
    decreases cpus.len(),
{
    let rest = cpus.drop_last();
    let end = cpus.len() - 1;
    let key = seq![decimal(i as nat)];
    let folded = merged(before, cpu_busy_observations(rest), Rule::Replace);
    lemma_merged_distinct(before, cpu_busy_observations(rest), Rule::Replace);
    assert(cpus[end] == cpus.last());
    if i < end {
        assert(rest[i] == cpus[i]);
        lemma_busy_value(before, rest, i);
    }
    match cpus.last() {
        CpuSample::Busy { usage } => {
            let last = SeriesView { labels: seq![decimal(end as nat)], value: usage };
            lemma_merged_push(before, cpu_busy_observations(rest), last, Rule::Replace);
            if i == end {
                lemma_upsert_value(folded, key, usage, Rule::Replace);
            } else {
                if last.labels == key {
                    lemma_single_label(decimal(end as nat), decimal(i as nat));
                    lemma_decimal_injective(end as nat, i as nat);
                }
                lemma_upsert_other(folded, last.labels, usage, Rule::Replace, key);
            }
        },
        CpuSample::Times { .. } => {},
    }
}

/// After the system reading of a cycle, the busy share of a core that
/// reports one is what the reading holds for that core.
pub proof fn lemma_busy_exact(before: Seq<SeriesView>, sample: SystemView, i: int)
    requires
        distinct_keys(before),
        0 <= i < sample.cpus.len(),
        sample.cpus[i] is Busy,
    ensures
        value_of(system_series(CPU_USAGE as int, before, sample), seq![decimal(i as nat)]) == Some(
            sample.cpus[i]->usage,
        ),
{
    lemma_busy_value(before, sample.cpus, i);
}

/// The gauges that are kept by process name hold exactly the names of
/// `processes`; under each name, usage, memory and virtual memory are the
/// sums over the processes of that name, the start time is the earliest and
/// the run time the longest among them.
pub open spec fn gauges_reflect(
    store: Seq<FamilyView>,
    base: int,
    processes: Seq<ProcessView>,
) -> bool {
    &&& forall|field: ProcessField, key: Seq<Seq<char>>|
        is_process_gauge(process_family(field)) ==> (#[trigger] has_key(
            store[base + process_family(field)].series,
            key,
        ) <==> names(processes, key))
    &&& forall|field: ProcessField, name: Seq<char>|
        (field is CpuUsage || field is Memory || field is VirtualMemory) && names(
            processes,
            seq![name],
        ) ==> #[trigger] value_of(store[base + process_family(field)].series, seq![name]) == Some(
            clamp(process_total(processes, name, field)),
        )
    &&& forall|name: Seq<char>|
        names(processes, seq![name]) ==> (#[trigger] value_of(
            store[base + PROCESS_START_TIME].series,
            seq![name],
        ) matches Some(m) && is_least_of(processes, name, ProcessField::StartTime, m))
    &&& forall|name: Seq<char>|
        names(processes, seq![name]) ==> (#[trigger] value_of(
            store[base + PROCESS_RUNTIME].series,
            seq![name],
        ) matches Some(m) && is_greatest_of(processes, name, ProcessField::RunTime, m))
}

/// Every series that a counter that is never emptied has in `before` is
/// there in `after`, and holds no less.
pub open spec fn counters_hold(before: Seq<FamilyView>, after: Seq<FamilyView>, base: int) -> bool {
    forall|k: int, key: Seq<Seq<char>>|
        is_running_counter(k) && #[trigger] has_key(before[base + k].series, key) ==> has_key(
            after[base + k].series,
            key,
        ) && value_of(after[base + k].series, key).unwrap() >= value_of(
            before[base + k].series,
            key,
        ).unwrap()
}

/// What holds after the system reading of a cycle: the gauges kept by
/// process name reflect the reading, and no counter that is never emptied
/// has lost a series or fallen.
pub proof fn lemma_system_cycle(
    store: Seq<FamilyView>,
    after: Seq<FamilyView>,
    base: int,
    sample: SystemView,
)
    requires
        store_wf(store),
        catalog_at(store, base),
        after.len() == store.len(),
        forall|k: int|
            0 <= k < FAMILY_COUNT ==> (#[trigger] after[base + k]).series == system_series(
                k,
                store[base + k].series,
                sample,
            ),
    ensures
        gauges_reflect(after, base, sample.processes),
        counters_hold(store, after, base),
{
    let processes = sample.processes;
    assert forall|field: ProcessField, key: Seq<Seq<char>>|
        is_process_gauge(process_family(field)) implies (#[trigger] has_key(
        after[base + process_family(field)].series,
        key,
    ) <==> names(processes, key)) by {
        lemma_rebuilt_names(store[base + process_family(field)].series, sample, field, key);
    }
    assert forall|field: ProcessField, name: Seq<char>|
        (field is CpuUsage || field is Memory || field is VirtualMemory) && names(
            processes,
            seq![name],
        ) implies #[trigger] value_of(after[base + process_family(field)].series, seq![name])
        == Some(clamp(process_total(processes, name, field))) by {
        lemma_rebuilt_sums(store[base + process_family(field)].series, sample, field, name);
    }
    assert forall|name: Seq<char>| names(processes, seq![name]) implies (#[trigger] value_of(
        after[base + PROCESS_START_TIME].series,
        seq![name],
    ) matches Some(m) && is_least_of(processes, name, ProcessField::StartTime, m)) by {
        lemma_earliest_start(store[base + PROCESS_START_TIME].series, sample, name);
    }
    assert forall|name: Seq<char>| names(processes, seq![name]) implies (#[trigger] value_of(
        after[base + PROCESS_RUNTIME].series,
        seq![name],
    ) matches Some(m) && is_greatest_of(processes, name, ProcessField::RunTime, m)) by {
        lemma_longest_run(store[base + PROCESS_RUNTIME].series, sample, name);
    }
    assert forall|k: int, key: Seq<Seq<char>>|
        is_running_counter(k) && #[trigger] has_key(store[base + k].series, key) implies has_key(
        after[base + k].series,
        key,
    ) && value_of(after[base + k].series, key).unwrap() >= value_of(
        store[base + k].series,
        key,
    ).unwrap() by {
        let before = store[base + k].series;
        assert(family_wf(store[base + k]));
        lemma_merged_grows(before, process_observations(processes, ProcessField::DiskRead), key);
        lemma_merged_grows(
            before,
            process_observations(processes, ProcessField::DiskWritten),
            key,
        );
    }
}

/// Folding observations of network interfaces into the counters of the
/// network: no counter that is never emptied loses a series or falls.
pub proof fn lemma_network_cycle(
    store: Seq<FamilyView>,
    after: Seq<FamilyView>,
    base: int,
    interfaces: Seq<InterfaceView>,
)
    requires
        store_wf(store),
        catalog_at(store, base),
        after.len() == store.len(),
        forall|k: int|
            0 <= k < FAMILY_COUNT ==> (#[trigger] after[base + k]).series == networks_series(
                k,
                store[base + k].series,
                interfaces,
            ),
    ensures
        counters_hold(store, after, base),
{
    assert forall|k: int, key: Seq<Seq<char>>|
        is_running_counter(k) && #[trigger] has_key(store[base + k].series, key) implies has_key(
        after[base + k].series,
        key,
    ) && value_of(after[base + k].series, key).unwrap() >= value_of(
        store[base + k].series,
        key,
    ).unwrap() by {
        let before = store[base + k].series;
        assert(family_wf(store[base + k]));
        lemma_merged_grows(before, interface_observations(interfaces, NetworkField::Received), key);
        lemma_merged_grows(
            before,
            interface_observations(interfaces, NetworkField::Transmitted),
            key,
        );
        lemma_merged_grows(
            before,
            interface_observations(interfaces, NetworkField::PacketsReceived),
            key,
        );
        lemma_merged_grows(
            before,
            interface_observations(interfaces, NetworkField::PacketsTransmitted),
            key,
        );
        lemma_merged_grows(
            before,
            interface_observations(interfaces, NetworkField::ErrorsOnReceived),
            key,
        );
        lemma_merged_grows(
            before,
            interface_observations(interfaces, NetworkField::ErrorsOnTransmitted),
            key,
        );
    }
}

/// Folding the reading of one network interface in: no counter that is
/// never emptied loses a series or falls.
pub proof fn lemma_network_reading(
    store: Seq<FamilyView>,
    after: Seq<FamilyView>,
    base: int,
    name: Seq<char>,
    network: NetworkSample,
)
    requires
        store_wf(store),
        catalog_at(store, base),
        after.len() == store.len(),
        forall|k: int|
            0 <= k < FAMILY_COUNT ==> (#[trigger] after[base + k]).series == network_series(
                k,
                store[base + k].series,
                name,
                network,
            ),
    ensures
        counters_hold(store, after, base),
{
    assert forall|k: int, key: Seq<Seq<char>>|
        is_running_counter(k) && #[trigger] has_key(store[base + k].series, key) implies has_key(
        after[base + k].series,
        key,
    ) && value_of(after[base + k].series, key).unwrap() >= value_of(
        store[base + k].series,
        key,
    ).unwrap() by {
        let before = store[base + k].series;
        assert(family_wf(store[base + k]));
        lemma_upsert_grows(before, seq![name], network.received, key);
        lemma_upsert_grows(before, seq![name], network.transmitted, key);
        lemma_upsert_grows(before, seq![name], network.packets_received, key);
        lemma_upsert_grows(before, seq![name], network.packets_transmitted, key);
        lemma_upsert_grows(before, seq![name], network.errors_on_received, key);
        lemma_upsert_grows(before, seq![name], network.errors_on_transmitted, key);
    }
}

/// Over a cycle no series of a counter that is never emptied is lost, and
/// none falls: whatever the reading holds, and whichever of its parts are
/// there.
pub proof fn lemma_counters_never_fall(
    k: int,
    before: Seq<SeriesView>,
    sample: RawView,
    key: Seq<Seq<char>>,
)
    requires
        distinct_keys(before),
        is_running_counter(k),
        has_key(before, key),
    ensures
        has_key(cycle_series(k, before, sample), key),
        value_of(cycle_series(k, before, sample), key).unwrap() >= value_of(before, key).unwrap(),
{
    match sample.system {
        Some(system) => {
            lemma_merged_grows(
                before,
                process_observations(system.processes, ProcessField::DiskRead),
                key,
            );
            lemma_merged_grows(
                before,
                process_observations(system.processes, ProcessField::DiskWritten),
                key,
            );
        },
        None => {},
    }
    match sample.interfaces {
        Some(interfaces) => {
            lemma_merged_grows(
                before,
                interface_observations(interfaces, NetworkField::Received),
                key,
            );
            lemma_merged_grows(
                before,
                interface_observations(interfaces, NetworkField::Transmitted),
                key,
            );
            lemma_merged_grows(
                before,
                interface_observations(interfaces, NetworkField::PacketsReceived),
                key,
            );
            lemma_merged_grows(
                before,
                interface_observations(interfaces, NetworkField::PacketsTransmitted),
                key,
            );
            lemma_merged_grows(
                before,
                interface_observations(interfaces, NetworkField::ErrorsOnReceived),
                key,
            );
            lemma_merged_grows(
                before,
                interface_observations(interfaces, NetworkField::ErrorsOnTransmitted),
                key,
            );
        },
        None => {},
    }
}

} // verus!
