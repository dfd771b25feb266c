//! The mathematical model of the metric store: families of labelled series,
//! and the rules by which an observation is folded into a family.

use vstd::prelude::*;

verus! {

/// Whether a series is overwritten at each observation or only ever grows.
#[derive(Clone, Copy, Debug, PartialEq, Eq, Structural)]
pub enum MetricKind {
    Gauge,
    Counter,
}

/// How an incoming value is combined with the value a series already holds.
#[derive(Clone, Copy, Debug, PartialEq, Eq, Structural)]
pub enum Rule {
    /// The incoming value wins.
    Replace,
    /// The two are added; the sum stays at `u64::MAX` once it would pass it.
    Sum,
    /// The smaller of the two is kept.
    Min,
    /// The larger of the two is kept.
    Max,
}

/// One series: its label values, in the order of the family's label names,
/// and its current value.
pub struct SeriesView {
    pub labels: Seq<Seq<char>>,
    pub value: u64,
}

/// What a family is registered with.
pub struct FamilySpecView {
    pub name: Seq<char>,
    pub help: Seq<char>,
    pub label_names: Seq<Seq<char>>,
    pub kind: MetricKind,
    pub scale: u64,
}

/// A family: its registration and its series, in the order of their creation.
pub struct FamilyView {
    pub spec: FamilySpecView,
    pub series: Seq<SeriesView>,
}

/// `v` held into the range of a series value.
pub open spec fn clamp(v: int) -> u64 {
    if v > u64::MAX as int {
        u64::MAX
    } else if v < 0 {
        0u64
    } else {
        v as u64
    }
}

/// What a series holds after `incoming` was observed for it under `rule`.
pub open spec fn combine(rule: Rule, current: u64, incoming: u64) -> u64 {
    match rule {
        Rule::Replace => incoming,
        Rule::Sum => clamp(current + incoming),
        Rule::Min => if incoming < current { incoming } else { current },
        Rule::Max => if incoming > current { incoming } else { current },
    }
}

/// Some series of `series` carries the label values `key`.
pub open spec fn has_key(series: Seq<SeriesView>, key: Seq<Seq<char>>) -> bool {
    exists|i: int| 0 <= i < series.len() && (#[trigger] series[i]).labels == key
}

/// The place of a series with the label values `key` (meaningful under `has_key`).
pub open spec fn index_of(series: Seq<SeriesView>, key: Seq<Seq<char>>) -> int {
    choose|i: int| 0 <= i < series.len() && (#[trigger] series[i]).labels == key
}

/// The value of the series with the label values `key`, if there is one.
pub open spec fn value_of(series: Seq<SeriesView>, key: Seq<Seq<char>>) -> Option<u64> {
    if has_key(series, key) {
        Some(series[index_of(series, key)].value)
    } else {
        None
    }
}

/// No two series carry the same label values.
pub open spec fn distinct_keys(series: Seq<SeriesView>) -> bool {
    forall|i: int, j: int|
        #![trigger series[i], series[j]]
        0 <= i < j < series.len() ==> series[i].labels != series[j].labels
}

/// The series of a family after one observation: the series with these label
/// values takes the combined value, or a new series is appended with the
/// observed value.
pub open spec fn upsert(
    series: Seq<SeriesView>,
    key: Seq<Seq<char>>,
    value: u64,
    rule: Rule,
) -> Seq<SeriesView> {
    if has_key(series, key) {
        let i = index_of(series, key);
        series.update(i, SeriesView { labels: key, value: combine(rule, series[i].value, value) })
    } else {
        series.push(SeriesView { labels: key, value })
    }
}

/// The series of a family after a run of observations, taken in order.
pub open spec fn merged(base: Seq<SeriesView>, observations: Seq<SeriesView>, rule: Rule) -> Seq<
    SeriesView,
>
    decreases observations.len(),
{
    if observations.len() == 0 {
        base
    } else {
        let last = observations.last();
        upsert(merged(base, observations.drop_last(), rule), last.labels, last.value, rule)
    }
}

/// No two series of the family share their label values, and each has one
/// label value for each label name of the family.
pub open spec fn family_wf(family: FamilyView) -> bool {
    &&& distinct_keys(family.series)
    &&& forall|i: int|
        0 <= i < family.series.len() ==> (#[trigger] family.series[i]).labels.len()
            == family.spec.label_names.len()
}

/// Some family of `store` is registered under `name`.
pub open spec fn has_family(store: Seq<FamilyView>, name: Seq<char>) -> bool {
    exists|i: int| 0 <= i < store.len() && (#[trigger] store[i]).spec.name == name
}

/// The place of the family registered under `name` (meaningful under `has_family`).
pub open spec fn family_index(store: Seq<FamilyView>, name: Seq<char>) -> int {
    choose|i: int| 0 <= i < store.len() && (#[trigger] store[i]).spec.name == name
}

/// Every family is well formed and no two share a name.
pub open spec fn store_wf(store: Seq<FamilyView>) -> bool {
    &&& forall|i: int| 0 <= i < store.len() ==> family_wf(#[trigger] store[i])
    &&& forall|i: int, j: int|
        #![trigger store[i], store[j]]
        0 <= i < j < store.len() ==> store[i].spec.name != store[j].spec.name
}

/// One line of a snapshot: a series with the name and kind of its family and
/// its label names paired with its label values.
pub struct SnapshotEntryView {
    pub name: Seq<char>,
    pub labels: Seq<(Seq<char>, Seq<char>)>,
    pub value: u64,
    pub kind: MetricKind,
}

/// The snapshot line of the series at place `j` of `family`.
pub open spec fn entry_of(family: FamilyView, j: int) -> SnapshotEntryView {
    SnapshotEntryView {
        name: family.spec.name,
        labels: Seq::new(
            family.spec.label_names.len(),
            |k: int| (family.spec.label_names[k], family.series[j].labels[k]),
        ),
        value: family.series[j].value,
        kind: family.spec.kind,
    }
}

/// The snapshot lines of a family, in the order of its series.
pub open spec fn family_entries(family: FamilyView) -> Seq<SnapshotEntryView> {
    Seq::new(family.series.len(), |j: int| entry_of(family, j))
}

/// The snapshot of a store: the lines of its families, family after family.
pub open spec fn snapshot_of(store: Seq<FamilyView>) -> Seq<SnapshotEntryView>
    decreases store.len(),
{
    if store.len() == 0 {
        Seq::empty()
    } else {
        snapshot_of(store.drop_last()) + family_entries(store.last())
    }
}

/// `store` with the series of family `family` replaced.
pub open spec fn with_series(store: Seq<FamilyView>, family: int, series: Seq<SeriesView>) -> Seq<
    FamilyView,
> {
    store.update(family, FamilyView { spec: store[family].spec, series })
}

/// A series with the label values `key` stands at exactly one place.
pub proof fn lemma_index_of(series: Seq<SeriesView>, key: Seq<Seq<char>>, i: int)
    requires
        distinct_keys(series),
        0 <= i < series.len(),
        series[i].labels == key,
    ensures
        has_key(series, key),
        index_of(series, key) == i,
        value_of(series, key) == Some(series[i].value),
{
    let j = index_of(series, key);
    assert(0 <= j < series.len() && series[j].labels == key);
    if j < i {
        assert(series[j].labels != series[i].labels);
    } else if i < j {
        assert(series[i].labels != series[j].labels);
    }
}

/// A family registered under `name` stands at exactly one place.
pub proof fn lemma_family_index(store: Seq<FamilyView>, name: Seq<char>, i: int)
    requires
        store_wf(store),
        0 <= i < store.len(),
        store[i].spec.name == name,
    ensures
        has_family(store, name),
        family_index(store, name) == i,
{
    let j = family_index(store, name);
    assert(0 <= j < store.len() && store[j].spec.name == name);
    if j < i {
        assert(store[j].spec.name != store[i].spec.name);
    } else if i < j {
        assert(store[i].spec.name != store[j].spec.name);
    }
}

/// One more observation at the end of a run is one more step of the fold.
pub proof fn lemma_merged_push(
    base: Seq<SeriesView>,
    observations: Seq<SeriesView>,
    last: SeriesView,
    rule: Rule,
)
    ensures
        merged(base, observations.push(last), rule) == upsert(
            merged(base, observations, rule),
            last.labels,
            last.value,
            rule,
        ),
{
    assert(observations.push(last).drop_last() =~= observations);
    assert(observations.push(last).last() == last);
}

/// A family without label names has at most one series, so that an
/// overwrite leaves exactly one.
pub proof fn lemma_unlabelled(family: FamilyView, value: u64)
    requires
        family_wf(family),
        family.spec.label_names.len() == 0,
    ensures
        upsert(family.series, Seq::empty(), value, Rule::Replace) == seq![
            SeriesView { labels: Seq::empty(), value },
        ],
{
    let series = family.series;
    let key = Seq::<Seq<char>>::empty();
    let after = upsert(series, key, value, Rule::Replace);
    let expected = seq![SeriesView { labels: key, value }];
    if series.len() == 0 {
        assert(after =~= expected);
    } else {
        assert(series[0].labels =~= key);
        lemma_index_of(series, key, 0);
        if series.len() >= 2 {
            assert(series[1].labels =~= key);
            assert(series[0].labels != series[1].labels);
        }
        assert(after =~= expected);
    }
}

/// One observation keeps the label values distinct and of the same length.
pub proof fn lemma_upsert_wf(family: FamilyView, key: Seq<Seq<char>>, value: u64, rule: Rule)
    requires
        family_wf(family),
        key.len() == family.spec.label_names.len(),
    ensures
        family_wf(
            FamilyView { spec: family.spec, series: upsert(family.series, key, value, rule) },
        ),
{
    let series = family.series;
    let after = upsert(series, key, value, rule);
    if has_key(series, key) {
        let i = index_of(series, key);
        assert(0 <= i < series.len() && series[i].labels == key);
        assert forall|a: int, b: int| 0 <= a < b < after.len() implies after[a].labels
            != after[b].labels by {
            assert(after[a].labels == series[a].labels);
            assert(after[b].labels == series[b].labels);
        }
    } else {
        assert forall|a: int, b: int| 0 <= a < b < after.len() implies after[a].labels
            != after[b].labels by {
            if b == series.len() {
                assert(series[a].labels != key);
            } else {
                assert(series[a].labels != series[b].labels);
            }
        }
    }
}

} // verus!
