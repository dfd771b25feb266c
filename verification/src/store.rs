//! The metric store: a registry of named families, each a list of labelled
//! series that are created on first use.

use crate::model::{
    clamp, combine, entry_of, family_entries, family_index, family_wf, has_family, has_key,
    index_of, lemma_family_index, lemma_index_of, lemma_upsert_wf, snapshot_of, store_wf, upsert,
    value_of, with_series, FamilySpecView, FamilyView, MetricKind, Rule, SeriesView,
    SnapshotEntryView,
};
use vstd::prelude::*;

verus! {

/// Why the store turned a request down.
#[derive(Clone, Copy, Debug, PartialEq, Eq, Structural)]
pub enum StoreError {
    /// A family of that name is registered already.
    DuplicateFamily,
    /// No family is registered under that name.
    UnknownFamily,
    /// The number of label values is not the number of the family's label names.
    LabelMismatch,
    /// The handle names no series of the store.
    UnknownSeries,
    /// A gauge was to be incremented as a counter, or a counter to be set.
    WrongKind,
    /// A counter was to be incremented by a negative amount.
    InvalidDelta,
}

/// What a family is registered with. Values of the family stand for
/// `value / scale` in the family's unit.
#[derive(Debug, PartialEq, Eq)]
pub struct FamilySpec {
    pub name: String,
    pub help: String,
    pub label_names: Vec<String>,
    pub kind: MetricKind,
    pub scale: u64,
}

impl View for FamilySpec {
    type V = FamilySpecView;

    open spec fn view(&self) -> FamilySpecView {
        FamilySpecView {
            name: self.name@,
            help: self.help@,
            label_names: self.label_names.deep_view(),
            kind: self.kind,
            scale: self.scale,
        }
    }
}

impl DeepView for FamilySpec {
    type V = FamilySpecView;

    open spec fn deep_view(&self) -> FamilySpecView {
        self@
    }
}

/// A series of the store: the place of its family and its place among the
/// family's series.
#[derive(Clone, Copy, Debug, PartialEq, Eq, Structural)]
pub struct SeriesHandle {
    pub family: usize,
    pub series: usize,
}

/// One line of a snapshot.
#[derive(Debug, PartialEq, Eq)]
pub struct SnapshotEntry {
    pub name: String,
    /// The label names of the family, each with the value this series has for it.
    pub labels: Vec<(String, String)>,
    pub value: u64,
    pub kind: MetricKind,
}

impl DeepView for SnapshotEntry {
    type V = SnapshotEntryView;

    open spec fn deep_view(&self) -> SnapshotEntryView {
        SnapshotEntryView {
            name: self.name@,
            labels: self.labels.deep_view(),
            value: self.value,
            kind: self.kind,
        }
    }
}

struct Series {
    labels: Vec<String>,
    value: u64,
}

impl View for Series {
    type V = SeriesView;

    closed spec fn view(&self) -> SeriesView {
        SeriesView { labels: self.labels.deep_view(), value: self.value }
    }
}

struct Family {
    spec: FamilySpec,
    series: Vec<Series>,
}

impl View for Family {
    type V = FamilyView;

    closed spec fn view(&self) -> FamilyView {
        FamilyView {
            spec: self.spec@,
            series: Seq::new(self.series@.len(), |i: int| self.series@[i]@),
        }
    }
}

pub struct MetricStore {
    families: Vec<Family>,
}

impl View for MetricStore {
    type V = Seq<FamilyView>;

    closed spec fn view(&self) -> Seq<FamilyView> {
        Seq::new(self.families@.len(), |i: int| self.families@[i]@)
    }
}

/// A copy of `names`.
pub fn copy_strings(names: &Vec<String>) -> (r: Vec<String>)
    ensures
        r.deep_view() == names.deep_view(),
{
    let mut out: Vec<String> = Vec::new();
    let mut i: usize = 0;
    while i < names.len()
        invariant
            i <= names.len(),
            out.len() == i,
            forall|j: int| 0 <= j < i ==> out[j]@ == names[j]@,
        decreases names.len() - i,
    {
        out.push(names[i].clone());
        i += 1;
    }
    assert(out.deep_view() =~= names.deep_view());
    out
}

/// Whether `a` and `b` hold the same strings in the same order.
pub fn same_strings(a: &Vec<String>, b: &Vec<String>) -> (r: bool)
    ensures
        r == (a.deep_view() == b.deep_view()),
{
    if a.len() != b.len() {
        assert(a.deep_view().len() != b.deep_view().len());
        return false;
    }
    let mut i: usize = 0;
    while i < a.len()
        invariant
            a.len() == b.len(),
            i <= a.len(),
            forall|j: int| 0 <= j < i ==> a[j]@ == b[j]@,
        decreases a.len() - i,
    {
        if a[i] != b[i] {
            assert(a.deep_view()[i as int] != b.deep_view()[i as int]);
            return false;
        }
        i += 1;
    }
    assert(a.deep_view() =~= b.deep_view());
    true
}

impl FamilySpec {
    /// A copy of this registration.
    pub fn duplicate(&self) -> (r: FamilySpec)
        ensures
            r@ == self@,
    {
        FamilySpec {
            name: self.name.clone(),
            help: self.help.clone(),
            label_names: copy_strings(&self.label_names),
            kind: self.kind,
            scale: self.scale,
        }
    }
}

fn find_series(series: &Vec<Series>, labels: &Vec<String>) -> (r: Option<usize>)
    ensures
        match r {
            Some(i) => i < series.len() && series[i as int]@.labels == labels.deep_view(),
            None => forall|j: int|
                0 <= j < series.len() ==> (#[trigger] series[j])@.labels != labels.deep_view(),
        },
{
    let mut i: usize = 0;
    while i < series.len()
        invariant
            i <= series.len(),
            forall|j: int| 0 <= j < i ==> (#[trigger] series[j])@.labels != labels.deep_view(),
        decreases series.len() - i,
    {
        if same_strings(&series[i].labels, labels) {
            return Some(i);
        }
        i += 1;
    }
    None
}

/// Appends the snapshot lines of `family` to `out`.
fn push_entries(out: &mut Vec<SnapshotEntry>, family: &Family)
    requires
        family_wf(family@),
    ensures
        final(out).deep_view() == old(out).deep_view() + family_entries(family@),
{
    let ghost done = out.deep_view();
    let mut j: usize = 0;
    assert(out.deep_view() =~= done + family_entries(family@).take(0));
    while j < family.series.len()
        invariant
            j <= family.series.len(),
            family_wf(family@),
            out.deep_view() == done + family_entries(family@).take(j as int),
        decreases family.series.len() - j,
    {
        let series = &family.series[j];
        assert(series@ == family@.series[j as int]);
        assert(series@.labels.len() == family@.spec.label_names.len());
        let mut labels: Vec<(String, String)> = Vec::new();
        let mut k: usize = 0;
        while k < family.spec.label_names.len()
            invariant
                k <= family.spec.label_names.len(),
                series.labels.len() == family.spec.label_names.len(),
                labels.len() == k,
                forall|m: int|
                    0 <= m < k ==> (#[trigger] labels[m]).0@ == family.spec.label_names[m]@
                        && labels[m].1@ == series.labels[m]@,
            decreases family.spec.label_names.len() - k,
        {
            labels.push((family.spec.label_names[k].clone(), series.labels[k].clone()));
            k += 1;
        }
        let entry = SnapshotEntry {
            name: family.spec.name.clone(),
            labels,
            value: series.value,
            kind: family.spec.kind,
        };
        proof {
            assert(entry.labels.deep_view() =~= entry_of(family@, j as int).labels);
            assert(entry.deep_view() == entry_of(family@, j as int));
        }
        let ghost before = out.deep_view();
        out.push(entry);
        proof {
            assert(out.deep_view() =~= before.push(entry.deep_view()));
            assert(family_entries(family@).take(j as int + 1) =~= family_entries(family@).take(
                j as int,
            ).push(entry_of(family@, j as int)));
        }
        j += 1;
    }
    assert(family_entries(family@).take(j as int) =~= family_entries(family@));
}

/// The handle names a series of the store.
pub open spec fn handle_valid(store: Seq<FamilyView>, handle: SeriesHandle) -> bool {
    handle.family < store.len() && handle.series < store[handle.family as int].series.len()
}

/// `store` with the value of one series replaced.
pub open spec fn with_value(store: Seq<FamilyView>, handle: SeriesHandle, value: u64) -> Seq<
    FamilyView,
> {
    let series = store[handle.family as int].series;
    with_series(
        store,
        handle.family as int,
        series.update(
            handle.series as int,
            SeriesView { labels: series[handle.series as int].labels, value },
        ),
    )
}

/// `series` with a series of value 0 appended for `key`, unless one is there.
pub open spec fn with_key(series: Seq<SeriesView>, key: Seq<Seq<char>>) -> Seq<SeriesView> {
    if has_key(series, key) {
        series
    } else {
        series.push(SeriesView { labels: key, value: 0 })
    }
}

/// `current` and `incoming` combined under `rule`.
pub fn combine_values(rule: Rule, current: u64, incoming: u64) -> (r: u64)
    ensures
        r == combine(rule, current, incoming),
{
    match rule {
        Rule::Replace => incoming,
        Rule::Sum => current.saturating_add(incoming),
        Rule::Min => if incoming < current {
            incoming
        } else {
            current
        },
        Rule::Max => if incoming > current {
            incoming
        } else {
            current
        },
    }
}

/// Replacing the series of one family by well-formed ones keeps the store
/// well formed.
pub proof fn lemma_with_series_wf(store: Seq<FamilyView>, family: int, series: Seq<SeriesView>)
    requires
        store_wf(store),
        0 <= family < store.len(),
        family_wf(FamilyView { spec: store[family].spec, series }),
    ensures
        store_wf(with_series(store, family, series)),
{
    let after = with_series(store, family, series);
    assert forall|i: int| 0 <= i < after.len() implies family_wf(#[trigger] after[i]) by {
        if i != family {
            assert(family_wf(store[i]));
        }
    }
    assert forall|i: int, j: int| 0 <= i < j < after.len() implies after[i].spec.name
        != after[j].spec.name by {
        assert(store[i].spec.name != store[j].spec.name);
    }
}

impl MetricStore {
    /// The invariant of the store: no two families share a name, no two
    /// series of a family share their label values, and every series has one
    /// label value for each label name of its family.
    #[verifier::type_invariant]
    pub open spec fn wf(&self) -> bool {
        store_wf(self@)
    }

    /// A store without families.
    pub fn new() -> (store: MetricStore)
        ensures
            store@ == Seq::<FamilyView>::empty(),
    {
        let store = MetricStore { families: Vec::new() };
        assert(store@ =~= Seq::<FamilyView>::empty());
        store
    }

    /// The number of families.
    pub fn len(&self) -> (n: usize)
        ensures
            n == self@.len(),
    {
        self.families.len()
    }

    /// The place of the family registered under `name`.
    pub fn find_family(&self, name: &str) -> (r: Option<usize>)
        ensures
            r is Some <==> has_family(self@, name@),
            r matches Some(i) ==> i < self@.len() && self@[i as int].spec.name == name@ && i
                == family_index(self@, name@),
    {
        proof {
            use_type_invariant(self);
        }
        let wanted = name.to_owned();
        let mut i: usize = 0;
        while i < self.families.len()
            invariant
                i <= self.families.len(),
                store_wf(self@),
                wanted@ == name@,
                forall|j: int| 0 <= j < i ==> (#[trigger] self@[j]).spec.name != name@,
            decreases self.families.len() - i,
        {
            if self.families[i].spec.name == wanted {
                proof {
                    lemma_family_index(self@, name@, i as int);
                }
                return Some(i);
            }
            i += 1;
        }
        None
    }

    /// Takes the families out of the store and leaves it empty. The invariant
    /// is asked for at every assignment to the store, so a change is made on
    /// the families while they are outside, and they are put back when the
    /// change is complete.
    fn take_families(&mut self) -> (families: Vec<Family>)
        ensures
            families@ == old(self).families@,
            final(self).families@.len() == 0,
    {
        let mut families: Vec<Family> = Vec::new();
        std::mem::swap(&mut self.families, &mut families);
        families
    }

    /// Registers a family, without series. A name can be registered once.
    pub fn register(&mut self, spec: FamilySpec) -> (r: Result<usize, StoreError>)
        ensures
            match r {
                Ok(id) => {
                    &&& !has_family(old(self)@, spec@.name)
                    &&& id == old(self)@.len()
                    &&& final(self)@ == old(self)@.push(
                        FamilyView { spec: spec@, series: Seq::empty() },
                    )
                },
                Err(e) => {
                    &&& e == StoreError::DuplicateFamily
                    &&& has_family(old(self)@, spec@.name)
                    &&& final(self)@ == old(self)@
                },
            },
    {
        proof {
            use_type_invariant(&*self);
        }
        if self.find_family(spec.name.as_str()).is_some() {
            return Err(StoreError::DuplicateFamily);
        }
        let id = self.families.len();
        let ghost before = self@;
        let ghost added = FamilyView { spec: spec@, series: Seq::<SeriesView>::empty() };
        let mut families = self.take_families();
        families.push(Family { spec, series: Vec::new() });
        proof {
            let after = Seq::new(families@.len(), |i: int| families@[i]@);
            assert(families@[id as int]@.series =~= Seq::<SeriesView>::empty());
            assert(after =~= before.push(added));
            assert forall|i: int, j: int| 0 <= i < j < after.len() implies after[i].spec.name
                != after[j].spec.name by {
                if j == id {
                    assert(before[i].spec.name != spec@.name);
                } else {
                    assert(before[i].spec.name != before[j].spec.name);
                }
            }
            assert forall|i: int| 0 <= i < after.len() implies family_wf(#[trigger] after[i]) by {
                if i < id {
                    assert(family_wf(before[i]));
                }
            }
        }
        self.families = families;
        Ok(id)
    }

    /// Folds one observation into a family: the series with these label
    /// values takes the combined value, or is created with the observed one.
    pub(crate) fn fold_in(&mut self, family: usize, labels: Vec<String>, value: u64, rule: Rule)
        requires
            family < old(self)@.len(),
            labels.deep_view().len() == old(self)@[family as int].spec.label_names.len(),
        ensures
            final(self)@ == with_series(
                old(self)@,
                family as int,
                upsert(old(self)@[family as int].series, labels.deep_view(), value, rule),
            ),
    {
        proof {
            use_type_invariant(&*self);
        }
        let ghost before = self@;
        let ghost key = labels.deep_view();
        let ghost series_before = before[family as int].series;
        let mut families = self.take_families();
        assert(families@[family as int]@ == before[family as int]);
        let found = find_series(&families[family].series, &labels);
        match found {
            Some(i) => {
                let current = families[family].series[i].value;
                proof {
                    assert(series_before[i as int] == families@[family as int].series@[i as int]@);
                    lemma_index_of(series_before, key, i as int);
                }
                families[family].series[i].value = combine_values(rule, current, value);
            },
            None => {
                proof {
                    assert forall|j: int| 0 <= j < series_before.len() implies (
                    #[trigger] series_before[j]).labels != key by {
                        assert(series_before[j] == families@[family as int].series@[j]@);
                    }
                }
                families[family].series.push(Series { labels, value });
            },
        }
        proof {
            let after = Seq::new(families@.len(), |i: int| families@[i]@);
            let expected = with_series(
                before,
                family as int,
                upsert(series_before, key, value, rule),
            );
            assert(after[family as int].series =~= expected[family as int].series);
            assert forall|i: int| 0 <= i < after.len() implies after[i] == expected[i] by {
                if i != family {
                    assert(families@[i]@ == before[i]);
                }
            }
            assert(after =~= expected);
            lemma_upsert_wf(before[family as int], key, value, rule);
            lemma_with_series_wf(before, family as int, upsert(series_before, key, value, rule));
        }
        self.families = families;
    }

    /// Empties a family: its series go, its registration stays.
    pub(crate) fn clear(&mut self, family: usize)
        requires
            family < old(self)@.len(),
        ensures
            final(self)@ == with_series(old(self)@, family as int, Seq::empty()),
    {
        proof {
            use_type_invariant(&*self);
        }
        let ghost before = self@;
        let mut families = self.take_families();
        assert(families@[family as int]@ == before[family as int]);
        families[family].series = Vec::new();
        proof {
            let after = Seq::new(families@.len(), |i: int| families@[i]@);
            let expected = with_series(before, family as int, Seq::empty());
            assert(after[family as int].series =~= expected[family as int].series);
            assert forall|i: int| 0 <= i < after.len() implies after[i] == expected[i] by {
                if i != family {
                    assert(families@[i]@ == before[i]);
                }
            }
            assert(after =~= expected);
            lemma_with_series_wf(before, family as int, Seq::empty());
        }
        self.families = families;
    }

    fn write(&mut self, family: usize, series: usize, value: u64)
        requires
            family < old(self)@.len(),
            series < old(self)@[family as int].series.len(),
        ensures
            final(self)@ == with_value(
                old(self)@,
                SeriesHandle { family, series },
                value,
            ),
    {
        proof {
            use_type_invariant(&*self);
        }
        let ghost before = self@;
        let ghost series_before = before[family as int].series;
        let mut families = self.take_families();
        assert(families@[family as int]@ == before[family as int]);
        assert(series_before[series as int] == families@[family as int].series@[series as int]@);
        families[family].series[series].value = value;
        proof {
            let after = Seq::new(families@.len(), |i: int| families@[i]@);
            let expected = with_value(before, SeriesHandle { family, series }, value);
            assert(after[family as int].series =~= expected[family as int].series);
            assert forall|i: int| 0 <= i < after.len() implies after[i] == expected[i] by {
                if i != family {
                    assert(families@[i]@ == before[i]);
                }
            }
            assert(after =~= expected);
            let changed = expected[family as int];
            assert(family_wf(changed)) by {
                assert(family_wf(before[family as int]));
                assert forall|a: int, b: int| 0 <= a < b < changed.series.len() implies
                    changed.series[a].labels != changed.series[b].labels by {
                    assert(series_before[a].labels != series_before[b].labels);
                }
                assert forall|a: int| 0 <= a < changed.series.len() implies (
                #[trigger] changed.series[a]).labels.len() == changed.spec.label_names.len() by {
                    assert(series_before[a].labels.len() == changed.spec.label_names.len());
                }
            }
            lemma_with_series_wf(before, family as int, changed.series);
        }
        self.families = families;
    }

    /// The series of the family `name` with the label values `labels`. It is
    /// created with the value 0 if the family has none yet.
    pub fn get_or_create(&mut self, name: &str, labels: Vec<String>) -> (r: Result<
        SeriesHandle,
        StoreError,
    >)
        ensures
            match r {
                Ok(handle) => {
                    let family = family_index(old(self)@, name@);
                    let series = with_key(old(self)@[family].series, labels.deep_view());
                    &&& has_family(old(self)@, name@)
                    &&& labels.deep_view().len() == old(self)@[family].spec.label_names.len()
                    &&& final(self)@ == with_series(old(self)@, family, series)
                    &&& handle.family == family
                    &&& handle.series == index_of(series, labels.deep_view())
                    &&& handle_valid(final(self)@, handle)
                    &&& final(self)@[family].series[handle.series as int].labels
                        == labels.deep_view()
                },
                Err(e) => {
                    &&& final(self)@ == old(self)@
                    &&& e == StoreError::UnknownFamily || e == StoreError::LabelMismatch
                    &&& e == StoreError::UnknownFamily <==> !has_family(old(self)@, name@)
                    &&& e == StoreError::LabelMismatch ==> labels.deep_view().len() != old(
                        self,
                    )@[family_index(old(self)@, name@)].spec.label_names.len()
                },
            },
    {
        proof {
            use_type_invariant(&*self);
        }
        let family = match self.find_family(name) {
            Some(family) => family,
            None => { return Err(StoreError::UnknownFamily); },
        };
        if labels.len() != self.families[family].spec.label_names.len() {
            return Err(StoreError::LabelMismatch);
        }
        let ghost before = self@;
        let ghost key = labels.deep_view();
        let ghost series_before = before[family as int].series;
        assert(self.families@[family as int]@ == before[family as int]);
        let found = find_series(&self.families[family].series, &labels);
        match found {
            Some(series) => {
                proof {
                    assert(series_before[series as int]
                        == self.families@[family as int].series@[series as int]@);
                    lemma_index_of(series_before, key, series as int);
                    assert(before =~= with_series(before, family as int, series_before));
                }
                Ok(SeriesHandle { family, series })
            },
            None => {
                proof {
                    assert forall|j: int| 0 <= j < series_before.len() implies (
                    #[trigger] series_before[j]).labels != key by {
                        assert(series_before[j] == self.families@[family as int].series@[j]@);
                    }
                    assert(upsert(series_before, key, 0, Rule::Replace) == with_key(
                        series_before,
                        key,
                    ));
                    lemma_upsert_wf(before[family as int], key, 0, Rule::Replace);
                    lemma_index_of(with_key(series_before, key), key, series_before.len() as int);
                }
                let series = self.families[family].series.len();
                self.fold_in(family, labels, 0, Rule::Replace);
                Ok(SeriesHandle { family, series })
            },
        }
    }

    /// The value of a series.
    pub fn get(&self, handle: SeriesHandle) -> (r: Option<u64>)
        ensures
            r is Some <==> handle_valid(self@, handle),
            r matches Some(v) ==> v
                == self@[handle.family as int].series[handle.series as int].value,
    {
        if handle.family >= self.families.len() {
            return None;
        }
        assert(self.families@[handle.family as int]@ == self@[handle.family as int]);
        if handle.series >= self.families[handle.family].series.len() {
            return None;
        }
        assert(self@[handle.family as int].series[handle.series as int]
            == self.families@[handle.family as int].series@[handle.series as int]@);
        Some(self.families[handle.family].series[handle.series].value)
    }

    /// Overwrites the value of a gauge series.
    pub fn set(&mut self, handle: SeriesHandle, value: u64) -> (r: Result<(), StoreError>)
        ensures
            match r {
                Ok(_) => {
                    &&& handle_valid(old(self)@, handle)
                    &&& old(self)@[handle.family as int].spec.kind == MetricKind::Gauge
                    &&& final(self)@ == with_value(old(self)@, handle, value)
                },
                Err(e) => {
                    &&& final(self)@ == old(self)@
                    &&& e == StoreError::UnknownSeries || e == StoreError::WrongKind
                    &&& e == StoreError::UnknownSeries <==> !handle_valid(old(self)@, handle)
                    &&& e == StoreError::WrongKind ==> old(self)@[handle.family as int].spec.kind
                        == MetricKind::Counter
                },
            },
    {
        if self.get(handle).is_none() {
            return Err(StoreError::UnknownSeries);
        }
        assert(self.families@[handle.family as int]@ == self@[handle.family as int]);
        match self.families[handle.family].spec.kind {
            MetricKind::Counter => Err(StoreError::WrongKind),
            MetricKind::Gauge => {
                self.write(handle.family, handle.series, value);
                Ok(())
            },
        }
    }

    /// Adds `delta` to a counter series. The value stays at `u64::MAX` once
    /// the sum would pass it. A negative `delta` is refused.
    pub fn increment(&mut self, handle: SeriesHandle, delta: i128) -> (r: Result<(), StoreError>)
        ensures
            match r {
                Ok(_) => {
                    &&& handle_valid(old(self)@, handle)
                    &&& old(self)@[handle.family as int].spec.kind == MetricKind::Counter
                    &&& delta >= 0
                    &&& final(self)@ == with_value(
                        old(self)@,
                        handle,
                        clamp(
                            old(self)@[handle.family as int].series[handle.series as int].value
                                + delta,
                        ),
                    )
                    &&& final(self)@[handle.family as int].series[handle.series as int].value
                        >= old(self)@[handle.family as int].series[handle.series as int].value
                },
                Err(e) => {
                    &&& final(self)@ == old(self)@
                    &&& e == StoreError::UnknownSeries || e == StoreError::WrongKind || e
                        == StoreError::InvalidDelta
                    &&& e == StoreError::UnknownSeries <==> !handle_valid(old(self)@, handle)
                    &&& e == StoreError::WrongKind <==> handle_valid(old(self)@, handle)
                        && old(self)@[handle.family as int].spec.kind == MetricKind::Gauge
                    &&& e == StoreError::InvalidDelta ==> delta < 0
                },
            },
    {
        let current = match self.get(handle) {
            Some(current) => current,
            None => { return Err(StoreError::UnknownSeries); },
        };
        assert(self.families@[handle.family as int]@ == self@[handle.family as int]);
        match self.families[handle.family].spec.kind {
            MetricKind::Gauge => Err(StoreError::WrongKind),
            MetricKind::Counter => {
                if delta < 0 {
                    return Err(StoreError::InvalidDelta);
                }
                let room = u64::MAX - current;
                let value = if delta > room as i128 {
                    u64::MAX
                } else {
                    current + delta as u64
                };
                self.write(handle.family, handle.series, value);
                Ok(())
            },
        }
    }

    /// Empties the family `name`: its series go, its registration stays.
    pub fn reset_family(&mut self, name: &str) -> (r: Result<(), StoreError>)
        ensures
            match r {
                Ok(_) => {
                    &&& has_family(old(self)@, name@)
                    &&& final(self)@ == with_series(
                        old(self)@,
                        family_index(old(self)@, name@),
                        Seq::empty(),
                    )
                },
                Err(e) => {
                    &&& e == StoreError::UnknownFamily
                    &&& !has_family(old(self)@, name@)
                    &&& final(self)@ == old(self)@
                },
            },
    {
        match self.find_family(name) {
            Some(family) => {
                self.clear(family);
                Ok(())
            },
            None => Err(StoreError::UnknownFamily),
        }
    }

    /// Every series of the store with the name and kind of its family:
    /// family after family in the order of registration, and within a
    /// family in the order in which its series were created.
    pub fn snapshot(&self) -> (r: Vec<SnapshotEntry>)
        ensures
            r.deep_view() == snapshot_of(self@),
    {
        proof {
            use_type_invariant(self);
        }
        let mut out: Vec<SnapshotEntry> = Vec::new();
        let mut i: usize = 0;
        assert(self@.take(0) =~= Seq::<FamilyView>::empty());
        assert(out.deep_view() =~= snapshot_of(self@.take(0)));
        while i < self.families.len()
            invariant
                i <= self.families.len(),
                store_wf(self@),
                out.deep_view() == snapshot_of(self@.take(i as int)),
            decreases self.families.len() - i,
        {
            assert(self.families@[i as int]@ == self@[i as int]);
            assert(family_wf(self@[i as int]));
            push_entries(&mut out, &self.families[i]);
            proof {
                assert(self@.take(i as int + 1).drop_last() =~= self@.take(i as int));
                assert(self@.take(i as int + 1).last() == self@[i as int]);
            }
            i += 1;
        }
        assert(self@.take(i as int) =~= self@);
        out
    }

    /// The series of the family at place `family`, as the snapshot has
    /// them; none where there is no such family.
    pub fn family_snapshot(&self, family: usize) -> (r: Vec<SnapshotEntry>)
        ensures
            r.deep_view() == if family < self@.len() {
                family_entries(self@[family as int])
            } else {
                Seq::empty()
            },
    {
        proof {
            use_type_invariant(self);
        }
        let mut out: Vec<SnapshotEntry> = Vec::new();
        assert(out.deep_view() =~= Seq::<SnapshotEntryView>::empty());
        if family < self.families.len() {
            assert(self.families@[family as int]@ == self@[family as int]);
            assert(family_wf(self@[family as int]));
            push_entries(&mut out, &self.families[family]);
            assert(out.deep_view() =~= family_entries(self@[family as int]));
        }
        out
    }

    /// The value of the series with these label values in the family at
    /// place `family`.
    pub fn lookup(&self, family: usize, labels: &Vec<String>) -> (r: Option<u64>)
        ensures
            family < self@.len() ==> r == value_of(self@[family as int].series, labels.deep_view()),
            family >= self@.len() ==> r is None,
    {
        proof {
            use_type_invariant(self);
        }
        if family >= self.families.len() {
            return None;
        }
        let ghost series = self@[family as int].series;
        assert(self.families@[family as int]@ == self@[family as int]);
        assert(family_wf(self@[family as int]));
        match find_series(&self.families[family].series, labels) {
            Some(i) => {
                proof {
                    assert(series[i as int] == self.families@[family as int].series@[i as int]@);
                    lemma_index_of(series, labels.deep_view(), i as int);
                }
                Some(self.families[family].series[i].value)
            },
            None => {
                proof {
                    assert forall|j: int| 0 <= j < series.len() implies (
                    #[trigger] series[j]).labels != labels.deep_view() by {
                        assert(series[j] == self.families@[family as int].series@[j]@);
                    }
                }
                None
            },
        }
    }

    /// The registrations of the families, in the order of their registration.
    pub fn families(&self) -> (r: Vec<FamilySpec>)
        ensures
            r.deep_view() == self@.map_values(|f: FamilyView| f.spec),
    {
        let mut out: Vec<FamilySpec> = Vec::new();
        let mut i: usize = 0;
        while i < self.families.len()
            invariant
                i <= self.families.len(),
                out.len() == i,
                forall|j: int| 0 <= j < i ==> out[j]@ == self@[j].spec,
            decreases self.families.len() - i,
        {
            out.push(self.families[i].spec.duplicate());
            i += 1;
        }
        assert(out.deep_view() =~= self@.map_values(|f: FamilyView| f.spec));
        out
    }
}

} // verus!
