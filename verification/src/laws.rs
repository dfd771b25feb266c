//! What holds of the fold of a run of observations into a family: which
//! series there are afterwards, and what each of them holds.

use crate::model::{
    clamp, combine, distinct_keys, has_key, index_of, lemma_index_of, merged, upsert, value_of,
    Rule, SeriesView,
};
use vstd::prelude::*;

verus! {

/// Some observation of the run carries the label values `key`.
pub open spec fn observes(observations: Seq<SeriesView>, key: Seq<Seq<char>>) -> bool {
    exists|i: int| 0 <= i < observations.len() && (#[trigger] observations[i]).labels == key
}

/// The sum of the values that the run observes under `key`.
pub open spec fn total(observations: Seq<SeriesView>, key: Seq<Seq<char>>) -> int
    decreases observations.len(),
{
    if observations.len() == 0 {
        0
    } else {
        total(observations.drop_last(), key) + if observations.last().labels == key {
            observations.last().value as int
        } else {
            0
        }
    }
}

/// The value that a series holds, 0 where there is no such series.
pub open spec fn value_or_zero(series: Seq<SeriesView>, key: Seq<Seq<char>>) -> int {
    match value_of(series, key) {
        Some(v) => v as int,
        None => 0,
    }
}

/// `m` is the least of the values that the run observes under `key`.
pub open spec fn is_least(observations: Seq<SeriesView>, key: Seq<Seq<char>>, m: u64) -> bool {
    &&& forall|i: int|
        0 <= i < observations.len() && (#[trigger] observations[i]).labels == key ==> m
            <= observations[i].value
    &&& exists|i: int|
        0 <= i < observations.len() && (#[trigger] observations[i]).labels == key
            && observations[i].value == m
}

/// `m` is the greatest of the values that the run observes under `key`.
pub open spec fn is_greatest(observations: Seq<SeriesView>, key: Seq<Seq<char>>, m: u64) -> bool {
    &&& forall|i: int|
        0 <= i < observations.len() && (#[trigger] observations[i]).labels == key ==> m
            >= observations[i].value
    &&& exists|i: int|
        0 <= i < observations.len() && (#[trigger] observations[i]).labels == key
            && observations[i].value == m
}

/// After one observation the family has the series it had, and one for the
/// observed label values.
pub proof fn lemma_upsert_keys(
    series: Seq<SeriesView>,
    key: Seq<Seq<char>>,
    value: u64,
    rule: Rule,
    other: Seq<Seq<char>>,
)
    ensures
        has_key(upsert(series, key, value, rule), other) <==> (has_key(series, other) || other
            == key),
{
    let after = upsert(series, key, value, rule);
    if has_key(series, key) {
        let i = index_of(series, key);
        assert(0 <= i < series.len() && series[i].labels == key);
        if has_key(series, other) {
            let j = index_of(series, other);
            assert(0 <= j < series.len() && series[j].labels == other);
            assert(after[j].labels == other);
        }
        if has_key(after, other) {
            let j = index_of(after, other);
            assert(0 <= j < after.len() && after[j].labels == other);
            assert(series[j].labels == other);
        }
        if other == key {
            assert(after[i].labels == key);
        }
    } else {
        if has_key(series, other) {
            let j = index_of(series, other);
            assert(0 <= j < series.len() && series[j].labels == other);
            assert(after[j].labels == other);
        }
        if has_key(after, other) {
            let j = index_of(after, other);
            assert(0 <= j < after.len() && after[j].labels == other);
            if j < series.len() {
                assert(series[j].labels == other);
            }
        }
        if other == key {
            assert(after[series.len() as int].labels == key);
        }
    }
}

/// One observation keeps the label values of a family distinct.
pub proof fn lemma_upsert_distinct(
    series: Seq<SeriesView>,
    key: Seq<Seq<char>>,
    value: u64,
    rule: Rule,
)
    requires
        distinct_keys(series),
    ensures
        distinct_keys(upsert(series, key, value, rule)),
{
    let after = upsert(series, key, value, rule);
    if has_key(series, key) {
        let i = index_of(series, key);
        assert(0 <= i < series.len() && series[i].labels == key);
        assert forall|a: int, b: int| 0 <= a < b < after.len() implies after[a].labels
            != after[b].labels by {
            assert(after[a].labels == series[a].labels);
            assert(after[b].labels == series[b].labels);
        }
    } else {
        assert forall|a: int, b: int| 0 <= a < b < after.len() implies after[a].labels
            != after[b].labels by {
            if b == series.len() {
                assert(series[a].labels != key);
            } else {
                assert(series[a].labels != series[b].labels);
            }
        }
    }
}

/// What the series of the observed label values holds after one observation.
pub proof fn lemma_upsert_value(
    series: Seq<SeriesView>,
    key: Seq<Seq<char>>,
    value: u64,
    rule: Rule,
)
    requires
        distinct_keys(series),
    ensures
        value_of(upsert(series, key, value, rule), key) == Some(
            match value_of(series, key) {
                Some(current) => combine(rule, current, value),
                None => value,
            },
        ),
{
    let after = upsert(series, key, value, rule);
    lemma_upsert_distinct(series, key, value, rule);
    if has_key(series, key) {
        let i = index_of(series, key);
        assert(0 <= i < series.len() && series[i].labels == key);
        lemma_index_of(after, key, i);
    } else {
        lemma_index_of(after, key, series.len() as int);
    }
}

/// One observation leaves the series of all other label values as they were.
pub proof fn lemma_upsert_other(
    series: Seq<SeriesView>,
    key: Seq<Seq<char>>,
    value: u64,
    rule: Rule,
    other: Seq<Seq<char>>,
)
    requires
        distinct_keys(series),
        other != key,
    ensures
        value_of(upsert(series, key, value, rule), other) == value_of(series, other),
{
    let after = upsert(series, key, value, rule);
    lemma_upsert_distinct(series, key, value, rule);
    lemma_upsert_keys(series, key, value, rule, other);
    if has_key(series, other) {
        let j = index_of(series, other);
        assert(0 <= j < series.len() && series[j].labels == other);
        if has_key(series, key) {
            let i = index_of(series, key);
            assert(0 <= i < series.len() && series[i].labels == key);
            assert(i != j);
        }
        assert(after[j] == series[j]);
        lemma_index_of(after, other, j);
    }
}

/// One observation under the rule of sums loses no series and lets none fall.
pub proof fn lemma_upsert_grows(
    series: Seq<SeriesView>,
    key: Seq<Seq<char>>,
    value: u64,
    other: Seq<Seq<char>>,
)
    requires
        distinct_keys(series),
        has_key(series, other),
    ensures
        has_key(upsert(series, key, value, Rule::Sum), other),
        value_of(upsert(series, key, value, Rule::Sum), other).unwrap() >= value_of(
            series,
            other,
        ).unwrap(),
{
    lemma_upsert_keys(series, key, value, Rule::Sum, other);
    if other == key {
        lemma_upsert_value(series, key, value, Rule::Sum);
    } else {
        lemma_upsert_other(series, key, value, Rule::Sum, other);
    }
}

/// A run of observations keeps the label values of a family distinct.
pub proof fn lemma_merged_distinct(base: Seq<SeriesView>, observations: Seq<SeriesView>, rule: Rule)
    requires
        distinct_keys(base),
    ensures
        distinct_keys(merged(base, observations, rule)),
    decreases observations.len(),
{
    if observations.len() > 0 {
        let last = observations.last();
        lemma_merged_distinct(base, observations.drop_last(), rule);
        lemma_upsert_distinct(
            merged(base, observations.drop_last(), rule),
            last.labels,
            last.value,
            rule,
        );
    }
}

/// After a run of observations a family has exactly the series it had and
/// one for each label values that the run observes.
pub proof fn lemma_merged_keys(
    base: Seq<SeriesView>,
    observations: Seq<SeriesView>,
    rule: Rule,
    key: Seq<Seq<char>>,
)
    ensures
        has_key(merged(base, observations, rule), key) <==> (has_key(base, key) || observes(
            observations,
            key,
        )),
    decreases observations.len(),
{
    if observations.len() > 0 {
        let last = observations.last();
        let rest = observations.drop_last();
        lemma_merged_keys(base, rest, rule, key);
        lemma_upsert_keys(merged(base, rest, rule), last.labels, last.value, rule, key);
        if observes(rest, key) {
            let i = choose|i: int| 0 <= i < rest.len() && (#[trigger] rest[i]).labels == key;
            assert(observations[i].labels == key);
        }
        if last.labels == key {
            assert(observations[observations.len() - 1].labels == key);
        }
        if observes(observations, key) {
            let i = choose|i: int|
                0 <= i < observations.len() && (#[trigger] observations[i]).labels == key;
            if i < rest.len() {
                assert(rest[i].labels == key);
            }
        }
    }
}

/// A family that is rebuilt from nothing holds exactly the label values
/// that the run observes: none that it does not observe, and all that it
/// does.
pub proof fn lemma_rebuilt_keys(observations: Seq<SeriesView>, rule: Rule, key: Seq<Seq<char>>)
    ensures
        has_key(merged(Seq::empty(), observations, rule), key) <==> observes(observations, key),
{
    lemma_merged_keys(Seq::empty(), observations, rule, key);
}

/// The sum of what a run observes is never negative, and is 0 where the
/// run does not observe the label values at all.
pub proof fn lemma_total_bounds(observations: Seq<SeriesView>, key: Seq<Seq<char>>)
    ensures
        total(observations, key) >= 0,
        !observes(observations, key) ==> total(observations, key) == 0,
    decreases observations.len(),
{
    if observations.len() > 0 {
        let rest = observations.drop_last();
        lemma_total_bounds(rest, key);
        if !observes(observations, key) {
            assert(observations[observations.len() - 1].labels != key);
            if observes(rest, key) {
                let i = choose|i: int| 0 <= i < rest.len() && (#[trigger] rest[i]).labels == key;
                assert(observations[i].labels == key);
            }
        }
    }
}

/// Under the rule of sums a series holds what it held before the run plus
/// all that the run observes for it, held at `u64::MAX`.
pub proof fn lemma_merged_sum(
    base: Seq<SeriesView>,
    observations: Seq<SeriesView>,
    key: Seq<Seq<char>>,
)
    requires
        distinct_keys(base),
        has_key(base, key) || observes(observations, key),
    ensures
        value_of(merged(base, observations, Rule::Sum), key) == Some(
            clamp(value_or_zero(base, key) + total(observations, key)),
        ),
    decreases observations.len(),
{
    if observations.len() == 0 {
        assert(!observes(observations, key));
    } else {
        let last = observations.last();
        let rest = observations.drop_last();
        let before = merged(base, rest, Rule::Sum);
        lemma_merged_distinct(base, rest, Rule::Sum);
        lemma_merged_keys(base, rest, Rule::Sum, key);
        lemma_total_bounds(rest, key);
        if has_key(base, key) || observes(rest, key) {
            lemma_merged_sum(base, rest, key);
        }
        if last.labels == key {
            lemma_upsert_value(before, key, last.value, Rule::Sum);
        } else {
            lemma_upsert_other(before, last.labels, last.value, Rule::Sum, key);
            if !observes(rest, key) && observes(observations, key) {
                let i = choose|i: int|
                    0 <= i < observations.len() && (#[trigger] observations[i]).labels == key;
                assert(rest[i].labels == key);
            }
        }
    }
}

/// A series that is there before a run of sums is there afterwards and
/// holds no less.
pub proof fn lemma_merged_grows(
    base: Seq<SeriesView>,
    observations: Seq<SeriesView>,
    key: Seq<Seq<char>>,
)
    requires
        distinct_keys(base),
        has_key(base, key),
    ensures
        has_key(merged(base, observations, Rule::Sum), key),
        value_of(merged(base, observations, Rule::Sum), key).unwrap() >= value_of(
            base,
            key,
        ).unwrap(),
{
    lemma_merged_keys(base, observations, Rule::Sum, key);
    lemma_merged_sum(base, observations, key);
    lemma_total_bounds(observations, key);
}

/// In a family that is rebuilt from nothing under the rule of the
/// minimum, a series holds the least of what the run observes for it.
pub proof fn lemma_rebuilt_min(observations: Seq<SeriesView>, key: Seq<Seq<char>>)
    requires
        observes(observations, key),
    ensures
        value_of(merged(Seq::empty(), observations, Rule::Min), key) matches Some(m) && is_least(
            observations,
            key,
            m,
        ),
    decreases observations.len(),
{
    let last = observations.last();
    let rest = observations.drop_last();
    let before = merged(Seq::empty(), rest, Rule::Min);
    lemma_merged_distinct(Seq::empty(), rest, Rule::Min);
    lemma_merged_keys(Seq::empty(), rest, Rule::Min, key);
    let end = observations.len() - 1;
    assert(observations[end] == last);
    if observes(rest, key) {
        lemma_rebuilt_min(rest, key);
        let m0 = value_of(before, key).unwrap();
        let w = choose|i: int|
            0 <= i < rest.len() && (#[trigger] rest[i]).labels == key && rest[i].value == m0;
        assert(observations[w].labels == key && observations[w].value == m0);
        if last.labels == key {
            lemma_upsert_value(before, key, last.value, Rule::Min);
        } else {
            lemma_upsert_other(before, last.labels, last.value, Rule::Min, key);
        }
        let m = value_of(merged(Seq::empty(), observations, Rule::Min), key).unwrap();
        assert forall|i: int|
            0 <= i < observations.len() && (#[trigger] observations[i]).labels == key implies m
            <= observations[i].value by {
            if i < rest.len() {
                assert(rest[i].labels == key);
            }
        }
    } else {
        let i = choose|i: int|
            0 <= i < observations.len() && (#[trigger] observations[i]).labels == key;
        if i < rest.len() {
            assert(rest[i].labels == key);
        }
        assert(last.labels == key);
        lemma_upsert_value(before, key, last.value, Rule::Min);
        assert forall|j: int|
            0 <= j < observations.len() && (#[trigger] observations[j]).labels == key implies
            last.value <= observations[j].value by {
            if j < rest.len() {
                assert(rest[j].labels == key);
            }
        }
    }
}

/// In a family that is rebuilt from nothing under the rule of the
/// maximum, a series holds the greatest of what the run observes for it.
pub proof fn lemma_rebuilt_max(observations: Seq<SeriesView>, key: Seq<Seq<char>>)
    requires
        observes(observations, key),
    ensures
        value_of(merged(Seq::empty(), observations, Rule::Max), key) matches Some(m)
            && is_greatest(observations, key, m),
    decreases observations.len(),
{
    let last = observations.last();
    let rest = observations.drop_last();
    let before = merged(Seq::empty(), rest, Rule::Max);
    lemma_merged_distinct(Seq::empty(), rest, Rule::Max);
    lemma_merged_keys(Seq::empty(), rest, Rule::Max, key);
    let end = observations.len() - 1;
    assert(observations[end] == last);
    if observes(rest, key) {
        lemma_rebuilt_max(rest, key);
        let m0 = value_of(before, key).unwrap();
        let w = choose|i: int|
            0 <= i < rest.len() && (#[trigger] rest[i]).labels == key && rest[i].value == m0;
        assert(observations[w].labels == key && observations[w].value == m0);
        if last.labels == key {
            lemma_upsert_value(before, key, last.value, Rule::Max);
        } else {
            lemma_upsert_other(before, last.labels, last.value, Rule::Max, key);
        }
        let m = value_of(merged(Seq::empty(), observations, Rule::Max), key).unwrap();
        assert forall|i: int|
            0 <= i < observations.len() && (#[trigger] observations[i]).labels == key implies m
            >= observations[i].value by {
            if i < rest.len() {
                assert(rest[i].labels == key);
            }
        }
    } else {
        let i = choose|i: int|
            0 <= i < observations.len() && (#[trigger] observations[i]).labels == key;
        if i < rest.len() {
            assert(rest[i].labels == key);
        }
        assert(last.labels == key);
        lemma_upsert_value(before, key, last.value, Rule::Max);
        assert forall|j: int|
            0 <= j < observations.len() && (#[trigger] observations[j]).labels == key implies
            last.value >= observations[j].value by {
            if j < rest.len() {
                assert(rest[j].labels == key);
            }
        }
    }
}

} // verus!
