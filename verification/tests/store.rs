use simon::model::MetricKind;
use simon::store::{FamilySpec, MetricStore, SeriesHandle, SnapshotEntry, StoreError};

fn spec(name: &str, labels: &[&str], kind: MetricKind) -> FamilySpec {
    FamilySpec {
        name: name.to_string(),
        help: format!("help for {}", name),
        label_names: labels.iter().map(|l| l.to_string()).collect(),
        kind,
        scale: 1,
    }
}

fn values(labels: &[&str]) -> Vec<String> {
    labels.iter().map(|l| l.to_string()).collect()
}

fn store_with_both() -> MetricStore {
    let mut store = MetricStore::new();
    assert_eq!(store.register(spec("temperature", &["room"], MetricKind::Gauge)), Ok(0));
    assert_eq!(store.register(spec("requests", &["route", "code"], MetricKind::Counter)), Ok(1));
    store
}

#[test]
fn new_store_is_empty() {
    let store = MetricStore::new();
    assert_eq!(store.len(), 0);
    assert!(store.snapshot().is_empty());
    assert!(store.families().is_empty());
}

#[test]
fn register_twice_is_refused() {
    let mut store = MetricStore::new();
    assert_eq!(store.register(spec("requests", &["route"], MetricKind::Counter)), Ok(0));
    assert_eq!(
        store.register(spec("requests", &[], MetricKind::Gauge)),
        Err(StoreError::DuplicateFamily)
    );
    assert_eq!(store.len(), 1);
    assert_eq!(store.families()[0].kind, MetricKind::Counter);
}

#[test]
fn register_gives_places_in_order() {
    let store = store_with_both();
    assert_eq!(store.len(), 2);
    assert_eq!(store.find_family("temperature"), Some(0));
    assert_eq!(store.find_family("requests"), Some(1));
    assert_eq!(store.find_family("missing"), None);
    let families = store.families();
    assert_eq!(families[1].name, "requests");
    assert_eq!(families[1].help, "help for requests");
    assert_eq!(families[1].label_names, values(&["route", "code"]));
    assert_eq!(families[1].kind, MetricKind::Counter);
    assert_eq!(families[1].scale, 1);
}

#[test]
fn get_or_create_creates_once_with_zero() {
    let mut store = store_with_both();
    let first = store.get_or_create("temperature", values(&["hall"])).unwrap();
    assert_eq!(first, SeriesHandle { family: 0, series: 0 });
    assert_eq!(store.get(first), Some(0));
    let second = store.get_or_create("temperature", values(&["attic"])).unwrap();
    assert_eq!(second, SeriesHandle { family: 0, series: 1 });
    let again = store.get_or_create("temperature", values(&["hall"])).unwrap();
    assert_eq!(again, first);
    assert_eq!(store.snapshot().len(), 2);
}

#[test]
fn get_or_create_keeps_the_value_of_a_series_that_is_there() {
    let mut store = store_with_both();
    let handle = store.get_or_create("temperature", values(&["hall"])).unwrap();
    assert_eq!(store.set(handle, 21), Ok(()));
    let again = store.get_or_create("temperature", values(&["hall"])).unwrap();
    assert_eq!(store.get(again), Some(21));
}

#[test]
fn get_or_create_refuses_unknown_family() {
    let mut store = store_with_both();
    assert_eq!(
        store.get_or_create("pressure", values(&["hall"])),
        Err(StoreError::UnknownFamily)
    );
    assert!(store.snapshot().is_empty());
}

#[test]
fn get_or_create_refuses_wrong_number_of_labels() {
    let mut store = store_with_both();
    assert_eq!(
        store.get_or_create("temperature", values(&["hall", "north"])),
        Err(StoreError::LabelMismatch)
    );
    assert_eq!(store.get_or_create("requests", values(&["/"])), Err(StoreError::LabelMismatch));
    assert_eq!(store.get_or_create("temperature", values(&[])), Err(StoreError::LabelMismatch));
    assert!(store.snapshot().is_empty());
}

#[test]
fn set_overwrites_a_gauge() {
    let mut store = store_with_both();
    let hall = store.get_or_create("temperature", values(&["hall"])).unwrap();
    let attic = store.get_or_create("temperature", values(&["attic"])).unwrap();
    assert_eq!(store.set(hall, 21), Ok(()));
    assert_eq!(store.set(attic, 30), Ok(()));
    assert_eq!(store.set(hall, 19), Ok(()));
    assert_eq!(store.get(hall), Some(19));
    assert_eq!(store.get(attic), Some(30));
}

#[test]
fn set_refuses_a_counter() {
    let mut store = store_with_both();
    let handle = store.get_or_create("requests", values(&["/", "200"])).unwrap();
    assert_eq!(store.increment(handle, 3), Ok(()));
    assert_eq!(store.set(handle, 1), Err(StoreError::WrongKind));
    assert_eq!(store.get(handle), Some(3));
}

#[test]
fn set_refuses_a_handle_without_series() {
    let mut store = store_with_both();
    assert_eq!(
        store.set(SeriesHandle { family: 0, series: 0 }, 1),
        Err(StoreError::UnknownSeries)
    );
    assert_eq!(
        store.set(SeriesHandle { family: 7, series: 0 }, 1),
        Err(StoreError::UnknownSeries)
    );
    assert_eq!(store.get(SeriesHandle { family: 0, series: 0 }), None);
    assert_eq!(store.get(SeriesHandle { family: 7, series: 0 }), None);
}

#[test]
fn increment_adds_to_a_counter() {
    let mut store = store_with_both();
    let handle = store.get_or_create("requests", values(&["/", "200"])).unwrap();
    assert_eq!(store.increment(handle, 1000), Ok(()));
    assert_eq!(store.increment(handle, 0), Ok(()));
    assert_eq!(store.increment(handle, 500), Ok(()));
    assert_eq!(store.get(handle), Some(1500));
}

#[test]
fn increment_refuses_a_negative_delta() {
    let mut store = store_with_both();
    let handle = store.get_or_create("requests", values(&["/", "200"])).unwrap();
    assert_eq!(store.increment(handle, 10), Ok(()));
    assert_eq!(store.increment(handle, -1), Err(StoreError::InvalidDelta));
    assert_eq!(store.increment(handle, i128::MIN), Err(StoreError::InvalidDelta));
    assert_eq!(store.get(handle), Some(10));
}

#[test]
fn increment_refuses_a_gauge() {
    let mut store = store_with_both();
    let handle = store.get_or_create("temperature", values(&["hall"])).unwrap();
    assert_eq!(store.increment(handle, 1), Err(StoreError::WrongKind));
    assert_eq!(store.increment(handle, -1), Err(StoreError::WrongKind));
    assert_eq!(store.get(handle), Some(0));
}

#[test]
fn increment_refuses_a_handle_without_series() {
    let mut store = store_with_both();
    assert_eq!(
        store.increment(SeriesHandle { family: 1, series: 0 }, 1),
        Err(StoreError::UnknownSeries)
    );
    assert_eq!(
        store.increment(SeriesHandle { family: 1, series: 0 }, -1),
        Err(StoreError::UnknownSeries)
    );
}

#[test]
fn increment_stays_at_the_largest_value() {
    let mut store = store_with_both();
    let handle = store.get_or_create("requests", values(&["/", "200"])).unwrap();
    assert_eq!(store.increment(handle, (u64::MAX - 1) as i128), Ok(()));
    assert_eq!(store.get(handle), Some(u64::MAX - 1));
    assert_eq!(store.increment(handle, 1), Ok(()));
    assert_eq!(store.get(handle), Some(u64::MAX));
    assert_eq!(store.increment(handle, 5), Ok(()));
    assert_eq!(store.get(handle), Some(u64::MAX));
    assert_eq!(store.increment(handle, i128::MAX), Ok(()));
    assert_eq!(store.get(handle), Some(u64::MAX));
}

#[test]
fn reset_family_empties_one_family() {
    let mut store = store_with_both();
    let hall = store.get_or_create("temperature", values(&["hall"])).unwrap();
    let root = store.get_or_create("requests", values(&["/", "200"])).unwrap();
    assert_eq!(store.set(hall, 21), Ok(()));
    assert_eq!(store.increment(root, 4), Ok(()));
    assert_eq!(store.reset_family("temperature"), Ok(()));
    assert_eq!(store.get(hall), None);
    assert_eq!(store.get(root), Some(4));
    assert_eq!(store.len(), 2);
    assert_eq!(store.lookup(0, &values(&["hall"])), None);
    let again = store.get_or_create("temperature", values(&["hall"])).unwrap();
    assert_eq!(store.get(again), Some(0));
}

#[test]
fn reset_family_empties_a_counter_too() {
    let mut store = store_with_both();
    let root = store.get_or_create("requests", values(&["/", "200"])).unwrap();
    assert_eq!(store.increment(root, 4), Ok(()));
    assert_eq!(store.reset_family("requests"), Ok(()));
    assert_eq!(store.get(root), None);
}

#[test]
fn reset_family_refuses_unknown_family() {
    let mut store = store_with_both();
    let hall = store.get_or_create("temperature", values(&["hall"])).unwrap();
    assert_eq!(store.reset_family("pressure"), Err(StoreError::UnknownFamily));
    assert_eq!(store.get(hall), Some(0));
}

#[test]
fn lookup_finds_by_label_values() {
    let mut store = store_with_both();
    let a = store.get_or_create("requests", values(&["/", "200"])).unwrap();
    let b = store.get_or_create("requests", values(&["/", "500"])).unwrap();
    assert_eq!(store.increment(a, 7), Ok(()));
    assert_eq!(store.increment(b, 2), Ok(()));
    assert_eq!(store.lookup(1, &values(&["/", "200"])), Some(7));
    assert_eq!(store.lookup(1, &values(&["/", "500"])), Some(2));
    assert_eq!(store.lookup(1, &values(&["/", "404"])), None);
    assert_eq!(store.lookup(1, &values(&["/"])), None);
    assert_eq!(store.lookup(0, &values(&["/", "200"])), None);
    assert_eq!(store.lookup(2, &values(&["/", "200"])), None);
}

#[test]
fn snapshot_lists_families_in_order_of_registration() {
    let mut store = store_with_both();
    let root = store.get_or_create("requests", values(&["/", "200"])).unwrap();
    let hall = store.get_or_create("temperature", values(&["hall"])).unwrap();
    let attic = store.get_or_create("temperature", values(&["attic"])).unwrap();
    assert_eq!(store.increment(root, 4), Ok(()));
    assert_eq!(store.set(hall, 21), Ok(()));
    assert_eq!(store.set(attic, 30), Ok(()));
    let snapshot: Vec<SnapshotEntry> = store.snapshot();
    assert_eq!(snapshot.len(), 3);
    assert_eq!(snapshot[0].name, "temperature");
    assert_eq!(snapshot[0].labels, vec![("room".to_string(), "hall".to_string())]);
    assert_eq!(snapshot[0].value, 21);
    assert_eq!(snapshot[0].kind, MetricKind::Gauge);
    assert_eq!(snapshot[1].name, "temperature");
    assert_eq!(snapshot[1].labels, vec![("room".to_string(), "attic".to_string())]);
    assert_eq!(snapshot[1].value, 30);
    assert_eq!(snapshot[2].name, "requests");
    assert_eq!(
        snapshot[2].labels,
        vec![
            ("route".to_string(), "/".to_string()),
            ("code".to_string(), "200".to_string())
        ]
    );
    assert_eq!(snapshot[2].value, 4);
    assert_eq!(snapshot[2].kind, MetricKind::Counter);
}

#[test]
fn family_snapshot_lists_one_family() {
    let mut store = store_with_both();
    let root = store.get_or_create("requests", values(&["/", "200"])).unwrap();
    let hall = store.get_or_create("temperature", values(&["hall"])).unwrap();
    let attic = store.get_or_create("temperature", values(&["attic"])).unwrap();
    assert_eq!(store.increment(root, 4), Ok(()));
    assert_eq!(store.set(hall, 21), Ok(()));
    assert_eq!(store.set(attic, 30), Ok(()));
    let rooms = store.family_snapshot(0);
    assert_eq!(rooms.len(), 2);
    assert_eq!(rooms[0].name, "temperature");
    assert_eq!(rooms[0].labels, vec![("room".to_string(), "hall".to_string())]);
    assert_eq!(rooms[0].value, 21);
    assert_eq!(rooms[1].labels, vec![("room".to_string(), "attic".to_string())]);
    assert_eq!(rooms[1].value, 30);
    let routes = store.family_snapshot(1);
    assert_eq!(routes.len(), 1);
    assert_eq!(routes[0].name, "requests");
    assert_eq!(routes[0].value, 4);
    assert_eq!(routes[0].kind, MetricKind::Counter);
    assert!(store.family_snapshot(2).is_empty());
    let all: Vec<(String, u64)> = store.snapshot().into_iter().map(|e| (e.name, e.value)).collect();
    let by_family: Vec<(String, u64)> = (0..store.len())
        .flat_map(|place| store.family_snapshot(place))
        .map(|e| (e.name, e.value))
        .collect();
    assert_eq!(all, by_family);
}

#[test]
fn family_without_labels_has_one_series() {
    let mut store = MetricStore::new();
    assert_eq!(store.register(spec("uptime", &[], MetricKind::Gauge)), Ok(0));
    let a = store.get_or_create("uptime", values(&[])).unwrap();
    let b = store.get_or_create("uptime", values(&[])).unwrap();
    assert_eq!(a, b);
    assert_eq!(store.set(a, 12), Ok(()));
    let snapshot = store.snapshot();
    assert_eq!(snapshot.len(), 1);
    assert!(snapshot[0].labels.is_empty());
    assert_eq!(snapshot[0].value, 12);
}

#[test]
fn duplicate_copies_a_registration() {
    let registered = spec("requests", &["route", "code"], MetricKind::Counter);
    let copy = registered.duplicate();
    assert_eq!(copy.name, registered.name);
    assert_eq!(copy.help, registered.help);
    assert_eq!(copy.label_names, registered.label_names);
    assert_eq!(copy.kind, registered.kind);
    assert_eq!(copy.scale, registered.scale);
}
