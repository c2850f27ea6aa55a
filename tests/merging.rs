use issuance::codec::{decode, encode, TimelineError};
use issuance::merge::{merge_atomic_append_step, merge_transactional_step, CAPACITY_BYTES};
use issuance::store::MemStore;

fn stored(store: &MemStore, name: &str) -> Option<Vec<i16>> {
    store.get(&name.to_string()).map(|b| decode(b).unwrap())
}

#[test]
fn transactional_merge_twice_is_unchanged() {
    let mut store = MemStore::new();
    let name = "example.org".to_string();
    store.merge_transactional(&name, 42);
    let first = store.get(&name).unwrap().clone();
    store.merge_transactional(&name, 42);
    assert_eq!(store.get(&name).unwrap(), &first);
    assert_eq!(stored(&store, "example.org"), Some(vec![42]));
    assert_eq!(store.len(), 1);
}

#[test]
fn transactional_distinct_offsets_are_all_kept() {
    let mut store = MemStore::new();
    let name = "x".to_string();
    let xs: Vec<i16> = vec![5, -3, 900, 17, 0];
    for x in &xs {
        store.merge_transactional(&name, *x);
    }
    assert_eq!(stored(&store, "x"), Some(xs));
}

#[test]
fn transactional_stops_at_capacity() {
    let mut store = MemStore::new();
    let name = "full".to_string();
    for x in 0..150i16 {
        store.merge_transactional(&name, x);
    }
    let b = store.get(&name).unwrap();
    assert_eq!(b.len(), CAPACITY_BYTES);
    assert_eq!(decode(b).unwrap(), (0..100i16).collect::<Vec<_>>());
}

#[test]
fn atomic_append_never_exceeds_capacity() {
    let mut store = MemStore::new();
    let name = "busy".to_string();
    for i in 0..500i32 {
        store.merge_atomic_append(&name, (i % 3) as i16);
        assert!(store.get(&name).unwrap().len() <= CAPACITY_BYTES);
    }
    assert_eq!(store.get(&name).unwrap().len(), CAPACITY_BYTES);
}

#[test]
fn atomic_append_keeps_duplicates() {
    let mut store = MemStore::new();
    let name = "dup".to_string();
    store.merge_atomic_append(&name, 7);
    store.merge_atomic_append(&name, 7);
    assert_eq!(stored(&store, "dup"), Some(vec![7, 7]));
}

#[test]
fn names_are_independent() {
    let mut store = MemStore::new();
    store.merge_transactional(&"a".to_string(), 1);
    store.merge_transactional(&"b".to_string(), 2);
    store.merge_atomic_append(&"a".to_string(), 3);
    assert_eq!(stored(&store, "a"), Some(vec![1, 3]));
    assert_eq!(stored(&store, "b"), Some(vec![2]));
    assert_eq!(stored(&store, "c"), None);
    assert_eq!(store.len(), 2);
    let mut seen: Vec<String> = Vec::new();
    for i in 0..store.len() {
        let (n, _) = store.entry_at(i);
        seen.push(n.clone());
    }
    seen.sort();
    assert_eq!(seen, vec!["a".to_string(), "b".to_string()]);
}

#[test]
fn transactional_step_decisions() {
    assert_eq!(merge_transactional_step(None, 60), Ok(Some(vec![0, 60])));
    let cur = encode(&vec![60]);
    assert_eq!(merge_transactional_step(Some(&cur), 60), Ok(None));
    assert_eq!(merge_transactional_step(Some(&cur), 131), Ok(Some(encode(&vec![60, 131]))));
    let full = encode(&(0..100i16).collect::<Vec<_>>());
    assert_eq!(merge_transactional_step(Some(&full), 500), Ok(None));
    assert_eq!(merge_transactional_step(Some(&vec![1, 2, 3]), 5), Err(TimelineError::MalformedTimeline));
}

#[test]
fn atomic_step_decisions() {
    assert_eq!(merge_atomic_append_step(None, -1), vec![255, 255]);
    let cur = encode(&vec![4]);
    assert_eq!(merge_atomic_append_step(Some(&cur), 4), encode(&vec![4, 4]));
    let full = vec![0u8; CAPACITY_BYTES];
    assert_eq!(merge_atomic_append_step(Some(&full), 9), full);
}

#[test]
fn transactional_merges_into_existing_timeline_keep_prefix() {
    let mut store = MemStore::new();
    let name = "held".to_string();
    store.merge_transactional(&name, 5);
    store.merge_transactional(&name, 9);
    for x in [9i16, 1, 5, 3] {
        store.merge_transactional(&name, x);
    }
    assert_eq!(stored(&store, "held"), Some(vec![5, 9, 1, 3]));
}

#[test]
fn atomic_appends_add_a_leading_run() {
    let mut store = MemStore::new();
    let name = "run".to_string();
    store.merge_atomic_append(&name, -4);
    let xs: Vec<i16> = (0..120).collect();
    for x in &xs {
        store.merge_atomic_append(&name, *x);
    }
    let got = stored(&store, "run").unwrap();
    assert_eq!(got[0], -4);
    assert_eq!(&got[1..], &xs[..99]);
}
