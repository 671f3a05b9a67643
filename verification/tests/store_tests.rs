use vael_core::embedding::{Embedding, EMBED_DIM};
use vael_core::record::WorkoutRecord;
use vael_core::store::{RecordStore, UpsertOutcome};

fn emb(seed: i64) -> Embedding {
    let mut v = vec![0i64; EMBED_DIM];
    v[0] = seed;
    Embedding::new(v).expect("in-range coordinates")
}

fn rec(id: u128, created_at: i64, volume_kg: Option<u64>, name: &str) -> WorkoutRecord {
    WorkoutRecord {
        id,
        owner_id: 7,
        name: name.to_string(),
        status: "completed".to_string(),
        start_time: 1_700_000_000,
        end_time: None,
        volume_kg,
        created_at,
        last_modified: created_at,
        embedding: None,
    }
}

#[test]
fn newer_created_at_wins_in_arrival_order() {
    // Two submissions sharing one id: the later-stamped one must survive.
    let mut store = RecordStore::new();
    let out1 = store.upsert_batch(&vec![rec(1, 100, Some(50), "Squats")]);
    assert_eq!(out1, vec![UpsertOutcome::Applied]);
    let out2 = store.upsert_batch(&vec![rec(1, 200, Some(80), "Squats")]);
    assert_eq!(out2, vec![UpsertOutcome::Applied]);
    let stored = store.get(1).expect("record stored");
    assert_eq!(stored.volume_kg, Some(80));
    assert_eq!(stored.created_at, 200);
}

#[test]
fn newer_created_at_wins_in_reverse_order() {
    // Same two submissions, reversed arrival: the same record survives.
    let mut store = RecordStore::new();
    let out1 = store.upsert_batch(&vec![rec(1, 200, Some(80), "Squats")]);
    assert_eq!(out1, vec![UpsertOutcome::Applied]);
    let out2 = store.upsert_batch(&vec![rec(1, 100, Some(50), "Squats")]);
    assert_eq!(out2, vec![UpsertOutcome::SkippedConflict]);
    let stored = store.get(1).expect("record stored");
    assert_eq!(stored.volume_kg, Some(80));
    assert_eq!(stored.created_at, 200);
}

#[test]
fn reapplying_a_batch_changes_nothing() {
    let batch = vec![
        rec(1, 100, Some(50), "Squats"),
        rec(2, 150, None, "Run"),
        rec(1, 120, Some(60), "Squats"),
    ];
    let mut store = RecordStore::new();
    store.upsert_batch(&batch);
    let volume_first = store.get(1).unwrap().volume_kg;
    let created_first = store.get(1).unwrap().created_at;
    let out = store.upsert_batch(&batch);
    assert_eq!(
        out,
        vec![
            UpsertOutcome::SkippedConflict,
            UpsertOutcome::SkippedConflict,
            UpsertOutcome::SkippedConflict,
        ]
    );
    assert_eq!(store.get(1).unwrap().volume_kg, volume_first);
    assert_eq!(store.get(1).unwrap().created_at, created_first);
    assert_eq!(store.get(1).unwrap().volume_kg, Some(60));
    assert_eq!(store.get(2).unwrap().created_at, 150);
}

#[test]
fn equal_created_at_never_overwrites() {
    let mut store = RecordStore::new();
    store.upsert_batch(&vec![rec(1, 100, Some(50), "Squats")]);
    let out = store.upsert_batch(&vec![rec(1, 100, Some(999), "Renamed")]);
    assert_eq!(out, vec![UpsertOutcome::SkippedConflict]);
    let stored = store.get(1).unwrap();
    assert_eq!(stored.name, "Squats");
    assert_eq!(stored.volume_kg, Some(50));
}

#[test]
fn nearest_on_empty_store_is_empty() {
    let store = RecordStore::new();
    let out = store.nearest(&emb(0), 3);
    assert!(out.is_empty());
}

#[test]
fn nearest_ignores_records_without_embeddings() {
    let mut store = RecordStore::new();
    store.upsert_batch(&vec![rec(1, 100, Some(50), "Squats")]);
    let out = store.nearest(&emb(0), 3);
    assert!(out.is_empty());
}

#[test]
fn nearest_orders_by_distance_and_caps_at_k() {
    let mut store = RecordStore::new();
    let mut far = rec(1, 100, Some(10), "Far");
    far.embedding = Some(emb(10));
    let mut mid = rec(2, 100, Some(20), "Mid");
    mid.embedding = Some(emb(5));
    let mut near = rec(3, 100, Some(30), "Near");
    near.embedding = Some(emb(1));
    store.upsert_batch(&vec![far, mid, near]);

    let all = store.nearest(&emb(0), 3);
    let names: Vec<&str> = all.iter().map(|r| r.name.as_str()).collect();
    assert_eq!(names, vec!["Near", "Mid", "Far"]);

    let two = store.nearest(&emb(0), 2);
    let names: Vec<&str> = two.iter().map(|r| r.name.as_str()).collect();
    assert_eq!(names, vec!["Near", "Mid"]);

    let none = store.nearest(&emb(0), 0);
    assert!(none.is_empty());
}

#[test]
fn upsert_replaces_every_field_including_embedding() {
    let mut store = RecordStore::new();
    let mut old = rec(1, 100, Some(50), "Old");
    old.embedding = Some(emb(4));
    store.upsert_batch(&vec![old]);
    // The winning record carries no embedding: the stored one must be gone.
    let newer = rec(1, 200, None, "New");
    store.upsert_batch(&vec![newer]);
    let stored = store.get(1).unwrap();
    assert_eq!(stored.name, "New");
    assert_eq!(stored.volume_kg, None);
    assert!(stored.embedding.is_none());
    assert!(store.nearest(&emb(0), 3).is_empty());
}
