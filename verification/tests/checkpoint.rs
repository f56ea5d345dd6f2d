use caduceus::checkpoint::{BatchState, CheckpointError, CheckpointId, CheckpointStore};
use caduceus::events::AgentEvent;
use caduceus::harness::AgentHarness;

#[test]
fn full_lifecycle_records_and_reverts() {
    let mut store = CheckpointStore::default();
    let id = store.begin_batch(1, "edit_file", 1000);
    store
        .record_edit(id, "/a.rs", Some("before-a".into()))
        .unwrap();
    store.record_edit(id, "/b.rs", None).unwrap();
    let cp = store.commit(id).unwrap();
    assert_eq!(cp.state, BatchState::Committed);
    assert_eq!(cp.edits.len(), 2);

    let snaps = store.revert(id).unwrap();
    assert_eq!(snaps.len(), 2);
    assert_eq!(snaps[0].path, "/a.rs");
    assert_eq!(snaps[0].before.as_deref(), Some("before-a"));
    assert_eq!(snaps[1].before, None);
    assert_eq!(store.get(id).unwrap().state, BatchState::Reverted);
}

#[test]
fn checkpoint_capacity_evicts_oldest() {
    let mut store = CheckpointStore::with_capacity(3);
    let ids: Vec<_> = (0..5)
        .map(|i| store.begin_batch(i, "tool", i as u64))
        .collect();
    assert_eq!(store.len(), 3);
    // First two should be evicted.
    assert!(store.get(ids[0]).is_none());
    assert!(store.get(ids[1]).is_none());
    assert!(store.get(ids[4]).is_some());
}

#[test]
fn revert_unknown_fails_closed() {
    let mut store = CheckpointStore::default();
    let bogus = CheckpointId(9999);
    assert!(matches!(
        store.revert(bogus),
        Err(CheckpointError::Unknown(_))
    ));
}

#[test]
fn revert_open_batch_rejected() {
    let mut store = CheckpointStore::default();
    let id = store.begin_batch(1, "t", 0);
    assert!(matches!(
        store.revert(id),
        Err(CheckpointError::StillOpen(_))
    ));
}

#[test]
fn double_revert_rejected_not_silent() {
    let mut store = CheckpointStore::default();
    let id = store.begin_batch(1, "t", 0);
    store.commit(id).unwrap();
    store.revert(id).unwrap();
    assert!(matches!(
        store.revert(id),
        Err(CheckpointError::AlreadyReverted(_))
    ));
}

#[test]
fn cannot_record_after_commit() {
    let mut store = CheckpointStore::default();
    let id = store.begin_batch(1, "t", 0);
    store.commit(id).unwrap();
    assert!(matches!(
        store.record_edit(id, "/x", None),
        Err(CheckpointError::AlreadyCommitted(_))
    ));
}

#[test]
fn list_is_newest_first() {
    let mut store = CheckpointStore::default();
    let a = store.begin_batch(1, "a", 1);
    let b = store.begin_batch(2, "b", 2);
    let c = store.begin_batch(3, "c", 3);
    let listed: Vec<_> = store.list().iter().map(|cp| cp.id).collect();
    assert_eq!(listed, vec![c, b, a]);
}

#[test]
fn empty_batch_is_still_audit_trail() {
    let mut store = CheckpointStore::default();
    let id = store.begin_batch(7, "noop_tool", 42);
    let cp = store.commit(id).unwrap();
    assert!(cp.edits.is_empty());
    assert_eq!(cp.tool_summary, "noop_tool");
    assert_eq!(cp.turn_index, 7);
}

#[test]
fn ids_never_reused_even_after_eviction() {
    let mut store = CheckpointStore::with_capacity(2);
    let id1 = store.begin_batch(1, "t", 0);
    let _id2 = store.begin_batch(2, "t", 0);
    let _id3 = store.begin_batch(3, "t", 0); // evicts id1
    assert!(store.get(id1).is_none());
    let id4 = store.begin_batch(4, "t", 0);
    assert_ne!(id4, id1);
    assert!(id4.raw() > id1.raw());
}

#[test]
fn errors_have_words() {
    let id = CheckpointId(7);
    let text = CheckpointError::Unknown(id).message();
    assert!(text.contains('7'), "{text}");
    assert_ne!(CheckpointError::StillOpen(id).message(), text);
    assert_ne!(CheckpointError::AlreadyReverted(id).message(), text);
    assert_ne!(CheckpointError::AlreadyCommitted(id).message(), text);
}

#[test]
fn a_full_store_drops_the_oldest() {
    let mut store = CheckpointStore::with_capacity(0);
    assert_eq!(store.capacity(), 1);
    let a = store.begin_batch(1, "a", 1);
    let b = store.begin_batch(2, "b", 2);
    assert!(store.get(a).is_none());
    assert_eq!(store.get(b).unwrap().tool_summary, "b");
    assert!(!store.is_empty());
}

#[test]
fn harness_reverts_and_tells() {
    let mut harness = AgentHarness::new(1000, "p");
    let (result, told) = harness.revert_checkpoint(CheckpointId(1));
    assert!(matches!(result, Err(CheckpointError::Unknown(_))));
    assert!(matches!(told, AgentEvent::CheckpointReverted { ok: false, .. }));
    let mut store = CheckpointStore::default();
    let id = store.begin_batch(1, "t", 0);
    store.record_edit(id, "/a", Some("old".into())).unwrap();
    store.commit(id).unwrap();
    let mut harness = harness.with_checkpoint_store(store);
    let (result, told) = harness.revert_checkpoint(id);
    assert_eq!(result.unwrap()[0].before.as_deref(), Some("old"));
    assert!(matches!(told, AgentEvent::CheckpointReverted { ok: true, files: 1, .. }));
    assert!(matches!(harness.revert_checkpoint(id).0, Err(CheckpointError::AlreadyReverted(_))));
}

#[test]
fn edits_of_batches_do_not_mix() {
    let mut store = CheckpointStore::with_capacity(3);
    let a = store.begin_batch(1, "a", 0);
    store.record_edit(a, "/1", Some("one".into())).unwrap();
    let b = store.begin_batch(2, "b", 0);
    store.record_edit(b, "/x", None).unwrap();
    store.record_edit(a, "/2", None).unwrap();
    assert!(matches!(store.revert(a), Err(CheckpointError::StillOpen(id)) if id == a));
    store.commit(a).unwrap();
    assert!(store.record_edit(a, "/3", None).is_err());
    store.commit(b).unwrap();
    store.revert(b).unwrap();
    let files = store.revert(a).unwrap();
    let shown: Vec<_> = files.iter().map(|f| (f.path.as_str(), f.before.as_deref())).collect();
    assert_eq!(shown, vec![("/1", Some("one")), ("/2", None)]);
    assert_eq!(store.get(a).unwrap().state, BatchState::Reverted);
    assert_eq!(store.get(a).unwrap().edits, files);
    assert!(matches!(store.revert(a), Err(CheckpointError::AlreadyReverted(id)) if id == a));
}
