use tx2pack::{Checkpoint, CheckpointLedger, PackedSnapshot};

#[test]
fn test_ledger_chain_and_prune() {
    let mut ledger = CheckpointLedger::new();
    for i in 0..5 {
        let cp = Checkpoint::new(format!("cp{}", i), PackedSnapshot::new());
        ledger.record(cp);
    }
    assert_eq!(ledger.chain_len(), 5);
    assert_eq!(ledger.latest().unwrap(), "cp4");

    let doomed = ledger.prune_plan(2);
    let doomed: Vec<String> = doomed.into_iter().collect();
    assert_eq!(doomed, vec!["cp0".to_owned(), "cp1".to_owned(), "cp2".to_owned()]);
    for id in &doomed {
        ledger.remove(id);
    }
    assert_eq!(ledger.chain_len(), 2);
    let chain: Vec<String> = ledger.chain_ids().clone();
    assert_eq!(chain, vec!["cp3".to_owned(), "cp4".to_owned()]);
    assert_eq!(ledger.latest().unwrap(), "cp4");
}

#[test]
fn test_ledger_cache_lookup() {
    let mut ledger = CheckpointLedger::new();
    let cp = Checkpoint::new("cp1".to_owned(), PackedSnapshot::new());
    ledger.record(cp);

    let hit = ledger.find_cached("cp1");
    assert!(hit.is_some());
    assert_eq!(hit.unwrap().id, "cp1");
    assert!(ledger.find_cached("cp9").is_none());
}

#[test]
fn test_ledger_clear() {
    let mut ledger = CheckpointLedger::new();
    for i in 0..5 {
        ledger.record(Checkpoint::new(format!("cp{}", i), PackedSnapshot::new()));
    }
    assert_eq!(ledger.chain_len(), 5);
    ledger.clear();
    assert_eq!(ledger.chain_len(), 0);
    assert!(ledger.latest().is_none());
}

#[test]
fn test_checkpoint_parent_link() {
    let cp = Checkpoint::new("b".to_owned(), PackedSnapshot::new()).with_parent("a".to_owned());
    assert_eq!(cp.parent_id.as_deref(), Some("a"));
    assert_eq!(cp.id, "b");
}
