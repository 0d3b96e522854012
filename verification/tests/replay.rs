use tx2pack::{Checkpoint, PackedSnapshot, ReplayEngine, TimeTravel};

#[test]
fn test_replay_engine() {
    let mut engine = ReplayEngine::new();

    for i in 0..5 {
        let checkpoint = Checkpoint::new(format!("cp{}", i), PackedSnapshot::new());
        engine.add_checkpoint(checkpoint);
    }

    assert_eq!(engine.len(), 5);
    assert_eq!(engine.get_index(), 0);

    engine.next();
    assert_eq!(engine.get_index(), 1);

    engine.previous();
    assert_eq!(engine.get_index(), 0);

    engine.seek_to_end();
    assert_eq!(engine.get_index(), 4);
    assert!(engine.is_at_end());

    engine.seek_to_start();
    assert_eq!(engine.get_index(), 0);
    assert!(engine.is_at_start());
}

#[test]
fn test_replay_loop() {
    let mut engine = ReplayEngine::new().with_loop(true);

    for i in 0..3 {
        let checkpoint = Checkpoint::new(format!("cp{}", i), PackedSnapshot::new());
        engine.add_checkpoint(checkpoint);
    }

    engine.seek_to_end();
    assert_eq!(engine.get_index(), 2);

    engine.next();
    assert_eq!(engine.get_index(), 0);

    engine.seek_to_start();
    assert_eq!(engine.get_index(), 0);

    engine.previous();
    assert_eq!(engine.get_index(), 2);
}

#[test]
fn test_replay_non_looping_end() {
    let mut engine = ReplayEngine::new();
    for i in 0..3 {
        engine.add_checkpoint(Checkpoint::new(format!("cp{}", i), PackedSnapshot::new()));
    }
    engine.seek_to_end();
    assert_eq!(engine.get_index(), 2);
    assert!(engine.next().is_none());
    assert_eq!(engine.get_index(), 2);
}

#[test]
fn test_replay_seek_out_of_bounds() {
    let mut engine = ReplayEngine::new();
    engine.add_checkpoint(Checkpoint::new("cp0".to_owned(), PackedSnapshot::new()));
    let r = engine.seek(7);
    assert!(matches!(r, Err(tx2pack::PackError::InvalidCheckpoint(_))));
    assert_eq!(engine.get_index(), 0);
}

#[test]
fn test_time_travel() {
    let mut tt = TimeTravel::new();

    for i in 0..10u64 {
        let snapshot = PackedSnapshot::new();
        tt.record(i * 10, snapshot);
    }

    assert_eq!(tt.len(), 10);
    assert_eq!(tt.get_earliest_time(), Some(0));
    assert_eq!(tt.get_latest_time(), Some(90));

    let snapshot = tt.seek_to_time(45);
    assert!(snapshot.is_some());
    assert_eq!(tt.get_current_time(), 50);

    tt.prune_before(30);
    assert_eq!(tt.len(), 7);
    assert_eq!(tt.get_earliest_time(), Some(30));

    tt.prune_after(70);
    assert_eq!(tt.len(), 5);
    assert_eq!(tt.get_latest_time(), Some(70));
}

#[test]
fn test_time_travel_fork() {
    let mut tt = TimeTravel::new();

    for i in 0..5u64 {
        let snapshot = PackedSnapshot::new();
        tt.record(i * 10, snapshot);
    }

    let forked = tt.fork_at_time(20);
    assert!(forked.is_some());
}

#[test]
fn test_time_travel_fork_prune_seek() {
    let mut tt = TimeTravel::new();
    for t in [0u64, 10, 20, 30, 40] {
        tt.record(t, PackedSnapshot::new());
    }
    let original = tt.get_snapshot_at_time(20).unwrap().clone();
    let forked = tt.fork_at_time(20).unwrap();
    assert_eq!(forked, original);

    tt.prune_before(25);
    assert_eq!(tt.len(), 2);
    assert_eq!(tt.get_earliest_time(), Some(30));
    assert_eq!(tt.get_latest_time(), Some(40));

    tt.seek_to_time(35);
    assert_eq!(tt.get_current_time(), 40);
}

#[test]
fn test_time_travel_unordered_insertion() {
    let mut tt = TimeTravel::new();
    for t in [50u64, 10, 40, 20, 30] {
        tt.record(t, PackedSnapshot::new());
    }
    assert_eq!(tt.get_earliest_time(), Some(10));
    assert_eq!(tt.get_latest_time(), Some(50));
    tt.seek_to_time(24);
    assert_eq!(tt.get_current_time(), 20);
}
