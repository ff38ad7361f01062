use closm_probe::channel::SendOutcome;
use closm_probe::persistent_cache::{
    fresh_size, history_command, order_history, plan_write, size_command, CacheWriteCommand,
    HistoryRow, PersistentCache, SizeRecord, StoreOp, DEFAULT_SIZE_TTL_SECS, WRITE_QUEUE_CAPACITY,
};

fn p(s: &str) -> String {
    s.to_string()
}

fn size_path(cmd: &CacheWriteCommand) -> (String, u64, u64) {
    match cmd {
        CacheWriteCommand::WriteSize { path, size, timestamp } => (path.clone(), *size, *timestamp),
        CacheWriteCommand::WriteHistory { .. } => panic!("not a size write"),
    }
}

fn shown(op: &StoreOp) -> String {
    match op {
        StoreOp::PutSize { path, size, timestamp } => format!("size {} {} {}", path, size, timestamp),
        StoreOp::RemoveHistory { rank } => format!("remove {}", rank),
        StoreOp::PutHistory { rank, path } => format!("put {} {}", rank, path),
    }
}

#[test]
fn defaults_are_an_hour_and_sixty_four_commands() {
    assert_eq!(DEFAULT_SIZE_TTL_SECS, 3600);
    assert_eq!(WRITE_QUEUE_CAPACITY, 64);
}

#[test]
fn stored_size_is_honored_up_to_the_ttl() {
    let record = Some(SizeRecord { size: 42, timestamp: 1_000 });
    assert_eq!(fresh_size(record, 1_000, 3600), Some(42));
    assert_eq!(fresh_size(record, 4_600, 3600), Some(42));
    assert_eq!(fresh_size(record, 4_601, 3600), None);
    assert_eq!(fresh_size(record, 10, 3600), Some(42));
    assert_eq!(fresh_size(record, 1_000, 0), Some(42));
    assert_eq!(fresh_size(record, 1_001, 0), None);
    assert_eq!(fresh_size(None, 1_000, 3600), None);
}

#[test]
fn get_size_reads_the_wall_clock() {
    let (cache, _receiver) = PersistentCache::new(3600);
    assert_eq!(cache.size_ttl_secs(), 3600);
    let now = std::time::SystemTime::now()
        .duration_since(std::time::UNIX_EPOCH)
        .unwrap()
        .as_secs();
    assert_eq!(cache.get_size(Some(SizeRecord { size: 7, timestamp: now })), Some(7));
    assert_eq!(cache.get_size(Some(SizeRecord { size: 7, timestamp: now - 4000 })), None);
    assert_eq!(cache.get_size(None), None);
}

#[test]
fn size_command_is_stamped() {
    assert_eq!(size_path(&size_command(&p("/a"), 5, Some(99))), (p("/a"), 5, 99));
    assert_eq!(size_path(&size_command(&p("/a"), 5, None)), (p("/a"), 5, 0));
}

#[test]
fn size_write_arrives_on_the_queue() {
    let (cache, receiver) = PersistentCache::new(3600);
    let before = std::time::SystemTime::now()
        .duration_since(std::time::UNIX_EPOCH)
        .unwrap()
        .as_secs();
    cache.write_size(&p("/dir"), 350);
    let (path, size, ts) = size_path(&receiver.try_recv().unwrap());
    assert_eq!(path, "/dir");
    assert_eq!(size, 350);
    assert!(ts >= before && ts <= before + 5);
    assert!(receiver.try_recv().is_err());
}

#[test]
fn history_write_arrives_on_the_queue() {
    let (cache, receiver) = PersistentCache::new(3600);
    cache.write_history(&vec![p("/b"), p("/a")]);
    match receiver.try_recv().unwrap() {
        CacheWriteCommand::WriteHistory { entries } => assert_eq!(entries, vec![p("/b"), p("/a")]),
        _ => panic!("not a history write"),
    }
    match history_command(&Vec::new()) {
        CacheWriteCommand::WriteHistory { entries } => assert!(entries.is_empty()),
        _ => panic!("not a history write"),
    }
}

#[test]
fn full_write_queue_drops_the_newest_write() {
    let (cache, receiver) = PersistentCache::new(3600);
    for i in 0..64 {
        cache.write_size(&format!("/p{}", i), i);
    }
    cache.write_size(&p("/extra"), 999);
    cache.write_history(&vec![p("/h")]);
    let mut seen = Vec::new();
    while let Ok(cmd) = receiver.try_recv() {
        seen.push(size_path(&cmd));
    }
    assert_eq!(seen.len(), 64);
    for (i, (path, size, _)) in seen.iter().enumerate() {
        assert_eq!(path, &format!("/p{}", i));
        assert_eq!(*size, i as u64);
    }
    cache.write_size(&p("/later"), 1);
    assert_eq!(size_path(&receiver.try_recv().unwrap()).0, "/later");
}

#[test]
fn submit_tells_how_the_attempt_ended() {
    let (cache, receiver) = PersistentCache::new(3600);
    for i in 0..64 {
        assert_eq!(cache.submit(size_command(&p("/x"), i, Some(1))), SendOutcome::Sent);
    }
    assert_eq!(cache.submit(size_command(&p("/x"), 64, Some(1))), SendOutcome::Full);
    assert!(receiver.try_recv().is_ok());
    assert_eq!(cache.submit(size_command(&p("/x"), 65, Some(1))), SendOutcome::Sent);
    drop(receiver);
    assert_eq!(cache.submit(size_command(&p("/x"), 66, Some(1))), SendOutcome::Disconnected);
    cache.write_size(&p("/still fine"), 1);
}

#[test]
fn size_write_plans_one_put() {
    let ops = plan_write(&size_command(&p("/a"), 5, Some(9)), &vec![3, 4]);
    let got: Vec<String> = ops.iter().map(shown).collect();
    assert_eq!(got, vec!["size /a 5 9"]);
}

#[test]
fn history_write_plans_removals_then_puts_by_rank() {
    let cmd = history_command(&vec![p("/new"), p("/mid"), p("/old")]);
    let ops = plan_write(&cmd, &vec![0, 1, 2, 3, 7]);
    let got: Vec<String> = ops.iter().map(shown).collect();
    assert_eq!(
        got,
        vec![
            "remove 0", "remove 1", "remove 2", "remove 3", "remove 7", "put 0 /new",
            "put 1 /mid", "put 2 /old",
        ]
    );
    let empty = plan_write(&history_command(&Vec::new()), &vec![5]);
    assert_eq!(empty.iter().map(shown).collect::<Vec<_>>(), vec!["remove 5"]);
}

#[test]
fn planned_history_write_leaves_a_gap_free_table() {
    let mut table: std::collections::BTreeMap<u64, String> = std::collections::BTreeMap::new();
    table.insert(0, p("/x"));
    table.insert(1, p("/y"));
    table.insert(5, p("/z"));
    let stored: Vec<u64> = table.keys().copied().collect();
    for op in plan_write(&history_command(&vec![p("/b"), p("/a")]), &stored) {
        match op {
            StoreOp::RemoveHistory { rank } => {
                table.remove(&rank);
            }
            StoreOp::PutHistory { rank, path } => {
                table.insert(rank, path);
            }
            StoreOp::PutSize { .. } => panic!("no size write was asked for"),
        }
    }
    let rows: Vec<HistoryRow> =
        table.iter().map(|(k, v)| HistoryRow { rank: *k, path: v.clone() }).collect();
    assert_eq!(rows.len(), 2);
    assert_eq!(order_history(&rows), vec![p("/b"), p("/a")]);
}

#[test]
fn history_is_ordered_by_rank() {
    let rows = vec![
        HistoryRow { rank: 2, path: p("/c") },
        HistoryRow { rank: 0, path: p("/a") },
        HistoryRow { rank: 3, path: p("/d") },
        HistoryRow { rank: 1, path: p("/b") },
    ];
    assert_eq!(order_history(&rows), vec![p("/a"), p("/b"), p("/c"), p("/d")]);
    let (cache, _r) = PersistentCache::new(1);
    assert_eq!(cache.load_history(&rows), vec![p("/a"), p("/b"), p("/c"), p("/d")]);
    assert!(order_history(&Vec::new()).is_empty());
}

#[test]
fn rows_of_one_rank_stay_in_their_order() {
    let rows = vec![
        HistoryRow { rank: 1, path: p("/first") },
        HistoryRow { rank: 0, path: p("/zero") },
        HistoryRow { rank: 1, path: p("/second") },
    ];
    assert_eq!(order_history(&rows), vec![p("/zero"), p("/first"), p("/second")]);
}
