use closm_probe::channel::SendOutcome;
use closm_probe::persistent_cache::{CacheWriteCommand, PersistentCache};
use closm_probe::size_calculation::{
    apply_size_result, calculate_with_du, calculate_with_spotlight, reported_size,
    spawn_size_calculations, strategy_for, update_celestial_sizes, PendingBody, Platform,
    SizeCalculationChannel, SizeResult, SizeStrategy, SizeUpdate, ToolOutput, DU_UNIT_BYTES,
    RESULT_CHANNEL_CAPACITY,
};

fn p(s: &str) -> String {
    s.to_string()
}

fn body(entity: u64, path: &str, is_directory: bool, pending: bool) -> PendingBody {
    PendingBody { entity, path: p(path), size_bytes: 0, is_directory, pending }
}

#[test]
fn strategy_follows_the_platform() {
    assert_eq!(strategy_for(Platform::MacOs), SizeStrategy::DiskUsage);
    assert_eq!(strategy_for(Platform::Other), SizeStrategy::ParallelWalk);
    assert_eq!(DU_UNIT_BYTES, 1024);
    assert_eq!(RESULT_CHANNEL_CAPACITY, 100);
}

#[test]
fn failed_tools_ask_for_the_traversal() {
    let ok = Some(ToolOutput { success: true, stdout: p("12\t/d\n") });
    let failed = Some(ToolOutput { success: false, stdout: p("12\t/d\n") });
    assert_eq!(calculate_with_du(&ok), Some(12 * 1024));
    assert_eq!(calculate_with_du(&failed), None);
    assert_eq!(calculate_with_du(&None), None);
    let index = Some(ToolOutput { success: true, stdout: p("kMDItemFSSize = 100\nkMDItemFSSize = 250\n") });
    assert_eq!(calculate_with_spotlight(&index), Some(350));
    assert_eq!(calculate_with_spotlight(&None), None);
    let garbage = Some(ToolOutput { success: true, stdout: p("what") });
    assert_eq!(calculate_with_du(&garbage), Some(0));
    assert_eq!(calculate_with_spotlight(&garbage), Some(0));
}

#[test]
fn failed_calculation_reports_zero() {
    assert_eq!(reported_size(Some(5)), 5);
    assert_eq!(reported_size(None), 0);
}

#[test]
fn nothing_to_measure_spawns_nothing() {
    let channel = SizeCalculationChannel::default();
    assert!(spawn_size_calculations(Vec::new(), &channel.sender).is_none());
    let job = spawn_size_calculations(vec![p("/a"), p("/b")], &channel.sender).unwrap();
    assert_eq!(job.paths, vec![p("/a"), p("/b")]);
    assert_eq!(job.report(p("/a"), Some(7)), SendOutcome::Sent);
    assert_eq!(job.report(p("/b"), None), SendOutcome::Sent);
    let first = channel.receiver.try_recv().unwrap();
    assert_eq!((first.path.as_str(), first.size), ("/a", 7));
    let second = channel.receiver.try_recv().unwrap();
    assert_eq!((second.path.as_str(), second.size), ("/b", 0));
}

#[test]
fn full_result_queue_drops_the_newest_result() {
    let channel = SizeCalculationChannel::default();
    let job = spawn_size_calculations(vec![p("/a")], &channel.sender).unwrap();
    for i in 0..100 {
        assert_eq!(job.report(format!("/p{}", i), Some(i)), SendOutcome::Sent);
    }
    assert_eq!(job.report(p("/extra"), Some(1)), SendOutcome::Full);
    let mut bodies = vec![body(1, "/p0", true, true), body(2, "/extra", true, true), body(3, "/p99", true, true)];
    let updates = update_celestial_sizes(&channel, &mut bodies, None);
    assert_eq!(
        updates,
        vec![SizeUpdate { entity: 1, size: 0 }, SizeUpdate { entity: 3, size: 99 }]
    );
    assert!(bodies[1].pending);
    assert!(channel.receiver.try_recv().is_err());
}

#[test]
fn result_goes_to_the_first_pending_directory_of_that_path() {
    let mut bodies = vec![
        body(1, "/a", false, true),
        body(2, "/a", true, false),
        body(3, "/b", true, true),
        body(4, "/a", true, true),
        body(5, "/a", true, true),
    ];
    let update = apply_size_result(&mut bodies, &SizeResult { path: p("/a"), size: 350 });
    assert_eq!(update, Some(SizeUpdate { entity: 4, size: 350 }));
    assert_eq!(bodies[3].size_bytes, 350);
    assert!(!bodies[3].pending);
    assert!(bodies[4].pending);
    assert_eq!(bodies[4].size_bytes, 0);
    assert_eq!(bodies[1].size_bytes, 0);
    let again = apply_size_result(&mut bodies, &SizeResult { path: p("/a"), size: 9 });
    assert_eq!(again, Some(SizeUpdate { entity: 5, size: 9 }));
    let late = apply_size_result(&mut bodies, &SizeResult { path: p("/a"), size: 1 });
    assert_eq!(late, None);
    assert_eq!(bodies[3].size_bytes, 350);
}

#[test]
fn results_for_unknown_paths_are_dropped() {
    let mut bodies = vec![body(1, "/a", true, true)];
    assert_eq!(apply_size_result(&mut bodies, &SizeResult { path: p("/zzz"), size: 1 }), None);
    assert!(bodies[0].pending);
    let mut none: Vec<PendingBody> = Vec::new();
    assert_eq!(apply_size_result(&mut none, &SizeResult { path: p("/a"), size: 1 }), None);
}

#[test]
fn results_are_matched_by_path_whatever_the_order() {
    let channel = SizeCalculationChannel::default();
    let job = spawn_size_calculations(vec![p("/a"), p("/b")], &channel.sender).unwrap();
    job.report(p("/b"), Some(2));
    job.report(p("/gone"), Some(3));
    job.report(p("/a"), Some(1));
    let mut bodies = vec![body(10, "/a", true, true), body(11, "/b", true, true)];
    let updates = update_celestial_sizes(&channel, &mut bodies, None);
    assert_eq!(
        updates,
        vec![SizeUpdate { entity: 11, size: 2 }, SizeUpdate { entity: 10, size: 1 }]
    );
    assert_eq!(bodies[0].size_bytes, 1);
    assert_eq!(bodies[1].size_bytes, 2);
    assert!(update_celestial_sizes(&channel, &mut bodies, None).is_empty());
}

#[test]
fn sizes_that_a_body_took_are_written_back() {
    let (store, writes) = PersistentCache::new(3600);
    let channel = SizeCalculationChannel::default();
    let job = spawn_size_calculations(vec![p("/a")], &channel.sender).unwrap();
    job.report(p("/a"), Some(350));
    job.report(p("/nobody"), Some(1));
    let mut bodies = vec![body(10, "/a", true, true)];
    let updates = update_celestial_sizes(&channel, &mut bodies, Some(&store));
    assert_eq!(updates, vec![SizeUpdate { entity: 10, size: 350 }]);
    match writes.try_recv().unwrap() {
        CacheWriteCommand::WriteSize { path, size, .. } => {
            assert_eq!(path, "/a");
            assert_eq!(size, 350);
        }
        _ => panic!("not a size write"),
    }
    assert!(writes.try_recv().is_err());
}
