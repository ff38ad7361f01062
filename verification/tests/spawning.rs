use closm_probe::cache::FileEntry;
use closm_probe::celestial::FileType;
use closm_probe::formatting::{decimal_string, format_relative_time};
use closm_probe::navigation::CurrentDirectory;
use closm_probe::spawning::{
    handle_respawn_celestials, plan_body, spawn_celestials, DirectoryLookup,
};

fn p(s: &str) -> String {
    s.to_string()
}

fn entry(name: &str, size: u64, is_directory: bool) -> FileEntry {
    FileEntry { name: p(name), path: format!("/root/{}", name), size_bytes: size, modified: 3, is_directory }
}

fn hit(size: u64, children: usize) -> DirectoryLookup {
    DirectoryLookup { cached_size: Some(size), child_count: children }
}

fn miss(children: usize) -> DirectoryLookup {
    DirectoryLookup { cached_size: None, child_count: children }
}

#[test]
fn no_folder_no_scene() {
    let none = CurrentDirectory { path: None };
    assert!(spawn_celestials(&none, &vec![entry("a", 1, false)], 20, &Vec::new()).is_none());
    assert!(handle_respawn_celestials(true, &none, &Vec::new(), 20, &Vec::new()).is_none());
}

#[test]
fn respawn_needs_a_request() {
    let here = CurrentDirectory { path: Some(p("/root")) };
    assert!(handle_respawn_celestials(false, &here, &Vec::new(), 20, &Vec::new()).is_none());
    let scene = handle_respawn_celestials(true, &here, &Vec::new(), 20, &Vec::new()).unwrap();
    assert_eq!(scene.star_name, "root");
    assert_eq!(scene.star_path, "/root");
    assert!(scene.bodies.is_empty());
    assert_eq!(scene.overflow_count, 0);
}

#[test]
fn star_of_the_root_is_named_by_the_root_label() {
    let here = CurrentDirectory { path: Some(p("/")) };
    let scene = spawn_celestials(&here, &Vec::new(), 20, &Vec::new()).unwrap();
    assert_eq!(scene.star_name, "/");
}

#[test]
fn cached_directories_show_their_size_and_others_are_pending() {
    let here = CurrentDirectory { path: Some(p("/root")) };
    let entries = vec![entry("docs", 0, true), entry("src", 0, true), entry("a.txt", 120, false)];
    let lookups = vec![hit(9_000, 4), miss(0), hit(1, 1)];
    let scene = spawn_celestials(&here, &entries, 20, &lookups).unwrap();
    assert_eq!(scene.bodies.len(), 3);
    let docs = &scene.bodies[0];
    assert_eq!((docs.index, docs.size_bytes, docs.pending, docs.grandchildren), (0, 9_000, false, 4));
    assert!(docs.is_directory);
    assert_eq!(docs.path, "/root/docs");
    assert_eq!(docs.modified, 3);
    let src = &scene.bodies[1];
    assert_eq!((src.index, src.size_bytes, src.pending, src.grandchildren), (1, 0, true, 0));
    let file = &scene.bodies[2];
    assert_eq!((file.index, file.size_bytes, file.pending, file.grandchildren), (2, 120, false, 0));
    assert!(!file.is_directory);
    assert_eq!(file.name, "a.txt");
    assert_eq!(scene.pending_calculations, vec![p("/root/src")]);
    assert_eq!(scene.overflow_count, 0);
}

#[test]
fn children_beyond_the_limit_overflow() {
    let here = CurrentDirectory { path: Some(p("/root")) };
    let entries: Vec<FileEntry> = (0..25).map(|i| entry(&format!("d{}", i), 0, true)).collect();
    let scene = spawn_celestials(&here, &entries, 20, &Vec::new()).unwrap();
    assert_eq!(scene.bodies.len(), 20);
    assert_eq!(scene.overflow_count, 5);
    assert_eq!(scene.pending_calculations.len(), 20);
    assert_eq!(scene.pending_calculations[19], "/root/d19");
    let none = spawn_celestials(&here, &entries, 0, &Vec::new()).unwrap();
    assert!(none.bodies.is_empty());
    assert_eq!(none.overflow_count, 25);
    assert!(none.pending_calculations.is_empty());
}

#[test]
fn missing_lookups_count_as_misses() {
    let body = plan_body(&entry("d", 5, true), miss(2), 7);
    assert_eq!((body.index, body.size_bytes, body.pending, body.grandchildren), (7, 5, true, 2));
    let here = CurrentDirectory { path: Some(p("/root")) };
    let scene = spawn_celestials(&here, &vec![entry("a", 0, true), entry("b", 0, true)], 20, &vec![hit(1, 1)])
        .unwrap();
    assert!(!scene.bodies[0].pending);
    assert!(scene.bodies[1].pending);
    assert_eq!(scene.bodies[1].grandchildren, 0);
}

#[test]
fn body_table_pairs_bodies_with_their_identifiers() {
    let here = CurrentDirectory { path: Some(p("/root")) };
    let entries = vec![entry("docs", 0, true), entry("a.txt", 120, false), entry("src", 0, true)];
    let scene = spawn_celestials(&here, &entries, 20, &vec![hit(50, 0)]).unwrap();
    let table = scene.body_table(&vec![100, 101, 102, 103]);
    assert_eq!(table.len(), 3);
    assert_eq!((table[0].entity, table[0].size_bytes, table[0].pending), (100, 50, false));
    assert_eq!((table[1].entity, table[1].is_directory, table[1].pending), (101, false, false));
    assert_eq!((table[2].entity, table[2].path.as_str(), table[2].pending), (102, "/root/src", true));
    assert_eq!(scene.body_table(&vec![1]).len(), 1);
}

#[test]
fn kinds_follow_the_extension_whatever_its_case() {
    let of = |e: &str| FileType::from_extension(Some(&e.to_string()));
    assert_eq!(of("rs"), FileType::Code);
    assert_eq!(of("TSX"), FileType::Code);
    assert_eq!(of("Png"), FileType::Image);
    assert_eq!(of("heic"), FileType::Image);
    assert_eq!(of("m4v"), FileType::Video);
    assert_eq!(of("MD"), FileType::Document);
    assert_eq!(of("sqlite"), FileType::Data);
    assert_eq!(of("7z"), FileType::Archive);
    assert_eq!(of("xyz"), FileType::Document);
    assert_eq!(of(""), FileType::Document);
    assert_eq!(FileType::from_extension(None), FileType::Document);
    assert_eq!(FileType::default(), FileType::Directory);
    assert_eq!(FileType::Code.color(), (0x61, 0xda, 0xfb));
    assert_eq!(FileType::Directory.color(), (255, 255, 255));
    assert_eq!(FileType::Archive.color(), (0x6b, 0x72, 0x80));
}

#[test]
fn relative_times_use_the_largest_unit() {
    assert_eq!(format_relative_time(0), "just now");
    assert_eq!(format_relative_time(59), "just now");
    assert_eq!(format_relative_time(60), "1 min ago");
    assert_eq!(format_relative_time(3_599), "59 min ago");
    assert_eq!(format_relative_time(3_600), "1 hours ago");
    assert_eq!(format_relative_time(86_399), "23 hours ago");
    assert_eq!(format_relative_time(86_400), "1 days ago");
    assert_eq!(format_relative_time(604_800), "1 weeks ago");
    assert_eq!(format_relative_time(2_591_999), "4 weeks ago");
    assert_eq!(format_relative_time(2_592_000), "1 months ago");
    assert_eq!(format_relative_time(31_535_999), "12 months ago");
    assert_eq!(format_relative_time(31_536_000), "1 years ago");
    assert_eq!(format_relative_time(u64::MAX), "584942417355 years ago");
    assert_eq!(decimal_string(0), "0");
    assert_eq!(decimal_string(10), "10");
    assert_eq!(decimal_string(1_024), "1024");
    assert_eq!(decimal_string(u64::MAX), "18446744073709551615");
}
