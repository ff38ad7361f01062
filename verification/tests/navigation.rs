use closm_probe::navigation::{
    ancestors_of, name_or_root, Ancestor, Breadcrumb, CurrentDirectory, NavigationHistory,
    DEFAULT_HISTORY_ENTRIES,
};

fn p(s: &str) -> String {
    s.to_string()
}

fn pairs(crumb: &Breadcrumb) -> Vec<(String, String)> {
    crumb.segments.iter().map(|s| (s.name.clone(), s.path.clone())).collect()
}

#[test]
fn breadcrumb_of_nested_path_is_root_first() {
    let crumb = Breadcrumb::from_path(&p("/a/b/c"));
    assert_eq!(
        pairs(&crumb),
        vec![
            (p("/"), p("/")),
            (p("a"), p("/a")),
            (p("b"), p("/a/b")),
            (p("c"), p("/a/b/c")),
        ]
    );
}

#[test]
fn breadcrumb_of_root_is_one_root_segment() {
    let crumb = Breadcrumb::from_path(&p("/"));
    assert_eq!(pairs(&crumb), vec![(p("/"), p("/"))]);
}

#[test]
fn breadcrumb_of_relative_path_stops_before_the_empty_parent() {
    let crumb = Breadcrumb::from_path(&p("a/b"));
    assert_eq!(pairs(&crumb), vec![(p("a"), p("a")), (p("b"), p("a/b"))]);
    let single = Breadcrumb::from_path(&p("a"));
    assert_eq!(pairs(&single), vec![(p("a"), p("a"))]);
}

#[test]
fn ancestors_start_at_the_path_and_end_at_the_root() {
    let chain = ancestors_of(&p("/x/y"));
    let got: Vec<(String, Option<String>)> =
        chain.iter().map(|a| (a.path.clone(), a.file_name.clone())).collect();
    assert_eq!(
        got,
        vec![(p("/x/y"), Some(p("y"))), (p("/x"), Some(p("x"))), (p("/"), None)]
    );
}

#[test]
fn breadcrumb_from_given_ancestors_reverses_and_labels() {
    let chain = vec![
        Ancestor { path: p("C:/u"), file_name: Some(p("u")) },
        Ancestor { path: p("C:/"), file_name: None },
    ];
    let crumb = Breadcrumb::from_ancestors(&chain);
    assert_eq!(pairs(&crumb), vec![(p("/"), p("C:/")), (p("u"), p("C:/u"))]);
    assert!(Breadcrumb::from_ancestors(&Vec::new()).segments.is_empty());
}

#[test]
fn root_label_is_a_slash() {
    assert_eq!(name_or_root(&None), "/");
    assert_eq!(name_or_root(&Some(p("docs"))), "docs");
}

#[test]
fn defaults_are_empty() {
    assert!(CurrentDirectory::default().path.is_none());
    assert!(Breadcrumb::default().segments.is_empty());
    let h = NavigationHistory::default();
    assert_eq!(DEFAULT_HISTORY_ENTRIES, 10);
    assert_eq!(h.max_entries, 10);
    assert!(h.entries.is_empty() && h.back.is_empty() && h.forward.is_empty());
}

#[test]
fn back_returns_the_last_pushed_and_forward_returns_where_back_came_from() {
    let mut h = NavigationHistory::default();
    h.push(p("/A"));
    h.push(p("/B"));
    assert_eq!(h.go_back(p("/B")), Some(p("/B")));
    assert_eq!(h.forward, vec![p("/B")]);
    assert_eq!(h.back, vec![p("/A")]);
    assert_eq!(h.go_forward(p("/A")), Some(p("/B")));
    assert_eq!(h.back, vec![p("/A"), p("/A")]);
    assert!(h.forward.is_empty());
}

#[test]
fn back_from_a_third_place_walks_the_pushed_paths() {
    let mut h = NavigationHistory::default();
    h.push(p("/A"));
    h.push(p("/B"));
    assert_eq!(h.go_back(p("/C")), Some(p("/B")));
    assert_eq!(h.go_back(p("/B")), Some(p("/A")));
    assert_eq!(h.go_back(p("/A")), None);
    assert_eq!(h.forward, vec![p("/C"), p("/B")]);
    assert_eq!(h.go_forward(p("/A")), Some(p("/B")));
    assert_eq!(h.go_forward(p("/B")), Some(p("/C")));
    assert_eq!(h.go_forward(p("/C")), None);
}

#[test]
fn push_after_back_clears_forward() {
    let mut h = NavigationHistory::default();
    h.push(p("/A"));
    h.push(p("/B"));
    assert!(h.go_back(p("/B")).is_some());
    assert!(!h.forward.is_empty());
    h.push(p("/C"));
    assert!(h.forward.is_empty());
    assert_eq!(h.go_forward(p("/C")), None);
    assert_eq!(h.back, vec![p("/A"), p("/C")]);
}

#[test]
fn steps_on_empty_stacks_change_nothing() {
    let mut h = NavigationHistory::default();
    assert_eq!(h.go_back(p("/X")), None);
    assert_eq!(h.go_forward(p("/X")), None);
    assert!(h.back.is_empty() && h.forward.is_empty() && h.entries.is_empty());
}

#[test]
fn revisited_path_moves_to_the_front() {
    let mut h = NavigationHistory::default();
    h.push(p("/A"));
    h.push(p("/B"));
    h.push(p("/A"));
    assert_eq!(h.entries, vec![p("/A"), p("/B")]);
    assert_eq!(h.back, vec![p("/A"), p("/B"), p("/A")]);
}

#[test]
fn entries_are_newest_first_and_bounded() {
    let mut h = NavigationHistory::with_max_entries(3);
    for name in ["/1", "/2", "/3", "/4", "/5"] {
        h.push(p(name));
    }
    assert_eq!(h.entries, vec![p("/5"), p("/4"), p("/3")]);
    assert_eq!(h.back.len(), 5);
    let mut none = NavigationHistory::with_max_entries(0);
    none.push(p("/1"));
    assert!(none.entries.is_empty());
    assert_eq!(none.back, vec![p("/1")]);
}

#[test]
fn persisted_folders_are_merged_behind_the_listed_ones() {
    let mut h = NavigationHistory::with_max_entries(4);
    h.push(p("/now"));
    let stored = vec![p("/old1"), p("/gone"), p("/now"), p("/old2"), p("/old1"), p("/old3")];
    let exists = vec![true, false, true, true, true, true];
    h.merge_persisted(&stored, &exists);
    assert_eq!(h.entries, vec![p("/now"), p("/old1"), p("/old2"), p("/old3")]);
    assert_eq!(h.back, vec![p("/now")]);
}

#[test]
fn persisted_folders_without_a_flag_do_not_count() {
    let mut h = NavigationHistory::default();
    h.merge_persisted(&vec![p("/a"), p("/b"), p("/c")], &vec![true]);
    assert_eq!(h.entries, vec![p("/a")]);
    let mut cut = NavigationHistory::with_max_entries(2);
    cut.merge_persisted(&vec![p("/a"), p("/b"), p("/c")], &vec![true, true, true]);
    assert_eq!(cut.entries, vec![p("/a"), p("/b")]);
}
