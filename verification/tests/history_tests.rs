use shiba::app::{pick_changed_path, title, ChangedPick, History};

fn paths(h: &History) -> Vec<String> {
    h.items.iter().cloned().collect()
}

#[test]
fn history_starts_empty() {
    let h = History::new(20);
    assert!(h.current().is_none());
    assert!(h.next().is_none());
    assert!(h.prev().is_none());
}

#[test]
fn history_push_and_current() {
    let mut h = History::new(20);
    h.push("a.md".to_string());
    h.push("b.md".to_string());
    assert_eq!(h.current().unwrap().as_str(), "b.md");
    assert_eq!(h.prev().unwrap().as_str(), "a.md");
    assert!(h.next().is_none());
}

#[test]
fn history_ignores_repeated_current() {
    let mut h = History::new(20);
    h.push("a.md".to_string());
    h.push("a.md".to_string());
    assert_eq!(paths(&h), vec!["a.md".to_string()]);
}

#[test]
fn history_zero_bound_stores_nothing() {
    let mut h = History::new(0);
    h.push("a.md".to_string());
    assert!(h.current().is_none());
    assert_eq!(paths(&h), Vec::<String>::new());
}

#[test]
fn history_back_and_forward_walk_items() {
    let mut h = History::new(20);
    h.push("a.md".to_string());
    h.push("b.md".to_string());
    h.push("c.md".to_string());
    h.back();
    assert_eq!(h.current().unwrap().as_str(), "b.md");
    h.back();
    assert_eq!(h.current().unwrap().as_str(), "a.md");
    h.back();
    assert_eq!(h.current().unwrap().as_str(), "a.md");
    h.forward();
    assert_eq!(h.current().unwrap().as_str(), "b.md");
    h.forward();
    assert_eq!(h.current().unwrap().as_str(), "c.md");
    h.forward();
    assert_eq!(h.current().unwrap().as_str(), "c.md");
}

#[test]
fn history_push_discards_forward_items() {
    let mut h = History::new(20);
    h.push("a.md".to_string());
    h.push("b.md".to_string());
    h.push("c.md".to_string());
    h.back();
    h.back();
    h.push("d.md".to_string());
    assert_eq!(paths(&h), vec!["a.md".to_string(), "d.md".to_string()]);
    assert_eq!(h.current().unwrap().as_str(), "d.md");
}

#[test]
fn history_evicts_oldest_at_bound() {
    let mut h = History::new(3);
    h.push("a.md".to_string());
    h.push("b.md".to_string());
    h.push("c.md".to_string());
    h.push("d.md".to_string());
    assert_eq!(
        paths(&h),
        vec!["b.md".to_string(), "c.md".to_string(), "d.md".to_string()]
    );
    assert_eq!(h.current().unwrap().as_str(), "d.md");
}

#[test]
fn history_is_current_compares_paths() {
    let mut h = History::new(20);
    h.push("a.md".to_string());
    assert!(h.is_current(&"a.md".to_string()));
    assert!(!h.is_current(&"b.md".to_string()));
}

#[test]
fn title_abbreviates_home_directory() {
    let home = b"/home/user".to_vec();
    assert_eq!(
        title(b"/home/user/notes/a.md", Some(&home)),
        b"Shiba: ~/notes/a.md".to_vec()
    );
    assert_eq!(title(b"/home/user", Some(&home)), b"Shiba: ~/".to_vec());
    assert_eq!(
        title(b"/home/userx/a.md", Some(&home)),
        b"Shiba: /home/userx/a.md".to_vec()
    );
    assert_eq!(title(b"/tmp/a.md", None), b"Shiba: /tmp/a.md".to_vec());
}

#[test]
fn changed_paths_prefer_the_current_file() {
    let a = b"a.md".to_vec();
    let b = b"b.md".to_vec();
    let paths = vec![a.clone(), b.clone()];
    assert!(matches!(pick_changed_path(Some(&b), &paths), ChangedPick::Current));
    let c = b"c.md".to_vec();
    assert!(matches!(pick_changed_path(Some(&c), &paths), ChangedPick::Last));
    assert!(matches!(pick_changed_path(None, &paths), ChangedPick::Last));
    let empty: Vec<Vec<u8>> = Vec::new();
    assert!(matches!(pick_changed_path(Some(&c), &empty), ChangedPick::Nothing));
    assert!(matches!(pick_changed_path(None, &empty), ChangedPick::Nothing));
}
