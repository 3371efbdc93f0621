use shiba::config::{
    default_keymaps, FileExtensions, KeyAction, Preview, Search, SearchMatcher, Watch, Window,
    WindowTheme,
};

#[test]
fn default_extensions_are_markdown_ones() {
    let fe = FileExtensions::default();
    let exts: Vec<&[u8]> = fe.as_slice().iter().map(|e| e.as_slice()).collect();
    assert_eq!(exts, vec![b"md".as_slice(), b"mkd".as_slice(), b"markdown".as_slice()]);
}

#[test]
fn matches_recognizes_markdown_paths() {
    let fe = FileExtensions::default();
    assert!(fe.matches(b"README.md"));
    assert!(fe.matches(b"docs/guide.markdown"));
    assert!(fe.matches(b"a/b/c.mkd"));
}

#[test]
fn matches_rejects_other_paths() {
    let fe = FileExtensions::default();
    assert!(!fe.matches(b"notes.txt"));
    assert!(!fe.matches(b"no_extension"));
    assert!(!fe.matches(b"dir.md/file"));
    assert!(!fe.matches(b"trailing.dot."));
    assert!(!fe.matches(b""));
}

#[test]
fn matches_ignores_leading_dot_of_hidden_files() {
    let fe = FileExtensions::default();
    assert!(!fe.matches(b".md"));
    assert!(!fe.matches(b"dir/.md"));
    assert!(fe.matches(b"dir/.hidden.md"));
}

#[test]
fn watch_defaults() {
    let w = Watch::default();
    assert_eq!(w.debounce_throttle(), 50);
    assert_eq!(w.file_extensions().as_slice().len(), 3);
}

#[test]
fn search_and_window_defaults() {
    assert!(matches!(Search::default().matcher, SearchMatcher::SmartCase));
    let w = Window::default();
    assert!(!w.restore);
    assert!(matches!(w.theme, WindowTheme::System));
}

#[test]
fn preview_default_highlight_themes() {
    let p = Preview::default();
    assert_eq!(p.highlight().dark.as_str(), "GitHub Dark");
    assert_eq!(p.highlight().light.as_str(), "GitHub");
}

#[test]
fn default_keymaps_hold_stock_bindings() {
    let maps = default_keymaps();
    assert_eq!(maps.len(), 22);
    assert_eq!(maps[0], ("j".to_string(), KeyAction::ScrollDown));
    assert_eq!(maps[4], ("ctrl+b".to_string(), KeyAction::Back));
    assert_eq!(maps[7], ("g g".to_string(), KeyAction::ScrollTop));
    assert_eq!(maps[21], ("ctrl+k".to_string(), KeyAction::PrevSection));
}
