use dirview::listing::Entry;
use dirview::nav::{DirPath, Effect, InputKey, NavState};
use dirview::preview::StyledLine;

fn e(name: &str, is_dir: bool) -> Entry {
    Entry { name: name.to_string(), is_dir }
}

fn path(parts: &[&str]) -> DirPath {
    DirPath { parts: parts.iter().map(|p| p.to_string()).collect() }
}

fn names(listing: &[Entry]) -> Vec<String> {
    listing.iter().map(|x| x.name.clone()).collect()
}

fn sample_raw() -> Vec<Entry> {
    vec![e("docs", true), e("a.txt", false), e("b.txt", false)]
}

#[test]
fn new_state_selects_first_and_hides_hidden() {
    let s = NavState::new(path(&["home"]), vec![e(".cfg", false), e("x", false)]);
    assert_eq!(names(&s.listing), vec!["..", "x"]);
    assert_eq!(s.selected, 0);
    assert!(!s.show_hidden);
    assert!(s.preview.is_none());
}

#[test]
fn selection_up_saturates_at_top() {
    let mut s = NavState::new(path(&["home"]), sample_raw());
    assert_eq!(s.selected, 0);
    for _ in 0..5 {
        s.selection_up();
        assert_eq!(s.selected, 0);
    }
}

#[test]
fn selection_down_saturates_at_bottom() {
    let mut s = NavState::new(path(&["home"]), sample_raw());
    let last = s.listing.len() - 1;
    for _ in 0..10 {
        s.selection_down();
        assert!(s.selected <= last);
    }
    assert_eq!(s.selected, last);
    s.selection_down();
    assert_eq!(s.selected, last);
}

#[test]
fn selection_stays_in_bounds_after_transitions() {
    let mut s = NavState::new(path(&["home"]), sample_raw());
    s.selection_down();
    s.selection_down();
    s.toggle_hidden(vec![e("only", false)]);
    assert!(s.selected < s.listing.len());
    s.toggle_hidden(Vec::new());
    assert_eq!(s.listing.len(), 1); // just ".."
    assert!(s.selected < s.listing.len());
}

#[test]
fn activate_parent_entry_goes_up_and_resets_selection() {
    let mut s = NavState::new(path(&["home", "user"]), sample_raw());
    s.selection_down();
    s.selection_up();
    assert_eq!(s.listing[0].name, "..");
    assert_eq!(s.selected, 0);
    let eff = s.handle_key(InputKey::Activate);
    assert!(matches!(eff, Effect::NeedParentList));
    s.enter_parent(vec![e("user", true)]);
    assert_eq!(s.cwd.parts, vec!["home".to_string()]);
    assert_eq!(s.selected, 0);
    assert_eq!(names(&s.listing), vec!["..", "user"]);
}

#[test]
fn activate_directory_requests_its_listing() {
    let mut s = NavState::new(path(&["home"]), sample_raw());
    s.selection_down(); // "docs" (after "..")
    assert_eq!(s.listing[s.selected].name, "docs");
    let eff = s.handle_key(InputKey::Activate);
    match eff {
        Effect::NeedDirList(n) => assert_eq!(n, "docs"),
        _ => panic!("expected a directory descent"),
    }
    s.enter_dir("docs".to_string(), vec![e("inner.txt", false)]);
    assert_eq!(s.cwd.parts, vec!["home".to_string(), "docs".to_string()]);
    assert_eq!(s.selected, 0);
    assert_eq!(names(&s.listing), vec!["..", "inner.txt"]);
}

#[test]
fn activate_file_requests_a_preview() {
    let mut s = NavState::new(path(&["home"]), sample_raw());
    s.selection_down();
    s.selection_down(); // "a.txt"
    assert_eq!(s.listing[s.selected].name, "a.txt");
    let eff = s.handle_key(InputKey::Activate);
    match eff {
        Effect::NeedFileLoad(n) => assert_eq!(n, "a.txt"),
        _ => panic!("expected a file load"),
    }
    s.open_preview("a.txt".to_string(), vec![StyledLine { runs: Vec::new() }], false);
    let p = s.preview.as_ref().unwrap();
    assert_eq!(p.file_name, "a.txt");
    assert_eq!(p.scroll, 0);
    assert!(!p.truncated);
}

#[test]
fn parent_at_root_does_nothing() {
    let mut s = NavState::new(path(&[]), vec![e("x", true)]);
    let eff = s.handle_key(InputKey::Parent);
    assert!(matches!(eff, Effect::Continue));
    let eff = s.handle_key(InputKey::Activate);
    // at the root the listing has no ".." entry, "x" is selected
    assert!(matches!(eff, Effect::NeedDirList(_)));
}

#[test]
fn toggle_hidden_twice_restores_listing_and_selection() {
    let raw = || vec![e(".a", false), e("b", false), e("c", false)];
    let mut s = NavState::new(path(&[]), raw());
    assert_eq!(names(&s.listing), vec!["b", "c"]);
    s.selection_down(); // "c"
    let before_names = names(&s.listing);
    let before_sel = s.selected;
    s.toggle_hidden(raw());
    assert_eq!(names(&s.listing), vec![".a", "b", "c"]);
    s.toggle_hidden(raw());
    assert_eq!(names(&s.listing), before_names);
    assert_eq!(s.selected, before_sel);
    assert_eq!(s.listing[s.selected].name, "c");
}

#[test]
fn cancel_closes_preview_then_quits() {
    let mut s = NavState::new(path(&["home"]), sample_raw());
    s.open_preview("a.txt".to_string(), Vec::new(), false);
    let eff = s.handle_key(InputKey::Cancel);
    assert!(matches!(eff, Effect::Continue));
    assert!(s.preview.is_none());
    let eff = s.handle_key(InputKey::Cancel);
    assert!(matches!(eff, Effect::Exit));
}

#[test]
fn quit_always_exits() {
    let mut s = NavState::new(path(&["home"]), sample_raw());
    let eff = s.handle_key(InputKey::Quit);
    assert!(matches!(eff, Effect::Exit));
}

#[test]
fn vim_keys_move_selection_without_preview_and_scroll_with() {
    let mut s = NavState::new(path(&["home"]), sample_raw());
    s.handle_key(InputKey::VimDown);
    assert_eq!(s.selected, 1);
    s.handle_key(InputKey::VimUp);
    assert_eq!(s.selected, 0);
    s.open_preview("a.txt".to_string(), Vec::new(), false);
    s.handle_key(InputKey::VimDown);
    assert_eq!(s.selected, 0); // selection untouched
    assert_eq!(s.preview.as_ref().unwrap().scroll, 1);
    s.handle_key(InputKey::VimUp);
    assert_eq!(s.preview.as_ref().unwrap().scroll, 0);
    s.handle_key(InputKey::VimUp);
    assert_eq!(s.preview.as_ref().unwrap().scroll, 0); // saturates at zero
}

#[test]
fn toggle_key_requests_relist() {
    let mut s = NavState::new(path(&["home"]), sample_raw());
    let eff = s.handle_key(InputKey::ToggleHidden);
    assert!(matches!(eff, Effect::NeedRelist));
    s.toggle_hidden(vec![e(".hidden", false), e("a.txt", false)]);
    assert!(s.show_hidden);
    assert_eq!(names(&s.listing), vec!["..", ".hidden", "a.txt"]);
}
