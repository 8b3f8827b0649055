use dirview::listing::{build_listing, Entry};

fn e(name: &str, is_dir: bool) -> Entry {
    Entry { name: name.to_string(), is_dir }
}

fn names(listing: &[Entry]) -> Vec<String> {
    listing.iter().map(|x| x.name.clone()).collect()
}

#[test]
fn parent_dirs_then_files_dotfile_hidden() {
    let raw = vec![e("b.txt", false), e("A", true), e(".git", true)];
    let listing = build_listing(raw, true, false);
    assert_eq!(names(&listing), vec!["..", "A", "b.txt"]);
    assert!(listing[0].is_dir);
    assert!(listing[1].is_dir);
    assert!(!listing[2].is_dir);
}

#[test]
fn hidden_entries_appear_when_shown() {
    let raw = vec![e("b.txt", false), e("A", true), e(".git", true)];
    let listing = build_listing(raw, true, true);
    assert_eq!(names(&listing), vec!["..", ".git", "A", "b.txt"]);
}

#[test]
fn sort_is_case_insensitive() {
    let raw = vec![e("B.txt", false), e("a.txt", false)];
    let listing = build_listing(raw, false, false);
    assert_eq!(names(&listing), vec!["a.txt", "B.txt"]);
}

#[test]
fn sort_is_stable_for_equal_keys() {
    let raw = vec![e("A", false), e("a", false)];
    let listing = build_listing(raw, false, false);
    assert_eq!(names(&listing), vec!["A", "a"]);
}

#[test]
fn no_parent_entry_at_root() {
    let raw = vec![e("x", true)];
    let listing = build_listing(raw, false, false);
    assert_eq!(names(&listing), vec!["x"]);
}

#[test]
fn empty_directory_with_parent() {
    let listing = build_listing(Vec::new(), true, false);
    assert_eq!(names(&listing), vec![".."]);
}

#[test]
fn empty_directory_without_parent() {
    let listing = build_listing(Vec::new(), false, false);
    assert!(listing.is_empty());
}

#[test]
fn dirs_sorted_before_files_independently() {
    let raw = vec![
        e("zeta", true),
        e("Alpha", true),
        e("omega.txt", false),
        e("Beta.txt", false),
    ];
    let listing = build_listing(raw, false, false);
    assert_eq!(names(&listing), vec!["Alpha", "zeta", "Beta.txt", "omega.txt"]);
}
