use housekeeper::{select_candidates, ScanEntry};

fn entry(path: &str, is_dir: bool) -> ScanEntry {
    ScanEntry { path: String::from(path), is_dir }
}

#[test]
fn subdirectories_are_skipped() {
    let entries = vec![entry("dotfiles/vimrc", false), entry("dotfiles/scripts", true)];
    let candidates = select_candidates(entries);
    assert_eq!(candidates.len(), 1);
    assert_eq!(candidates[0].path, "dotfiles/vimrc");
    assert_eq!(candidates[0].dotname(), ".vimrc");
}

#[test]
fn an_empty_listing_gives_no_candidates() {
    let candidates = select_candidates(Vec::new());
    assert!(candidates.is_empty());
}

#[test]
fn listing_order_is_kept() {
    let entries = vec![
        entry("d/a", false),
        entry("d/sub", true),
        entry("d/b", false),
        entry("d/c", false),
    ];
    let candidates = select_candidates(entries);
    let paths: Vec<&str> = candidates.iter().map(|d| d.path.as_str()).collect();
    assert_eq!(paths, ["d/a", "d/b", "d/c"]);
}

#[test]
fn a_listing_of_only_directories_gives_no_candidates() {
    let entries = vec![entry("d/x", true), entry("d/y", true)];
    let candidates = select_candidates(entries);
    assert!(candidates.is_empty());
}
