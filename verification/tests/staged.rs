use ironfoil::staged::StagedFiles;
use ironfoil::tabs::Tab;

fn files(v: &[(&str, u64)]) -> Vec<(String, u64)> {
    v.iter().map(|(p, s)| (p.to_string(), *s)).collect()
}

fn paths(s: &StagedFiles) -> Vec<String> {
    (0..s.count()).map(|i| s.path_at(i).to_string()).collect()
}

#[test]
fn new_list_is_empty() {
    let s = StagedFiles::new();
    assert!(s.is_empty());
    assert_eq!(s.count(), 0);
    assert!(!s.has_any_selected());
    assert_eq!(s.total_file_size(), 0);
    let d = StagedFiles::default();
    assert!(d.is_empty());
}

#[test]
fn extend_adds_selected_files_in_order() {
    let mut s = StagedFiles::new();
    s.extend_unique(files(&[("a.nsp", 10), ("b.xci", 20)]));
    assert_eq!(s.count(), 2);
    assert!(!s.is_empty());
    assert_eq!(paths(&s), vec!["a.nsp", "b.xci"]);
    assert_eq!(s.file_size_at(1), 20);
    assert!(s.is_selected_at(0) && s.is_selected_at(1));
    assert_eq!(s.total_file_size(), 30);
}

#[test]
fn extend_skips_paths_already_staged() {
    let mut s = StagedFiles::new();
    s.extend_unique(files(&[("a.nsp", 10)]));
    s.extend_unique(files(&[("a.nsp", 99), ("c.nsz", 5), ("c.nsz", 7)]));
    assert_eq!(paths(&s), vec!["a.nsp", "c.nsz"]);
    assert_eq!(s.file_size_at(0), 10);
    assert_eq!(s.file_size_at(1), 5);
    assert_eq!(s.total_file_size(), 15);
}

#[test]
fn paths_compare_as_paths() {
    let mut s = StagedFiles::new();
    s.extend_unique(files(&[("dir/a.nsp", 1)]));
    assert!(s.contains("dir/a.nsp"));
    assert!(s.contains("dir//a.nsp"));
    assert!(s.contains("dir/./a.nsp"));
    assert!(!s.contains("dir/b.nsp"));
    assert!(!s.contains("a.nsp"));
    s.extend_unique(files(&[("dir//a.nsp", 2)]));
    assert_eq!(s.count(), 1);
}

#[test]
fn selection_changes() {
    let mut s = StagedFiles::new();
    s.extend_unique(files(&[("a.nsp", 1), ("b.nsp", 2), ("c.nsp", 4)]));
    assert!(s.has_any_selected());
    s.deselect_all();
    assert!(!s.has_any_selected());
    assert_eq!(s.selected_count(), 0);
    s.set_selected(1, true);
    assert!(s.has_any_selected());
    assert_eq!(s.selected_paths(), vec!["b.nsp".to_string()]);
    s.select_all();
    assert_eq!(s.selected_count(), 3);
    assert_eq!(s.selected_size(), 7);
    assert_eq!(paths(&s), vec!["a.nsp", "b.nsp", "c.nsp"]);
}

#[test]
fn remove_selected_keeps_the_rest() {
    let mut s = StagedFiles::new();
    s.extend_unique(files(&[("a.nsp", 1), ("b.nsp", 2), ("c.nsp", 4)]));
    s.set_selected(1, false);
    s.remove_selected();
    assert_eq!(paths(&s), vec!["b.nsp"]);
    assert_eq!(s.total_file_size(), 2);
    assert!(!s.has_any_selected());
    s.select_all();
    s.remove_selected();
    assert!(s.is_empty());
    assert_eq!(s.total_file_size(), 0);
}

#[test]
fn selected_sizes_and_labels() {
    let mut s = StagedFiles::new();
    s.extend_unique(files(&[("a.nsp", 1024), ("b.nsp", 512), ("c.nsp", 1_073_741_824)]));
    s.set_selected(2, false);
    assert_eq!(s.selected_size(), 1536);
    assert_eq!(s.selected_size_label(), "1.50 KiB");
    assert_eq!(s.file_size_label_at(0), "1 KiB");
    assert_eq!(s.file_size_label_at(1), "512 B");
    assert_eq!(s.file_size_label_at(2), "1 GiB");
    assert_eq!(s.selected_paths(), vec!["a.nsp".to_string(), "b.nsp".to_string()]);
}

#[test]
fn try_extend_refuses_an_overflowing_total() {
    let mut s = StagedFiles::new();
    assert!(s.try_extend_unique(files(&[("a.nsp", u64::MAX - 1)])));
    assert!(!s.try_extend_unique(files(&[("b.nsp", 1), ("c.nsp", 1)])));
    assert_eq!(paths(&s), vec!["a.nsp"]);
    assert_eq!(s.total_file_size(), u64::MAX - 1);
    // A path staged already adds nothing, whatever its size.
    assert!(s.try_extend_unique(files(&[("a.nsp", u64::MAX), ("b.nsp", 1)])));
    assert_eq!(paths(&s), vec!["a.nsp", "b.nsp"]);
    assert_eq!(s.total_file_size(), u64::MAX);
}

#[test]
fn tab_labels() {
    assert_eq!(Tab::Home.as_str(), "🏠 Home");
    let usb = Tab::Usb { recurse: false, for_sphaira: false, staged_files: StagedFiles::new() };
    assert_eq!(usb.as_str(), "🔌 USB");
    assert_eq!(Tab::Network.as_str(), "🌐 Network");
    assert_eq!(Tab::Rcm.as_str(), "📎 RCM");
    assert_eq!(Tab::Log.as_str(), "📜 Log");
}

#[test]
fn unstaged_paths_are_the_new_first_occurrences() {
    let mut s = StagedFiles::new();
    s.extend_unique(files(&[("dir/a.nsp", 1)]));
    let asked = vec![
        "dir//a.nsp".to_string(),
        "b.nsp".to_string(),
        "c.xci".to_string(),
        "b.nsp/".to_string(),
        "b.nsp".to_string(),
    ];
    let fresh = s.unstaged_paths(&asked);
    assert_eq!(fresh, vec!["b.nsp".to_string(), "c.xci".to_string()]);
    let sized: Vec<(String, u64)> = fresh.into_iter().zip([2u64, 3]).collect();
    s.extend_unique(sized);
    assert_eq!(paths(&s), vec!["dir/a.nsp", "b.nsp", "c.xci"]);
    assert_eq!(s.total_file_size(), 6);
    assert!(s.unstaged_paths(&asked).is_empty());
}

#[test]
fn staging_twice_is_staging_once() {
    let list = files(&[("a.nsp", 1), ("b.nsp", 2), ("a.nsp", 3)]);
    let mut s = StagedFiles::new();
    s.extend_unique(list.clone());
    let once = paths(&s);
    let asked: Vec<String> = list.iter().map(|(p, _)| p.clone()).collect();
    assert!(s.unstaged_paths(&asked).is_empty());
    s.extend_unique(list);
    assert_eq!(paths(&s), once);
    assert_eq!(s.total_file_size(), 3);
}
