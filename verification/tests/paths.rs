use ironfoil::paths::{
    is_game_backup, is_game_backup_extension, is_nsp_file, select_game_paths, select_nsp_paths,
    walk_max_depth,
    GamePathsError, PathKind, GAME_BACKUP_EXTENSIONS, RCM_PAYLOAD_EXTENSIONS,
};

fn strings(v: &[&str]) -> Vec<String> {
    v.iter().map(|s| s.to_string()).collect()
}

fn listing(v: &[(&str, bool)]) -> Vec<(String, bool)> {
    v.iter().map(|(s, f)| (s.to_string(), *f)).collect()
}

#[test]
fn extensions_lists() {
    assert_eq!(GAME_BACKUP_EXTENSIONS, ["nsp", "xci", "nsz"]);
    assert_eq!(RCM_PAYLOAD_EXTENSIONS, ["bin"]);
}

#[test]
fn game_backup_extensions_are_recognised() {
    assert!(is_game_backup_extension("nsp"));
    assert!(is_game_backup_extension("xci"));
    assert!(is_game_backup_extension("nsz"));
    assert!(!is_game_backup_extension("NSP"));
    assert!(!is_game_backup_extension("bin"));
    assert!(!is_game_backup_extension(""));
    assert!(!is_game_backup_extension("nspx"));
}

#[test]
fn game_backups_by_extension() {
    assert!(is_game_backup("games/zelda.nsp"));
    assert!(is_game_backup("/abs/mario.xci"));
    assert!(is_game_backup("compressed.nsz"));
    assert!(is_game_backup("archive.tar.nsp"));
    assert!(!is_game_backup("games/zelda.NSP"));
    assert!(!is_game_backup("payload.bin"));
    assert!(!is_game_backup("games/noextension"));
    assert!(!is_game_backup(".nsp"));
    assert!(!is_game_backup("games"));
    assert!(!is_game_backup(""));
}

#[test]
fn extension_comes_from_the_file_name() {
    // Path::extension looks at the last component only.
    assert!(!is_game_backup("dir.nsp/file"));
    assert!(is_game_backup("dir/file.nsp/"));
}

#[test]
fn nsp_files() {
    assert!(is_nsp_file("a/b.nsp"));
    assert!(!is_nsp_file("a/b.xci"));
    assert!(!is_nsp_file("a/b"));
}

#[test]
fn max_depth() {
    assert_eq!(walk_max_depth(true), usize::MAX);
    assert_eq!(walk_max_depth(false), 1);
}

#[test]
fn missing_path_is_an_error() {
    let r = select_game_paths(PathKind::Missing, "nowhere".to_string(), listing(&[("nowhere/a.nsp", true)]));
    assert_eq!(r, Err(GamePathsError::DoesNotExist));
}

#[test]
fn directory_keeps_game_backups_in_order() {
    let entries = listing(&[
        ("dir", false),
        ("dir/b.xci", true),
        ("dir/readme.txt", true),
        ("dir/a.nsp", true),
        ("dir/sub", false),
        ("dir/sub/c.nsz", true),
    ]);
    let r = select_game_paths(PathKind::Directory, "dir".to_string(), entries);
    assert_eq!(r, Ok(strings(&["dir/b.xci", "dir/a.nsp", "dir/sub/c.nsz"])));
}

#[test]
fn directory_without_game_backups_is_an_error() {
    let entries = listing(&[("dir", false), ("dir/readme.txt", true)]);
    let r = select_game_paths(PathKind::Directory, "dir".to_string(), entries);
    assert_eq!(r, Err(GamePathsError::NoGameBackupsFound));
    let r = select_game_paths(PathKind::Directory, "dir".to_string(), Vec::new());
    assert_eq!(r, Err(GamePathsError::NoGameBackupsFound));
}

#[test]
fn file_is_taken_when_a_game_backup() {
    let r = select_game_paths(PathKind::File, "x/game.nsp".to_string(), Vec::new());
    assert_eq!(r, Ok(strings(&["x/game.nsp"])));
    let r = select_game_paths(PathKind::File, "x/notes.txt".to_string(), Vec::new());
    assert_eq!(r, Err(GamePathsError::NotAGameBackup));
}

#[test]
fn nsp_listing() {
    let r = select_nsp_paths(strings(&["d/a.nsp", "d/b.xci", "d/c.nsp", "d/notes"]));
    assert_eq!(r, Some(strings(&["d/a.nsp", "d/c.nsp"])));
    assert_eq!(select_nsp_paths(strings(&["d/b.xci"])), None);
    // Judged by name: a directory named like an NSP is listed too.
    assert_eq!(select_nsp_paths(strings(&["d/dir.nsp"])), Some(strings(&["d/dir.nsp"])));
    assert_eq!(select_nsp_paths(Vec::new()), None);
}

#[test]
fn directory_named_like_a_game_backup_is_not_one() {
    let entries = listing(&[("games.nsp", false), ("games.nsp/readme.txt", true)]);
    let r = select_game_paths(PathKind::Directory, "games.nsp".to_string(), entries);
    assert_eq!(r, Err(GamePathsError::NoGameBackupsFound));
    let entries = listing(&[("games", false), ("games/sub.xci", false), ("games/sub.xci/a.nsp", true)]);
    let r = select_game_paths(PathKind::Directory, "games".to_string(), entries);
    assert_eq!(r, Ok(strings(&["games/sub.xci/a.nsp"])));
}
