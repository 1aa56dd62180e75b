//! Recognising game backup files and selecting them from a directory listing.

use vstd::prelude::*;

verus! {

/// File extensions (without the dot) of the game backups that can be installed.
pub const GAME_BACKUP_EXTENSIONS: [&'static str; 3] = ["nsp", "xci", "nsz"];

/// File extensions (without the dot) of RCM payloads.
pub const RCM_PAYLOAD_EXTENSIONS: [&'static str; 1] = ["bin"];

/// What `std::path::Path::extension` gives for a path, as text.
pub uninterp spec fn spec_path_extension(path: Seq<char>) -> Option<Seq<char>>;

/// The extension of `path` as `std::path::Path::extension` determines it:
/// the part of the file name after its last dot, or none.
/// The contract claims only that the result is that function of the path's text.
#[verifier::external_body]
fn path_extension(path: &str) -> (res: Option<String>)
    ensures
        match res {
            Some(e) => spec_path_extension(path@) == Some(e@),
            None => spec_path_extension(path@) is None,
        },
{
    match std::path::Path::new(path).extension() {
        Some(e) => Some(e.to_string_lossy().into_owned()),
        None => None,
    }
}

/// Whether an extension names a game backup format.
pub open spec fn spec_is_game_backup_extension(ext: Seq<char>) -> bool {
    ext == "nsp"@ || ext == "xci"@ || ext == "nsz"@
}

/// Whether a path is a game backup: its extension is one of the game backup extensions.
pub open spec fn spec_is_game_backup(path: Seq<char>) -> bool {
    match spec_path_extension(path) {
        Some(ext) => spec_is_game_backup_extension(ext),
        None => false,
    }
}

/// Character-wise equality of two strings.
fn str_eq(a: &str, b: &str) -> (res: bool)
    ensures
        res == (a@ == b@),
{
    let n = a.unicode_len();
    if n != b.unicode_len() {
        return false;
    }
    let mut i: usize = 0;
    while i < n
        invariant
            n == a@.len(),
            n == b@.len(),
            i <= n,
            forall|j: int| 0 <= j < i ==> a@[j] == b@[j],
        decreases n - i,
    {
        if a.get_char(i) != b.get_char(i) {
            return false;
        }
        i = i + 1;
    }
    assert(a@ =~= b@);
    true
}

/// Whether `ext` is one of `GAME_BACKUP_EXTENSIONS`.
pub fn is_game_backup_extension(ext: &str) -> (res: bool)
    ensures
        res == spec_is_game_backup_extension(ext@),
{
    let mut i: usize = 0;
    while i < 3
        invariant
            i <= 3,
            forall|j: int| 0 <= j < i ==> ext@ != (#[trigger] GAME_BACKUP_EXTENSIONS[j])@,
        decreases 3 - i,
    {
        if str_eq(ext, GAME_BACKUP_EXTENSIONS[i]) {
            return true;
        }
        i = i + 1;
    }
    false
}

/// Whether `path` names a game backup file, judged by its extension alone.
pub fn is_game_backup(path: &str) -> (res: bool)
    ensures
        res == spec_is_game_backup(path@),
{
    match path_extension(path) {
        Some(ext) => is_game_backup_extension(ext.as_str()),
        None => false,
    }
}

/// Whether `path` names an NSP file: its extension is exactly "nsp".
pub fn is_nsp_file(path: &str) -> (res: bool)
    ensures
        res == spec_is_nsp_file(path@),
{
    match path_extension(path) {
        Some(ext) => str_eq(ext.as_str(), "nsp"),
        None => false,
    }
}

/// Whether a path's extension is exactly "nsp".
pub open spec fn spec_is_nsp_file(path: Seq<char>) -> bool {
    spec_path_extension(path) == Some("nsp"@)
}

/// The listed paths whose extension is "nsp", in their order.
pub open spec fn spec_nsp_files(entries: Seq<Seq<char>>) -> Seq<Seq<char>>
    decreases entries.len(),
{
    if entries.len() == 0 {
        Seq::<Seq<char>>::empty()
    } else {
        let prev = spec_nsp_files(entries.drop_last());
        if spec_is_nsp_file(entries.last()) {
            prev.push(entries.last())
        } else {
            prev
        }
    }
}

/// The entries of a directory whose extension is "nsp", in order, or `None`
/// when there is none. Entries are judged by name alone, as the standalone
/// installer lists them.
pub fn select_nsp_paths(entries: Vec<String>) -> (res: Option<Vec<String>>)
    ensures
        match res {
            Some(v) => texts(v@) == spec_nsp_files(texts(entries@)) && v@.len() > 0,
            None => spec_nsp_files(texts(entries@)).len() == 0,
        },
        match res {
            Some(v) => texts(v@) == texts(entries@).filter(nsp_pred()),
            None => texts(entries@).filter(nsp_pred()).len() == 0,
        },
{
    proof { lemma_nsp_files_are_the_listed_nsps(texts(entries@)); }
    let ghost all = texts(entries@);
    let mut found: Vec<String> = Vec::new();
    assert(all.take(0) =~= Seq::<Seq<char>>::empty());
    assert(texts(found@) =~= spec_nsp_files(all.take(0)));
    let n = entries.len();
    let mut i: usize = 0;
    while i < n
        invariant
            n == entries@.len(),
            all == texts(entries@),
            i <= n,
            texts(found@) == spec_nsp_files(all.take(i as int)),
        decreases n - i,
    {
        let e = entries[i].clone();
        let keep = is_nsp_file(e.as_str());
        let ghost prev = found@;
        let ghost prefix = all.take(i + 1);
        assert(prefix.drop_last() =~= all.take(i as int));
        assert(prefix.last() == e@);
        if keep {
            found.push(e);
            assert(texts(found@) =~= texts(prev).push(e@));
        }
        assert(texts(found@) =~= spec_nsp_files(prefix));
        i = i + 1;
    }
    assert(all.take(n as int) =~= all);
    if found.len() == 0 {
        None
    } else {
        Some(found)
    }
}

/// An extension names a game backup exactly when it is one of
/// `GAME_BACKUP_EXTENSIONS`, matched in full and with its case.
pub proof fn lemma_game_backup_extensions_are_the_listed_ones(ext: Seq<char>)
    ensures
        spec_is_game_backup_extension(ext) <==> exists|i: int| 0 <= i < 3 && ext == (#[trigger] GAME_BACKUP_EXTENSIONS[i])@,
{
    if spec_is_game_backup_extension(ext) {
        if ext == "nsp"@ {
            assert(ext == GAME_BACKUP_EXTENSIONS[0]@);
        } else if ext == "xci"@ {
            assert(ext == GAME_BACKUP_EXTENSIONS[1]@);
        } else {
            assert(ext == GAME_BACKUP_EXTENSIONS[2]@);
        }
    }
}

/// An entry of a listing is a game backup file.
pub open spec fn is_game_backup_file() -> spec_fn((Seq<char>, bool)) -> bool {
    |e: (Seq<char>, bool)| e.1 && spec_is_game_backup(e.0)
}

/// The game backups kept from a listing are exactly its entries that are
/// files and game backups, in listing order: none is dropped, none added.
pub proof fn lemma_game_backups_are_the_listed_game_backup_files(entries: Seq<(Seq<char>, bool)>)
    ensures
        spec_game_backups(entries) == entries.filter(is_game_backup_file()).map_values(|e: (Seq<char>, bool)| e.0),
        forall|j: int| 0 <= j < entries.len() && (#[trigger] entries[j]).1 && spec_is_game_backup(entries[j].0)
            ==> spec_game_backups(entries).contains(entries[j].0),
    decreases entries.len(),
{
    reveal_with_fuel(Seq::filter, 1);
    let pred = is_game_backup_file();
    if entries.len() > 0 {
        let rest = entries.drop_last();
        lemma_game_backups_are_the_listed_game_backup_files(rest);
        let kept = rest.filter(pred);
        if pred(entries.last()) {
            assert(kept.push(entries.last()).map_values(|e: (Seq<char>, bool)| e.0)
                =~= kept.map_values(|e: (Seq<char>, bool)| e.0).push(entries.last().0));
        }
        let v = spec_game_backups(entries);
        assert forall|j: int| 0 <= j < entries.len() && (#[trigger] entries[j]).1 && spec_is_game_backup(entries[j].0)
            implies v.contains(entries[j].0) by {
            if j < rest.len() {
                assert(rest[j] == entries[j]);
                let prev = spec_game_backups(rest);
                assert(prev.contains(rest[j].0));
                let k = choose|k: int| 0 <= k < prev.len() && prev[k] == rest[j].0;
                assert(v[k] == prev[k]);
            } else {
                assert(v[v.len() - 1] == entries[j].0);
            }
        }
    } else {
        assert(entries.filter(pred).map_values(|e: (Seq<char>, bool)| e.0) =~= Seq::<Seq<char>>::empty());
    }
}

/// A listed path has the extension "nsp".
pub open spec fn nsp_pred() -> spec_fn(Seq<char>) -> bool {
    |e: Seq<char>| spec_is_nsp_file(e)
}

/// The NSPs kept from a listing are exactly its entries whose extension is
/// "nsp", in listing order: none is dropped, none added.
pub proof fn lemma_nsp_files_are_the_listed_nsps(entries: Seq<Seq<char>>)
    ensures
        spec_nsp_files(entries) == entries.filter(nsp_pred()),
        forall|j: int| 0 <= j < entries.len() && spec_is_nsp_file(#[trigger] entries[j])
            ==> spec_nsp_files(entries).contains(entries[j]),
    decreases entries.len(),
{
    reveal_with_fuel(Seq::filter, 1);
    if entries.len() > 0 {
        let rest = entries.drop_last();
        lemma_nsp_files_are_the_listed_nsps(rest);
        let v = spec_nsp_files(entries);
        assert forall|j: int| 0 <= j < entries.len() && spec_is_nsp_file(#[trigger] entries[j])
            implies v.contains(entries[j]) by {
            if j < rest.len() {
                assert(rest[j] == entries[j]);
                let prev = spec_nsp_files(rest);
                assert(prev.contains(rest[j]));
                let k = choose|k: int| 0 <= k < prev.len() && prev[k] == rest[j];
                assert(v[k] == prev[k]);
            } else {
                assert(v[v.len() - 1] == entries[j]);
            }
        }
    }
}

/// Every path that selecting game backups gives is a game backup, there is at
/// least one, and for a directory each is one of its entries that is a file.
pub proof fn lemma_selected_paths_are_game_backups(kind: PathKind, path: Seq<char>, entries: Seq<(Seq<char>, bool)>)
    ensures
        spec_select_game_paths(kind, path, entries) matches Ok(v) ==> {
            &&& v.len() > 0
            &&& forall|i: int| 0 <= i < v.len() ==> spec_is_game_backup(#[trigger] v[i])
            &&& kind == PathKind::Directory ==> forall|i: int| #![trigger v[i]] 0 <= i < v.len() ==>
                exists|j: int| 0 <= j < entries.len() && (#[trigger] entries[j]) == (v[i], true)
        },
{
    lemma_game_backups_are_file_entries(entries);
}

/// Each path kept from a listing is a game backup listed as a file.
proof fn lemma_game_backups_are_file_entries(entries: Seq<(Seq<char>, bool)>)
    ensures
        forall|i: int| 0 <= i < spec_game_backups(entries).len() ==> {
            &&& spec_is_game_backup(#[trigger] spec_game_backups(entries)[i])
            &&& exists|j: int| 0 <= j < entries.len() && (#[trigger] entries[j]) == (spec_game_backups(entries)[i], true)
        },
    decreases entries.len(),
{
    if entries.len() > 0 {
        let rest = entries.drop_last();
        lemma_game_backups_are_file_entries(rest);
        let prev = spec_game_backups(rest);
        let v = spec_game_backups(entries);
        assert forall|i: int| 0 <= i < v.len() implies {
            &&& spec_is_game_backup(#[trigger] v[i])
            &&& exists|j: int| 0 <= j < entries.len() && (#[trigger] entries[j]) == (v[i], true)
        } by {
            if i < prev.len() {
                assert(v[i] == prev[i]);
                let j = choose|j: int| 0 <= j < rest.len() && (#[trigger] rest[j]) == (prev[i], true);
                assert(entries[j] == rest[j]);
            } else {
                assert(entries[entries.len() - 1] == (v[i], true));
            }
        }
    }
}

/// What a path given for installation turned out to be on disk.
#[derive(Clone, Copy, Debug, PartialEq, Eq, Structural)]
pub enum PathKind {
    /// Nothing exists at the path.
    Missing,
    /// The path is a directory.
    Directory,
    /// The path exists and is not a directory.
    File,
}

/// Why no game backups could be selected for a path.
#[derive(Clone, Copy, Debug, PartialEq, Eq, Structural)]
pub enum GamePathsError {
    /// The given path does not exist.
    DoesNotExist,
    /// The given path is a file, but not a game backup.
    NotAGameBackup,
    /// The given directory holds no game backup.
    NoGameBackupsFound,
}

/// The texts of a sequence of strings.
pub open spec fn texts(v: Seq<String>) -> Seq<Seq<char>> {
    v.map_values(|s: String| s@)
}

/// The path texts of walked entries, each with whether it is a file.
pub open spec fn entry_views(v: Seq<(String, bool)>) -> Seq<(Seq<char>, bool)> {
    v.map_values(|e: (String, bool)| (e.0@, e.1))
}

/// The paths among the listed entries that are files and game backups, in their order.
pub open spec fn spec_game_backups(entries: Seq<(Seq<char>, bool)>) -> Seq<Seq<char>>
    decreases entries.len(),
{
    if entries.len() == 0 {
        Seq::<Seq<char>>::empty()
    } else {
        let prev = spec_game_backups(entries.drop_last());
        let (path, is_file) = entries.last();
        if is_file && spec_is_game_backup(path) {
            prev.push(path)
        } else {
            prev
        }
    }
}

/// What selecting the game backups for a path gives: for a directory, the game
/// backup files among `entries` (the paths found in it, each with whether it is
/// a file); for a file, the file itself when it is a game backup.
pub open spec fn spec_select_game_paths(kind: PathKind, path: Seq<char>, entries: Seq<(Seq<char>, bool)>)
    -> Result<Seq<Seq<char>>, GamePathsError>
{
    match kind {
        PathKind::Missing => Err(GamePathsError::DoesNotExist),
        PathKind::Directory => if spec_game_backups(entries).len() == 0 {
            Err(GamePathsError::NoGameBackupsFound)
        } else {
            Ok(spec_game_backups(entries))
        },
        PathKind::File => if spec_is_game_backup(path) {
            Ok(seq![path])
        } else {
            Err(GamePathsError::NotAGameBackup)
        },
    }
}

/// How deep below the given directory the search for game backups goes:
/// only its direct entries, or the whole tree when `recurse` is set.
pub fn walk_max_depth(recurse: bool) -> (depth: usize)
    ensures
        depth == if recurse { usize::MAX } else { 1 },
{
    if recurse { usize::MAX } else { 1 }
}

/// Selects the game backups to install for `path`, which is of the given
/// kind. For a directory, `entries` are the paths found while walking it, each
/// with whether it is a file; the files among them that are game backups are
/// kept, in order, and directories are never kept, whatever their name. For a
/// file, the file itself is selected when it is a game backup.
pub fn select_game_paths(kind: PathKind, path: String, entries: Vec<(String, bool)>)
    -> (res: Result<Vec<String>, GamePathsError>)
    ensures
        match res {
            Ok(v) => spec_select_game_paths(kind, path@, entry_views(entries@)) == Ok::<Seq<Seq<char>>, GamePathsError>(texts(v@)),
            Err(e) => spec_select_game_paths(kind, path@, entry_views(entries@)) == Err::<Seq<Seq<char>>, GamePathsError>(e),
        },
        kind == PathKind::Missing ==> res == Err::<Vec<String>, GamePathsError>(GamePathsError::DoesNotExist),
        kind == PathKind::File ==> match res {
            Ok(v) => spec_is_game_backup(path@) && texts(v@) == seq![path@],
            Err(e) => !spec_is_game_backup(path@) && e == GamePathsError::NotAGameBackup,
        },
        kind == PathKind::Directory ==> match res {
            Ok(v) => texts(v@) == entry_views(entries@).filter(is_game_backup_file()).map_values(|e: (Seq<char>, bool)| e.0),
            Err(e) => e == GamePathsError::NoGameBackupsFound
                && entry_views(entries@).filter(is_game_backup_file()).len() == 0,
        },
{
    proof { lemma_game_backups_are_the_listed_game_backup_files(entry_views(entries@)); }
    match kind {
        PathKind::Missing => Err(GamePathsError::DoesNotExist),
        PathKind::File => {
            if is_game_backup(path.as_str()) {
                let mut v: Vec<String> = Vec::new();
                v.push(path);
                assert(texts(v@) =~= seq![path@]);
                Ok(v)
            } else {
                Err(GamePathsError::NotAGameBackup)
            }
        },
        PathKind::Directory => {
            let ghost all = entry_views(entries@);
            let mut found: Vec<String> = Vec::new();
            assert(all.take(0) =~= Seq::<(Seq<char>, bool)>::empty());
            assert(texts(found@) =~= spec_game_backups(all.take(0)));
            let n = entries.len();
            let mut i: usize = 0;
            while i < n
                invariant
                    n == entries@.len(),
                    all == entry_views(entries@),
                    i <= n,
                    texts(found@) == spec_game_backups(all.take(i as int)),
                decreases n - i,
            {
                let e = entries[i].0.clone();
                let is_file = entries[i].1;
                let keep = is_file && is_game_backup(e.as_str());
                let ghost prev = found@;
                let ghost prefix = all.take(i + 1);
                assert(prefix.drop_last() =~= all.take(i as int));
                assert(prefix.last() == (e@, is_file));
                if keep {
                    found.push(e);
                    assert(texts(found@) =~= texts(prev).push(e@));
                }
                assert(texts(found@) =~= spec_game_backups(prefix));
                i = i + 1;
            }
            assert(all.take(n as int) =~= all);
            if found.len() == 0 {
                Err(GamePathsError::NoGameBackupsFound)
            } else {
                Ok(found)
            }
        },
    }
}

} // verus!
