//! The list of files staged for a USB installation.

use vstd::prelude::*;
use crate::paths::texts;

verus! {

/// Whether `std::path::Path`'s `==` holds between two paths given as text
/// (it compares the paths component by component).
pub uninterp spec fn spec_paths_equal(a: Seq<char>, b: Seq<char>) -> bool;

/// Compares two paths with `std::path::Path`'s `==`.
/// The contract claims that the result is that function of the two texts, that
/// it does not depend on their order, that two equal texts name equal paths,
/// and that two paths found equal are equal to the same paths (`Path`
/// implements `Eq`, so `==` is reflexive, symmetric and transitive).
#[verifier::external_body]
fn paths_equal(a: &str, b: &str) -> (res: bool)
    ensures
        res == spec_paths_equal(a@, b@),
        res == spec_paths_equal(b@, a@),
        a@ == b@ ==> res,
        res ==> forall|c: Seq<char>| spec_paths_equal(a@, c) == #[trigger] spec_paths_equal(b@, c),
{
    std::path::Path::new(a) == std::path::Path::new(b)
}

/// What `humansize::format_size(size, humansize::BINARY)` gives for a size in bytes.
pub uninterp spec fn spec_format_size_binary(size: u64) -> Seq<char>;

/// Formats a byte count with binary units (KiB, MiB, ...) through
/// `humansize::format_size` with the `BINARY` options.
/// The contract claims only that the text is that function of the size.
#[verifier::external_body]
fn format_size_binary(size: u64) -> (res: String)
    ensures
        res@ == spec_format_size_binary(size),
{
    humansize::format_size(size, humansize::BINARY)
}

/// A staged file as the contracts see it.
pub struct StagedFileModel {
    pub path: Seq<char>,
    pub file_size: u64,
    pub selected: bool,
}

/// A file staged for installation: its path, its size in bytes, and whether
/// it is selected for the next installation.
struct StagedFile {
    path: String,
    file_size: u64,
    selected: bool,
}

impl View for StagedFile {
    type V = StagedFileModel;

    closed spec fn view(&self) -> StagedFileModel {
        StagedFileModel { path: self.path@, file_size: self.file_size, selected: self.selected }
    }
}

/// The sum of the sizes of the files.
pub open spec fn total_size(files: Seq<StagedFileModel>) -> int
    decreases files.len(),
{
    if files.len() == 0 {
        0
    } else {
        total_size(files.drop_last()) + files.last().file_size
    }
}

/// Two lists whose sizes agree position by position have the same total size.
proof fn lemma_total_size_same_sizes(a: Seq<StagedFileModel>, b: Seq<StagedFileModel>)
    requires
        a.len() == b.len(),
        forall|i: int| 0 <= i < a.len() ==> (#[trigger] a[i]).file_size == b[i].file_size,
    ensures
        total_size(a) == total_size(b),
    decreases a.len(),
{
    if a.len() > 0 {
        lemma_total_size_same_sizes(a.drop_last(), b.drop_last());
    }
}

/// Two texts name the same path: they are equal, or `Path`'s `==` holds.
pub open spec fn same_path(a: Seq<char>, b: Seq<char>) -> bool {
    a == b || spec_paths_equal(a, b)
}

/// No staged path is the same path as one staged after it.
pub open spec fn distinct_paths(files: Seq<StagedFileModel>) -> bool {
    forall|i: int, j: int|
        0 <= i < j < files.len() ==> !same_path(#[trigger] files[i].path, #[trigger] files[j].path)
}

/// Some staged file has the same path as `path`.
pub open spec fn contains_path(files: Seq<StagedFileModel>, path: Seq<char>) -> bool {
    exists|i: int| 0 <= i < files.len() && same_path(#[trigger] files[i].path, path)
}

/// The staged files after staging `new_files` (path and size) one after the
/// other: a path is added, selected, unless a path equal to it is staged already.
pub open spec fn spec_extend_unique(files: Seq<StagedFileModel>, new_files: Seq<(Seq<char>, u64)>)
    -> Seq<StagedFileModel>
    decreases new_files.len(),
{
    if new_files.len() == 0 {
        files
    } else {
        let prev = spec_extend_unique(files, new_files.drop_last());
        let (path, size) = new_files.last();
        if contains_path(prev, path) {
            prev
        } else {
            prev.push(StagedFileModel { path, file_size: size, selected: true })
        }
    }
}

/// The texts and sizes of the files handed to `extend_unique`.
pub open spec fn new_file_views(new_files: Seq<(String, u64)>) -> Seq<(Seq<char>, u64)> {
    new_files.map_values(|f: (String, u64)| (f.0@, f.1))
}

/// `selected` as a predicate value.
pub open spec fn selected_pred() -> spec_fn(StagedFileModel) -> bool {
    |f: StagedFileModel| f.selected
}

/// `!selected` as a predicate value.
pub open spec fn unselected_pred() -> spec_fn(StagedFileModel) -> bool {
    |f: StagedFileModel| !f.selected
}

/// The files with their selection set to `selected`.
pub open spec fn with_selection(files: Seq<StagedFileModel>, selected: bool) -> Seq<StagedFileModel> {
    files.map_values(|f: StagedFileModel| StagedFileModel { path: f.path, file_size: f.file_size, selected })
}

/// The paths of the files.
pub open spec fn paths_of(files: Seq<StagedFileModel>) -> Seq<Seq<char>> {
    files.map_values(|f: StagedFileModel| f.path)
}

/// Whether one of `files` has a path equal (as a path) to `path`.
fn files_contain(files: &Vec<StagedFile>, path: &str) -> (res: bool)
    ensures
        res == contains_path(files@.map_values(|f: StagedFile| f@), path@),
{
    let ghost view = files@.map_values(|f: StagedFile| f@);
    let n = files.len();
    let mut i: usize = 0;
    while i < n
        invariant
            n == view.len(),
            view == files@.map_values(|f: StagedFile| f@),
            i <= n,
            forall|j: int| 0 <= j < i ==> !same_path(#[trigger] view[j].path, path@),
        decreases n - i,
    {
        if paths_equal(files[i].path.as_str(), path) {
            assert(same_path(view[i as int].path, path@));
            return true;
        }
        i = i + 1;
    }
    false
}

/// Staging files after a prefix of them gives a total size no larger than staging them all.
proof fn lemma_extend_prefix_total(files: Seq<StagedFileModel>, new_files: Seq<(Seq<char>, u64)>, k: int)
    requires
        0 <= k <= new_files.len(),
    ensures
        total_size(spec_extend_unique(files, new_files.take(k))) <= total_size(spec_extend_unique(files, new_files)),
    decreases new_files.len(),
{
    if k == new_files.len() {
        assert(new_files.take(k) =~= new_files);
    } else {
        assert(new_files.take(k) =~= new_files.drop_last().take(k));
        lemma_extend_prefix_total(files, new_files.drop_last(), k);
        let prev = spec_extend_unique(files, new_files.drop_last());
        let (path, size) = new_files.last();
        let next = prev.push(StagedFileModel { path, file_size: size, selected: true });
        assert(next.drop_last() =~= prev);
    }
}

/// The total size of a prefix grows by the size of each further file, and
/// never exceeds the total of the whole list.
proof fn lemma_total_size_prefix(files: Seq<StagedFileModel>, k: int)
    requires
        0 < k <= files.len(),
    ensures
        total_size(files.take(k)) == total_size(files.take(k - 1)) + files[k - 1].file_size,
        total_size(files.take(k)) <= total_size(files),
    decreases files.len(),
{
    assert(files.take(k).drop_last() =~= files.take(k - 1));
    if k < files.len() {
        assert(files.take(k) =~= files.drop_last().take(k));
        assert(files.take(k - 1) =~= files.drop_last().take(k - 1));
        lemma_total_size_prefix(files.drop_last(), k);
    } else {
        assert(files.take(k) =~= files);
    }
}

/// Staging keeps the staged paths distinct: if no path was staged twice
/// before, none is after staging any files.
pub proof fn lemma_extend_unique_keeps_paths_distinct(files: Seq<StagedFileModel>, new_files: Seq<(Seq<char>, u64)>)
    requires
        distinct_paths(files),
    ensures
        distinct_paths(spec_extend_unique(files, new_files)),
    decreases new_files.len(),
{
    if new_files.len() > 0 {
        lemma_extend_unique_keeps_paths_distinct(files, new_files.drop_last());
        let prev = spec_extend_unique(files, new_files.drop_last());
        let (path, size) = new_files.last();
        if !contains_path(prev, path) {
            let next = prev.push(StagedFileModel { path, file_size: size, selected: true });
            assert forall|a: int, b: int| 0 <= a < b < next.len() implies
                !same_path(#[trigger] next[a].path, #[trigger] next[b].path) by {
                if b < prev.len() {
                    assert(next[a] == prev[a] && next[b] == prev[b]);
                } else {
                    assert(next[a] == prev[a]);
                }
            }
        }
    }
}

/// Staging keeps what was staged before, unchanged and in front, and
/// afterwards every path handed in is staged (itself or the same path).
pub proof fn lemma_extend_unique_stages_every_path(files: Seq<StagedFileModel>, new_files: Seq<(Seq<char>, u64)>)
    ensures
        spec_extend_unique(files, new_files).len() >= files.len(),
        spec_extend_unique(files, new_files).take(files.len() as int) == files,
        forall|i: int| 0 <= i < new_files.len() ==> contains_path(spec_extend_unique(files, new_files), #[trigger] new_files[i].0),
    decreases new_files.len(),
{
    let res = spec_extend_unique(files, new_files);
    if new_files.len() == 0 {
        assert(res.take(files.len() as int) =~= files);
    } else {
        let rest = new_files.drop_last();
        lemma_extend_unique_stages_every_path(files, rest);
        let prev = spec_extend_unique(files, rest);
        let (path, size) = new_files.last();
        if !contains_path(prev, path) {
            let next = prev.push(StagedFileModel { path, file_size: size, selected: true });
            assert(next.take(files.len() as int) =~= prev.take(files.len() as int));
            assert(same_path(next[prev.len() as int].path, path));
        }
        assert forall|i: int| 0 <= i < new_files.len() implies contains_path(res, #[trigger] new_files[i].0) by {
            if i < rest.len() {
                assert(rest[i] == new_files[i]);
                assert(contains_path(prev, rest[i].0));
                let j = choose|j: int| 0 <= j < prev.len() && same_path(#[trigger] prev[j].path, rest[i].0);
                assert(res[j] == prev[j]);
            } else if contains_path(prev, path) {
                let j = choose|j: int| 0 <= j < prev.len() && same_path(#[trigger] prev[j].path, path);
                assert(res[j] == prev[j]);
            } else {
                assert(same_path(res[prev.len() as int].path, path));
            }
        }
    }
}

/// Staging only adds the files handed in: every file after the staged ones
/// is one of `new_files`, selected; so a path is staged afterwards only if
/// it was staged before or is the same path as one handed in.
pub proof fn lemma_extend_unique_adds_only_new_files(files: Seq<StagedFileModel>, new_files: Seq<(Seq<char>, u64)>, path: Seq<char>)
    ensures
        forall|k: int| files.len() <= k < spec_extend_unique(files, new_files).len() ==>
            exists|i: int| 0 <= i < new_files.len() && #[trigger] spec_extend_unique(files, new_files)[k]
                == (StagedFileModel { path: new_files[i].0, file_size: new_files[i].1, selected: true }),
        contains_path(spec_extend_unique(files, new_files), path) ==>
            contains_path(files, path) || exists|i: int| 0 <= i < new_files.len() && same_path(#[trigger] new_files[i].0, path),
    decreases new_files.len(),
{
    lemma_extend_unique_stages_every_path(files, new_files);
    let res = spec_extend_unique(files, new_files);
    if new_files.len() > 0 {
        let rest = new_files.drop_last();
        lemma_extend_unique_adds_only_new_files(files, rest, path);
        let prev = spec_extend_unique(files, rest);
        lemma_extend_unique_stages_every_path(files, rest);
        assert forall|k: int| files.len() <= k < res.len() implies
            exists|i: int| 0 <= i < new_files.len() && #[trigger] res[k]
                == (StagedFileModel { path: new_files[i].0, file_size: new_files[i].1, selected: true }) by {
            if k < prev.len() {
                assert(res[k] == prev[k]);
                let i = choose|i: int| 0 <= i < rest.len() && #[trigger] prev[k]
                    == (StagedFileModel { path: rest[i].0, file_size: rest[i].1, selected: true });
                assert(rest[i] == new_files[i]);
            } else {
                assert(res[k] == (StagedFileModel { path: new_files[new_files.len() - 1].0, file_size: new_files[new_files.len() - 1].1, selected: true }));
            }
        }
    }
    if contains_path(res, path) {
        let k = choose|k: int| 0 <= k < res.len() && same_path(#[trigger] res[k].path, path);
        if k < files.len() {
            assert(res.take(files.len() as int)[k] == files[k]);
        } else {
            let i = choose|i: int| 0 <= i < new_files.len() && #[trigger] res[k]
                == (StagedFileModel { path: new_files[i].0, file_size: new_files[i].1, selected: true });
            assert(same_path(new_files[i].0, path));
        }
    }
}

/// Paths none of which is staged nor the same path as one before it in the list.
pub open spec fn fresh_paths(files: Seq<StagedFileModel>, paths: Seq<Seq<char>>) -> bool {
    forall|i: int| 0 <= i < paths.len() ==> {
        &&& !contains_path(files, #[trigger] paths[i])
        &&& forall|j: int| 0 <= j < i ==> !same_path(#[trigger] paths[j], paths[i])
    }
}

/// The paths among `paths` that staging would add: those not staged already
/// and not the same path as an earlier one of them, in order.
pub open spec fn spec_unstaged_paths(files: Seq<StagedFileModel>, paths: Seq<Seq<char>>) -> Seq<Seq<char>>
    decreases paths.len(),
{
    if paths.len() == 0 {
        Seq::<Seq<char>>::empty()
    } else {
        let prev = spec_unstaged_paths(files, paths.drop_last());
        let path = paths.last();
        if contains_path(files, path) || exists|j: int| 0 <= j < prev.len() && same_path(#[trigger] prev[j], path) {
            prev
        } else {
            prev.push(path)
        }
    }
}

/// The staged files that `new_files` become when each is added.
pub open spec fn new_file_models(new_files: Seq<(Seq<char>, u64)>) -> Seq<StagedFileModel> {
    new_files.map_values(|f: (Seq<char>, u64)| StagedFileModel { path: f.0, file_size: f.1, selected: true })
}

/// The paths of the files handed to staging.
pub open spec fn new_file_paths(new_files: Seq<(Seq<char>, u64)>) -> Seq<Seq<char>> {
    new_files.map_values(|f: (Seq<char>, u64)| f.0)
}

/// The paths that staging would add are fresh: none staged, none the same as
/// an earlier one.
pub proof fn lemma_unstaged_paths_are_fresh(files: Seq<StagedFileModel>, paths: Seq<Seq<char>>)
    ensures
        fresh_paths(files, spec_unstaged_paths(files, paths)),
    decreases paths.len(),
{
    if paths.len() > 0 {
        lemma_unstaged_paths_are_fresh(files, paths.drop_last());
        let prev = spec_unstaged_paths(files, paths.drop_last());
        let res = spec_unstaged_paths(files, paths);
        assert forall|i: int| 0 <= i < res.len() implies {
            &&& !contains_path(files, #[trigger] res[i])
            &&& forall|j: int| 0 <= j < i ==> !same_path(#[trigger] res[j], res[i])
        } by {
            if i < prev.len() {
                assert(res[i] == prev[i]);
                assert forall|j: int| 0 <= j < i implies !same_path(#[trigger] res[j], res[i]) by {
                    assert(res[j] == prev[j]);
                }
            } else {
                assert forall|j: int| 0 <= j < i implies !same_path(#[trigger] res[j], res[i]) by {
                    assert(res[j] == prev[j]);
                }
            }
        }
    }
}

/// Staging files with fresh paths adds every one of them, in order, selected.
pub proof fn lemma_extend_unique_with_fresh_paths(files: Seq<StagedFileModel>, new_files: Seq<(Seq<char>, u64)>)
    requires
        fresh_paths(files, new_file_paths(new_files)),
    ensures
        spec_extend_unique(files, new_files) == files + new_file_models(new_files),
    decreases new_files.len(),
{
    if new_files.len() == 0 {
        assert(files + new_file_models(new_files) =~= files);
    } else {
        let rest = new_files.drop_last();
        let paths = new_file_paths(new_files);
        assert(new_file_paths(rest) =~= paths.drop_last());
        assert forall|i: int| 0 <= i < new_file_paths(rest).len() implies {
            &&& !contains_path(files, #[trigger] new_file_paths(rest)[i])
            &&& forall|j: int| 0 <= j < i ==> !same_path(#[trigger] new_file_paths(rest)[j], new_file_paths(rest)[i])
        } by {
            assert(new_file_paths(rest)[i] == paths[i]);
            assert forall|j: int| 0 <= j < i implies !same_path(#[trigger] new_file_paths(rest)[j], new_file_paths(rest)[i]) by {
                assert(new_file_paths(rest)[j] == paths[j]);
            }
        }
        lemma_extend_unique_with_fresh_paths(files, rest);
        let added = new_file_models(rest);
        let (path, size) = new_files.last();
        let last = paths.len() - 1;
        assert(paths[last] == path);
        lemma_contains_path_concat(files, added, path);
        if contains_path(added, path) {
            let j = choose|j: int| 0 <= j < added.len() && same_path(#[trigger] added[j].path, path);
            assert(added[j].path == paths[j]);
            assert(!same_path(paths[j], paths[last]));
        }
        assert(files + new_file_models(new_files) =~= (files + added).push(StagedFileModel { path, file_size: size, selected: true }));
    }
}

/// Staging files whose paths are all staged already changes nothing.
proof fn lemma_extend_unique_skips_staged(files: Seq<StagedFileModel>, new_files: Seq<(Seq<char>, u64)>)
    requires
        forall|i: int| 0 <= i < new_files.len() ==> contains_path(files, #[trigger] new_files[i].0),
    ensures
        spec_extend_unique(files, new_files) == files,
    decreases new_files.len(),
{
    if new_files.len() > 0 {
        let rest = new_files.drop_last();
        assert forall|i: int| 0 <= i < rest.len() implies contains_path(files, #[trigger] rest[i].0) by {
            assert(rest[i] == new_files[i]);
        }
        lemma_extend_unique_skips_staged(files, rest);
        assert(contains_path(files, new_files[new_files.len() - 1].0));
    }
}

/// No path of a list whose paths are all staged is left to stage.
proof fn lemma_unstaged_paths_of_staged(files: Seq<StagedFileModel>, paths: Seq<Seq<char>>)
    requires
        forall|i: int| 0 <= i < paths.len() ==> contains_path(files, #[trigger] paths[i]),
    ensures
        spec_unstaged_paths(files, paths).len() == 0,
    decreases paths.len(),
{
    if paths.len() > 0 {
        let rest = paths.drop_last();
        assert forall|i: int| 0 <= i < rest.len() implies contains_path(files, #[trigger] rest[i]) by {
            assert(rest[i] == paths[i]);
        }
        lemma_unstaged_paths_of_staged(files, rest);
        assert(contains_path(files, paths[paths.len() - 1]));
    }
}

/// Staging the same files twice is staging them once: the second time
/// changes neither the list nor the total size, and none of their paths is
/// left to stage (so no size needs reading).
pub proof fn lemma_extend_unique_twice(files: Seq<StagedFileModel>, new_files: Seq<(Seq<char>, u64)>)
    ensures
        spec_extend_unique(spec_extend_unique(files, new_files), new_files) == spec_extend_unique(files, new_files),
        spec_unstaged_paths(spec_extend_unique(files, new_files), new_file_paths(new_files)).len() == 0,
{
    let once = spec_extend_unique(files, new_files);
    lemma_extend_unique_stages_every_path(files, new_files);
    lemma_extend_unique_skips_staged(once, new_files);
    let paths = new_file_paths(new_files);
    assert forall|i: int| 0 <= i < paths.len() implies contains_path(once, #[trigger] paths[i]) by {
        assert(paths[i] == new_files[i].0);
    }
    lemma_unstaged_paths_of_staged(once, paths);
}

/// The total size of two lists put together is the sum of their totals, and
/// that of a single file is its size.
pub proof fn lemma_total_size_adds_up(a: Seq<StagedFileModel>, b: Seq<StagedFileModel>, f: StagedFileModel)
    ensures
        total_size(a + b) == total_size(a) + total_size(b),
        total_size(seq![f]) == f.file_size,
        total_size(a) >= 0,
    decreases b.len(),
{
    if b.len() == 0 {
        assert(a + b =~= a);
        assert(seq![f].drop_last() =~= Seq::<StagedFileModel>::empty());
        assert(total_size(Seq::<StagedFileModel>::empty()) == 0);
        lemma_total_size_nonnegative(a);
    } else {
        lemma_total_size_adds_up(a, b.drop_last(), f);
        assert((a + b).drop_last() =~= a + b.drop_last());
        assert(seq![f].drop_last() =~= Seq::<StagedFileModel>::empty());
        assert(total_size(Seq::<StagedFileModel>::empty()) == 0);
        lemma_total_size_nonnegative(a);
    }
}

/// A total size is never negative.
proof fn lemma_total_size_nonnegative(files: Seq<StagedFileModel>)
    ensures
        total_size(files) >= 0,
    decreases files.len(),
{
    if files.len() > 0 {
        lemma_total_size_nonnegative(files.drop_last());
    }
}

/// The selected files are exactly the files whose selection is set, in
/// their order: none of them is unselected, and each selected file is among them.
pub proof fn lemma_selected_files_are_the_selected_ones(files: Seq<StagedFileModel>)
    ensures
        forall|i: int| 0 <= i < files.filter(selected_pred()).len() ==> (#[trigger] files.filter(selected_pred())[i]).selected,
        forall|i: int| 0 <= i < files.len() && files[i].selected ==> files.filter(selected_pred()).contains(#[trigger] files[i]),
        files.filter(selected_pred()).len() <= files.len(),
{
    broadcast use vstd::seq_lib::group_filter_ensures;
    let sel = files.filter(selected_pred());
    assert forall|i: int| 0 <= i < sel.len() implies (#[trigger] sel[i]).selected by {
        assert(selected_pred()(sel[i]));
    }
    assert forall|i: int| 0 <= i < files.len() && files[i].selected implies sel.contains(#[trigger] files[i]) by {
        assert(selected_pred()(files[i]));
    }
}

/// Every path of the list is either staged already or the same path as one
/// that staging would add.
pub proof fn lemma_unstaged_paths_cover_the_rest(files: Seq<StagedFileModel>, paths: Seq<Seq<char>>)
    ensures
        forall|i: int| 0 <= i < paths.len() ==> contains_path(files, #[trigger] paths[i])
            || exists|j: int| 0 <= j < spec_unstaged_paths(files, paths).len()
                && same_path(#[trigger] spec_unstaged_paths(files, paths)[j], paths[i]),
        forall|j: int| 0 <= j < spec_unstaged_paths(files, paths).len() ==>
            exists|i: int| 0 <= i < paths.len() && #[trigger] spec_unstaged_paths(files, paths)[j] == paths[i],
    decreases paths.len(),
{
    if paths.len() > 0 {
        let rest = paths.drop_last();
        lemma_unstaged_paths_cover_the_rest(files, rest);
        let prev = spec_unstaged_paths(files, rest);
        let res = spec_unstaged_paths(files, paths);
        assert forall|i: int| 0 <= i < paths.len() implies contains_path(files, #[trigger] paths[i])
            || exists|j: int| 0 <= j < res.len() && same_path(#[trigger] res[j], paths[i]) by {
            if i < rest.len() {
                assert(rest[i] == paths[i]);
                if !contains_path(files, paths[i]) {
                    let j = choose|j: int| 0 <= j < prev.len() && same_path(#[trigger] prev[j], rest[i]);
                    assert(res[j] == prev[j]);
                }
            } else if !contains_path(files, paths[i]) {
                if exists|j: int| 0 <= j < prev.len() && same_path(#[trigger] prev[j], paths[i]) {
                    let j = choose|j: int| 0 <= j < prev.len() && same_path(#[trigger] prev[j], paths[i]);
                    assert(res[j] == prev[j]);
                } else {
                    assert(same_path(res[prev.len() as int], paths[i]));
                }
            }
        }
        assert forall|j: int| 0 <= j < res.len() implies
            exists|i: int| 0 <= i < paths.len() && #[trigger] res[j] == paths[i] by {
            if j < prev.len() {
                assert(res[j] == prev[j]);
                let i = choose|i: int| 0 <= i < rest.len() && #[trigger] prev[j] == rest[i];
                assert(rest[i] == paths[i]);
            } else {
                assert(res[j] == paths[paths.len() - 1]);
            }
        }
    }
}

/// After removing the selected files none is selected, and every file that
/// was not selected stays.
pub proof fn lemma_remove_selected_leaves_unselected(files: Seq<StagedFileModel>)
    ensures
        forall|i: int| 0 <= i < files.filter(unselected_pred()).len() ==> !(#[trigger] files.filter(unselected_pred())[i]).selected,
        forall|i: int| 0 <= i < files.len() && !files[i].selected ==> files.filter(unselected_pred()).contains(#[trigger] files[i]),
{
    broadcast use vstd::seq_lib::group_filter_ensures;
    let kept = files.filter(unselected_pred());
    assert forall|i: int| 0 <= i < kept.len() implies !(#[trigger] kept[i]).selected by {
        assert(unselected_pred()(kept[i]));
    }
    assert forall|i: int| 0 <= i < files.len() && !files[i].selected implies kept.contains(#[trigger] files[i]) by {
        assert(unselected_pred()(files[i]));
    }
}

/// After selecting all files every file is selected, and after deselecting
/// all none is; paths, sizes and order stay.
pub proof fn lemma_selection_of_all(files: Seq<StagedFileModel>, selected: bool)
    ensures
        with_selection(files, selected).len() == files.len(),
        forall|i: int| 0 <= i < files.len() ==> {
            &&& (#[trigger] with_selection(files, selected)[i]).selected == selected
            &&& with_selection(files, selected)[i].path == files[i].path
            &&& with_selection(files, selected)[i].file_size == files[i].file_size
        },
{
}

/// Whether one of the texts names the same path as `path`.
fn texts_contain(v: &Vec<String>, path: &str) -> (res: bool)
    ensures
        res == exists|j: int| 0 <= j < v@.len() && same_path(#[trigger] texts(v@)[j], path@),
{
    let n = v.len();
    let mut i: usize = 0;
    while i < n
        invariant
            n == v@.len(),
            i <= n,
            forall|j: int| 0 <= j < i ==> !same_path(#[trigger] texts(v@)[j], path@),
        decreases n - i,
    {
        if paths_equal(v[i].as_str(), path) {
            assert(same_path(texts(v@)[i as int], path@));
            return true;
        }
        i = i + 1;
    }
    false
}

/// A path is among two lists put together when it is among one of them.
proof fn lemma_contains_path_concat(a: Seq<StagedFileModel>, b: Seq<StagedFileModel>, path: Seq<char>)
    ensures
        contains_path(a + b, path) == (contains_path(a, path) || contains_path(b, path)),
{
    let ab = a + b;
    if contains_path(ab, path) {
        let j = choose|j: int| 0 <= j < ab.len() && same_path(#[trigger] ab[j].path, path);
        if j < a.len() {
            assert(a[j] == ab[j]);
        } else {
            assert(b[j - a.len()] == ab[j]);
        }
    }
    if contains_path(a, path) {
        let j = choose|j: int| 0 <= j < a.len() && same_path(#[trigger] a[j].path, path);
        assert(ab[j] == a[j]);
    }
    if contains_path(b, path) {
        let j = choose|j: int| 0 <= j < b.len() && same_path(#[trigger] b[j].path, path);
        assert(ab[j + a.len()] == b[j]);
    }
}

/// The files staged for installation, in the order they were staged,
/// with the sum of their sizes.
pub struct StagedFiles {
    files: Vec<StagedFile>,
    total_file_size: u64,
}

impl View for StagedFiles {
    type V = Seq<StagedFileModel>;

    closed spec fn view(&self) -> Seq<StagedFileModel> {
        self.files@.map_values(|f: StagedFile| f@)
    }
}

impl StagedFiles {
    /// The total size is the sum of the file sizes, and no path is staged twice.
    #[verifier::type_invariant]
    closed spec fn well_formed(&self) -> bool {
        &&& self.total_file_size == total_size(self@)
        &&& distinct_paths(self@)
    }

    /// An empty list.
    pub fn new() -> (res: StagedFiles)
        ensures
            res@ == Seq::<StagedFileModel>::empty(),
    {
        let res = StagedFiles { files: Vec::new(), total_file_size: 0 };
        assert(res@ =~= Seq::<StagedFileModel>::empty());
        res
    }

    /// Whether nothing is staged.
    pub fn is_empty(&self) -> (res: bool)
        ensures
            res == (self@.len() == 0),
    {
        self.files.len() == 0
    }

    /// The number of staged files.
    pub fn count(&self) -> (res: usize)
        ensures
            res == self@.len(),
    {
        self.files.len()
    }

    /// Whether some staged file is selected.
    pub fn has_any_selected(&self) -> (res: bool)
        ensures
            res == exists|i: int| 0 <= i < self@.len() && (#[trigger] self@[i]).selected,
    {
        let n = self.files.len();
        let mut i: usize = 0;
        while i < n
            invariant
                n == self@.len(),
                i <= n,
                forall|j: int| 0 <= j < i ==> !(#[trigger] self@[j]).selected,
            decreases n - i,
        {
            if self.files[i].selected {
                assert(self@[i as int].selected);
                return true;
            }
            i = i + 1;
        }
        false
    }

    /// Sets the selection of the file at `index`.
    pub fn set_selected(&mut self, index: usize, selected: bool)
        requires
            index < old(self)@.len(),
        ensures
            final(self)@ == old(self)@.update(
                index as int,
                StagedFileModel { path: old(self)@[index as int].path, file_size: old(self)@[index as int].file_size, selected },
            ),
    {
        proof { use_type_invariant(&*self); }
        let ghost before = self@;
        let mut this = StagedFiles::new();
        std::mem::swap(self, &mut this);
        let StagedFiles { mut files, total_file_size } = this;
        let path = files[index].path.clone();
        let file_size = files[index].file_size;
        files.set(index, StagedFile { path, file_size, selected });
        let ghost after = files@.map_values(|f: StagedFile| f@);
        assert(after =~= before.update(
            index as int,
            StagedFileModel { path: before[index as int].path, file_size: before[index as int].file_size, selected },
        ));
        assert(total_size(after) == total_size(before)) by {
            lemma_total_size_same_sizes(after, before);
        }
        assert(distinct_paths(after));
        *self = StagedFiles { files, total_file_size };
        assert(self@ =~= before.update(
            index as int,
            StagedFileModel { path: before[index as int].path, file_size: before[index as int].file_size, selected },
        ));
    }

    /// Sets the selection of every staged file.
    fn set_all_selected(&mut self, selected: bool)
        ensures
            final(self)@ == with_selection(old(self)@, selected),
    {
        proof { use_type_invariant(&*self); }
        let ghost before = self@;
        let mut this = StagedFiles::new();
        std::mem::swap(self, &mut this);
        let StagedFiles { files, total_file_size } = this;
        let mut updated: Vec<StagedFile> = Vec::new();
        let n = files.len();
        let mut i: usize = 0;
        while i < n
            invariant
                n == files@.len(),
                before == files@.map_values(|f: StagedFile| f@),
                i <= n,
                updated@.map_values(|f: StagedFile| f@) =~= with_selection(before, selected).take(i as int),
            decreases n - i,
        {
            let path = files[i].path.clone();
            let file_size = files[i].file_size;
            assert(before[i as int] == files@[i as int]@);
            let ghost prev = updated@.map_values(|f: StagedFile| f@);
            updated.push(StagedFile { path, file_size, selected });
            assert(updated@.map_values(|f: StagedFile| f@) =~= prev.push(with_selection(before, selected)[i as int]));
            assert(updated@.map_values(|f: StagedFile| f@) =~= with_selection(before, selected).take(i + 1));
            i = i + 1;
        }
        let ghost after = updated@.map_values(|f: StagedFile| f@);
        assert(after =~= with_selection(before, selected));
        assert(total_size(after) == total_size(before)) by {
            lemma_total_size_same_sizes(after, before);
        }
        assert(distinct_paths(after));
        *self = StagedFiles { files: updated, total_file_size };
    }

    /// Deselects every staged file.
    pub fn deselect_all(&mut self)
        ensures
            final(self)@ == with_selection(old(self)@, false),
    {
        self.set_all_selected(false);
    }

    /// Selects every staged file.
    pub fn select_all(&mut self)
        ensures
            final(self)@ == with_selection(old(self)@, true),
    {
        self.set_all_selected(true);
    }

    /// Whether a staged file has a path equal (as a path) to `path`.
    pub fn contains(&self, path: &str) -> (res: bool)
        ensures
            res == contains_path(self@, path@),
    {
        files_contain(&self.files, path)
    }

    /// The paths among `paths` that `extend_unique` would add: those not
    /// staged already and not the same path as an earlier one of them, in
    /// order. Staging them with their sizes adds each of them.
    pub fn unstaged_paths(&self, paths: &Vec<String>) -> (res: Vec<String>)
        ensures
            texts(res@) == spec_unstaged_paths(self@, texts(paths@)),
    {
        let ghost all = texts(paths@);
        let mut res: Vec<String> = Vec::new();
        assert(all.take(0) =~= Seq::<Seq<char>>::empty());
        assert(texts(res@) =~= spec_unstaged_paths(self@, all.take(0)));
        let n = paths.len();
        let mut i: usize = 0;
        while i < n
            invariant
                n == paths@.len(),
                all == texts(paths@),
                i <= n,
                texts(res@) == spec_unstaged_paths(self@, all.take(i as int)),
            decreases n - i,
        {
            let p = paths[i].clone();
            let ghost prefix = all.take(i + 1);
            assert(prefix.drop_last() =~= all.take(i as int));
            assert(prefix.last() == p@);
            let staged = files_contain(&self.files, p.as_str());
            let earlier = texts_contain(&res, p.as_str());
            assert(staged == contains_path(self@, p@));
            if !staged && !earlier {
                let ghost prev = res@;
                res.push(p);
                assert(texts(res@) =~= texts(prev).push(p@));
            }
            assert(texts(res@) =~= spec_unstaged_paths(self@, prefix));
            i = i + 1;
        }
        assert(all.take(n as int) =~= all);
        res
    }

    /// Stages the given files (path and size in bytes) in order, each selected,
    /// skipping every path equal (as a path) to one staged already, whether
    /// before the call or earlier in `new_files`. The total size grows by the
    /// sizes of the files added.
    pub fn extend_unique(&mut self, new_files: Vec<(String, u64)>)
        requires
            total_size(spec_extend_unique(old(self)@, new_file_views(new_files@))) <= u64::MAX,
        ensures
            final(self)@ == spec_extend_unique(old(self)@, new_file_views(new_files@)),
    {
        proof { use_type_invariant(&*self); }
        let ghost before = self@;
        let ghost nv = new_file_views(new_files@);
        let mut this = StagedFiles::new();
        std::mem::swap(self, &mut this);
        let StagedFiles { mut files, mut total_file_size } = this;
        assert(nv.take(0) =~= Seq::<(Seq<char>, u64)>::empty());
        let n = new_files.len();
        let mut i: usize = 0;
        while i < n
            invariant
                n == new_files@.len(),
                nv == new_file_views(new_files@),
                i <= n,
                files@.map_values(|f: StagedFile| f@) == spec_extend_unique(before, nv.take(i as int)),
                total_file_size == total_size(files@.map_values(|f: StagedFile| f@)),
                distinct_paths(files@.map_values(|f: StagedFile| f@)),
                total_size(spec_extend_unique(before, nv)) <= u64::MAX,
            decreases n - i,
        {
            let ghost cur = files@.map_values(|f: StagedFile| f@);
            let path = new_files[i].0.clone();
            let file_size = new_files[i].1;
            assert(nv.take(i + 1).drop_last() =~= nv.take(i as int));
            assert(nv.take(i + 1).last() == (path@, file_size));
            if !files_contain(&files, path.as_str()) {
                let ghost next = cur.push(StagedFileModel { path: path@, file_size, selected: true });
                assert(next.drop_last() =~= cur);
                proof {
                    lemma_extend_prefix_total(before, nv, i + 1);
                }
                total_file_size = total_file_size + file_size;
                files.push(StagedFile { path, file_size, selected: true });
                assert(files@.map_values(|f: StagedFile| f@) =~= next);
                assert(distinct_paths(next)) by {
                    assert forall|a: int, b: int| 0 <= a < b < next.len() implies
                        !same_path(#[trigger] next[a].path, #[trigger] next[b].path) by {
                        if b < cur.len() {
                            assert(next[a] == cur[a] && next[b] == cur[b]);
                        } else {
                            assert(next[a] == cur[a]);
                        }
                    }
                }
            }
            i = i + 1;
        }
        assert(nv.take(n as int) =~= nv);
        *self = StagedFiles { files, total_file_size };
    }

    /// Whether staging `new_files` with `extend_unique` keeps the total size
    /// within a `u64`.
    fn fits_after_extend(&self, new_files: &Vec<(String, u64)>) -> (res: bool)
        ensures
            res == (total_size(spec_extend_unique(self@, new_file_views(new_files@))) <= u64::MAX),
    {
        proof { use_type_invariant(self); }
        let ghost nv = new_file_views(new_files@);
        let ghost mut added: Seq<StagedFileModel> = Seq::empty();
        let mut added_paths: Vec<String> = Vec::new();
        let mut total: u64 = self.total_file_size;
        assert(nv.take(0) =~= Seq::<(Seq<char>, u64)>::empty());
        assert(self@ + added =~= self@);
        let n = new_files.len();
        let mut i: usize = 0;
        while i < n
            invariant
                n == new_files@.len(),
                nv == new_file_views(new_files@),
                i <= n,
                spec_extend_unique(self@, nv.take(i as int)) == self@ + added,
                texts(added_paths@) == paths_of(added),
                total == total_size(self@ + added),
            decreases n - i,
        {
            let ghost cur = self@ + added;
            let path = new_files[i].0.clone();
            let file_size = new_files[i].1;
            assert(nv.take(i + 1).drop_last() =~= nv.take(i as int));
            assert(nv.take(i + 1).last() == (path@, file_size));
            let in_staged = files_contain(&self.files, path.as_str());
            let in_added = texts_contain(&added_paths, path.as_str());
            proof {
                lemma_contains_path_concat(self@, added, path@);
                assert(texts(added_paths@).len() == added_paths@.len());
                assert(paths_of(added).len() == added.len());
                if in_added {
                    let j = choose|j: int| 0 <= j < added_paths@.len() && same_path(#[trigger] texts(added_paths@)[j], path@);
                    assert(paths_of(added)[j] == added[j].path);
                    assert(contains_path(added, path@));
                }
                if contains_path(added, path@) {
                    let j = choose|j: int| 0 <= j < added.len() && same_path(#[trigger] added[j].path, path@);
                    assert(paths_of(added)[j] == added[j].path);
                    assert(texts(added_paths@)[j] == added[j].path);
                }
            }
            if !in_staged && !in_added {
                let ghost model = StagedFileModel { path: path@, file_size, selected: true };
                let ghost next = cur.push(model);
                assert(next.drop_last() =~= cur);
                match total.checked_add(file_size) {
                    Some(t) => {
                        total = t;
                    },
                    None => {
                        proof {
                            lemma_extend_prefix_total(self@, nv, i + 1);
                        }
                        return false;
                    },
                }
                let ghost old_added = added;
                proof {
                    added = added.push(model);
                    assert(self@ + added =~= next);
                }
                let ghost old_paths = added_paths@;
                added_paths.push(path);
                assert(texts(added_paths@) =~= texts(old_paths).push(model.path));
                assert(paths_of(added) =~= paths_of(old_added).push(model.path));
            }
            i = i + 1;
        }
        assert(nv.take(n as int) =~= nv);
        true
    }

    /// Stages the given files as `extend_unique` does when their total size
    /// stays within a `u64`, and tells whether it did; otherwise nothing changes.
    pub fn try_extend_unique(&mut self, new_files: Vec<(String, u64)>) -> (res: bool)
        ensures
            res == (total_size(spec_extend_unique(old(self)@, new_file_views(new_files@))) <= u64::MAX),
            res ==> final(self)@ == spec_extend_unique(old(self)@, new_file_views(new_files@)),
            !res ==> final(self)@ == old(self)@,
    {
        if self.fits_after_extend(&new_files) {
            self.extend_unique(new_files);
            true
        } else {
            false
        }
    }

    /// Removes every selected file; the total size becomes the sum of the sizes
    /// of the files that stay.
    pub fn remove_selected(&mut self)
        ensures
            final(self)@ == old(self)@.filter(unselected_pred()),
    {
        proof { use_type_invariant(&*self); }
        let ghost before = self@;
        let ghost pred = unselected_pred();
        let mut this = StagedFiles::new();
        std::mem::swap(self, &mut this);
        let StagedFiles { files, total_file_size } = this;
        let mut kept: Vec<StagedFile> = Vec::new();
        let mut kept_size: u64 = 0;
        assert(before.take(0) =~= Seq::<StagedFileModel>::empty());
        proof { reveal_with_fuel(Seq::filter, 1); }
        let n = files.len();
        let mut i: usize = 0;
        while i < n
            invariant
                n == files@.len(),
                before == files@.map_values(|f: StagedFile| f@),
                pred == unselected_pred(),
                distinct_paths(before),
                total_size(before) <= u64::MAX,
                i <= n,
                kept@.map_values(|f: StagedFile| f@) == before.take(i as int).filter(pred),
                kept_size == total_size(kept@.map_values(|f: StagedFile| f@)),
                kept_size <= total_size(before.take(i as int)),
                distinct_paths(kept@.map_values(|f: StagedFile| f@)),
                forall|k: int| 0 <= k < kept@.len() ==> exists|j: int| 0 <= j < i && (#[trigger] kept@[k])@ == before[j],
            decreases n - i,
        {
            let ghost cur = kept@.map_values(|f: StagedFile| f@);
            let ghost prefix = before.take(i + 1);
            assert(prefix.drop_last() =~= before.take(i as int));
            assert(prefix.last() == before[i as int]);
            assert(before[i as int] == files@[i as int]@);
            assert(total_size(before.take(i as int)) + before[i as int].file_size <= total_size(before)) by {
                lemma_total_size_prefix(before, i + 1);
            }
            proof { reveal_with_fuel(Seq::filter, 1); }
            if !files[i].selected {
                let path = files[i].path.clone();
                let file_size = files[i].file_size;
                let ghost next = cur.push(before[i as int]);
                assert(next.drop_last() =~= cur);
                kept_size = kept_size + file_size;
                kept.push(StagedFile { path, file_size, selected: false });
                assert(kept@.map_values(|f: StagedFile| f@) =~= next);
                assert(distinct_paths(next)) by {
                    assert forall|a: int, b: int| 0 <= a < b < next.len() implies
                        !same_path(#[trigger] next[a].path, #[trigger] next[b].path) by {
                        if b < cur.len() {
                            assert(next[a] == cur[a] && next[b] == cur[b]);
                        } else {
                            assert(next[a] == cur[a]);
                            assert(kept@[a]@ == cur[a]);
                            let j = choose|j: int| 0 <= j < i && (#[trigger] kept@[a])@ == before[j];
                            assert(!same_path(before[j].path, before[i as int].path));
                        }
                    }
                }
                assert forall|k: int| 0 <= k < kept@.len() implies
                    exists|j: int| 0 <= j < i + 1 && (#[trigger] kept@[k])@ == before[j] by {
                    if k == cur.len() {
                        assert(kept@[k]@ == before[i as int]);
                    }
                }
            }
            i = i + 1;
        }
        assert(before.take(n as int) =~= before);
        *self = StagedFiles { files: kept, total_file_size: kept_size };
    }

    /// The paths of the selected files, in staging order: what an installation
    /// started now would send.
    pub fn selected_paths(&self) -> (res: Vec<String>)
        ensures
            texts(res@) == paths_of(self@.filter(selected_pred())),
    {
        let ghost all = self@;
        let ghost pred = selected_pred();
        let mut res: Vec<String> = Vec::new();
        assert(all.take(0) =~= Seq::<StagedFileModel>::empty());
        proof { reveal_with_fuel(Seq::filter, 1); }
        assert(texts(res@) =~= paths_of(all.take(0).filter(pred)));
        let n = self.files.len();
        let mut i: usize = 0;
        while i < n
            invariant
                n == all.len(),
                all == self@,
                pred == selected_pred(),
                i <= n,
                texts(res@) == paths_of(all.take(i as int).filter(pred)),
            decreases n - i,
        {
            let ghost cur = all.take(i as int).filter(pred);
            let ghost prefix = all.take(i + 1);
            assert(prefix.drop_last() =~= all.take(i as int));
            assert(prefix.last() == all[i as int]);
            proof { reveal_with_fuel(Seq::filter, 1); }
            if self.files[i].selected {
                let path = self.files[i].path.clone();
                assert(all[i as int] == self.files@[i as int]@);
                assert(path@ == all[i as int].path);
                let ghost old_res = res@;
                res.push(path);
                assert(res@ == old_res.push(path));
                assert(texts(res@) =~= texts(old_res).push(path@));
                assert(paths_of(cur.push(all[i as int])) =~= paths_of(cur).push(all[i as int].path));
                assert(texts(res@) =~= paths_of(cur.push(all[i as int])));
            }
            i = i + 1;
        }
        assert(all.take(n as int) =~= all);
        res
    }

    /// The number of selected files.
    pub fn selected_count(&self) -> (res: usize)
        ensures
            res == self@.filter(selected_pred()).len(),
    {
        let ghost all = self@;
        let ghost pred = selected_pred();
        let mut count: usize = 0;
        assert(all.take(0) =~= Seq::<StagedFileModel>::empty());
        proof { reveal_with_fuel(Seq::filter, 1); }
        let n = self.files.len();
        let mut i: usize = 0;
        while i < n
            invariant
                n == all.len(),
                all == self@,
                pred == selected_pred(),
                i <= n,
                count == all.take(i as int).filter(pred).len(),
                count <= i,
            decreases n - i,
        {
            let ghost prefix = all.take(i + 1);
            assert(prefix.drop_last() =~= all.take(i as int));
            assert(prefix.last() == all[i as int]);
            proof { reveal_with_fuel(Seq::filter, 1); }
            if self.files[i].selected {
                count = count + 1;
            }
            i = i + 1;
        }
        assert(all.take(n as int) =~= all);
        count
    }

    /// The sum of the sizes of the selected files.
    pub fn selected_size(&self) -> (res: u64)
        ensures
            res == total_size(self@.filter(selected_pred())),
    {
        proof { use_type_invariant(self); }
        let ghost all = self@;
        let ghost pred = selected_pred();
        let mut size: u64 = 0;
        assert(all.take(0) =~= Seq::<StagedFileModel>::empty());
        proof { reveal_with_fuel(Seq::filter, 1); }
        let n = self.files.len();
        let mut i: usize = 0;
        while i < n
            invariant
                n == all.len(),
                all == self@,
                pred == selected_pred(),
                total_size(all) <= u64::MAX,
                i <= n,
                size == total_size(all.take(i as int).filter(pred)),
                size <= total_size(all.take(i as int)),
            decreases n - i,
        {
            let ghost cur = all.take(i as int).filter(pred);
            let ghost prefix = all.take(i + 1);
            assert(prefix.drop_last() =~= all.take(i as int));
            assert(prefix.last() == all[i as int]);
            proof {
                reveal_with_fuel(Seq::filter, 1);
                lemma_total_size_prefix(all, i + 1);
            }
            if self.files[i].selected {
                assert(cur.push(all[i as int]).drop_last() =~= cur);
                size = size + self.files[i].file_size;
            }
            i = i + 1;
        }
        assert(all.take(n as int) =~= all);
        size
    }

    /// The sum of the sizes of all staged files.
    pub fn total_file_size(&self) -> (res: u64)
        ensures
            res == total_size(self@),
    {
        proof { use_type_invariant(self); }
        self.total_file_size
    }

    /// The path of the file at `index`.
    pub fn path_at(&self, index: usize) -> (res: &str)
        requires
            index < self@.len(),
        ensures
            res@ == self@[index as int].path,
    {
        self.files[index].path.as_str()
    }

    /// The size in bytes of the file at `index`.
    pub fn file_size_at(&self, index: usize) -> (res: u64)
        requires
            index < self@.len(),
        ensures
            res == self@[index as int].file_size,
    {
        self.files[index].file_size
    }

    /// Whether the file at `index` is selected.
    pub fn is_selected_at(&self, index: usize) -> (res: bool)
        requires
            index < self@.len(),
        ensures
            res == self@[index as int].selected,
    {
        self.files[index].selected
    }

    /// The size of the file at `index`, formatted with binary units.
    pub fn file_size_label_at(&self, index: usize) -> (res: String)
        requires
            index < self@.len(),
        ensures
            res@ == spec_format_size_binary(self@[index as int].file_size),
    {
        format_size_binary(self.files[index].file_size)
    }

    /// The sum of the sizes of the selected files, formatted with binary units.
    pub fn selected_size_label(&self) -> (res: String)
        ensures
            res@ == spec_format_size_binary(total_size(self@.filter(selected_pred())) as u64),
    {
        format_size_binary(self.selected_size())
    }
}

impl Default for StagedFiles {
    /// An empty list.
    fn default() -> (res: StagedFiles)
        ensures
            res@ == Seq::<StagedFileModel>::empty(),
    {
        StagedFiles::new()
    }
}

} // verus!
