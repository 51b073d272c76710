//! The scan of one directory: what came of reading each file is judged on
//! the thread pool, independently of the others, and the paths of the files
//! to delete are gathered.

use crate::classify::{Config, Mode, Reason, Verdict};
use crate::decoded::{judge_loaded, verdict_of_loaded};
use crate::error::Error;
use crate::parallel::par_map;
use image::DynamicImage;
use vstd::prelude::*;

verus! {

/// One entry of the directory: its path, and what reading the file as an
/// image gave.
pub struct FileEntry {
    pub path: String,
    pub loaded: Result<DynamicImage, Error>,
}

/// The verdict on one entry: a file that did not decode is deleted as a decode
/// failure, an image is judged by its pixels.
pub open spec fn verdict_of_entry(entry: FileEntry, mode: Mode) -> Verdict {
    verdict_of_loaded(entry.loaded, mode)
}

/// The verdicts on `entries`, one for each and in their order.
pub open spec fn verdicts_of(entries: Seq<FileEntry>, mode: Mode) -> Seq<Verdict> {
    Seq::new(entries.len(), |i: int| verdict_of_entry(entries[i], mode))
}

/// The paths among the first `k` whose verdict is to delete, in their order.
pub open spec fn condemned(paths: Seq<Seq<char>>, verdicts: Seq<Verdict>, k: int) -> Seq<Seq<char>>
    decreases k,
{
    if k <= 0 {
        Seq::empty()
    } else if verdicts[k - 1] is Delete {
        condemned(paths, verdicts, k - 1).push(paths[k - 1])
    } else {
        condemned(paths, verdicts, k - 1)
    }
}

/// The paths of `entries`, in their order.
pub open spec fn paths_of(entries: Seq<FileEntry>) -> Seq<Seq<char>> {
    Seq::new(entries.len(), |i: int| entries[i].path@)
}

/// The texts of `strings`, in their order.
pub open spec fn texts_of(strings: Seq<String>) -> Seq<Seq<char>> {
    Seq::new(strings.len(), |i: int| strings[i]@)
}

/// Whether the first `k` entries have a deleted one of the path `path`.
pub open spec fn deleted_among(
    paths: Seq<Seq<char>>,
    verdicts: Seq<Verdict>,
    k: int,
    path: Seq<char>,
) -> bool {
    exists|i: int| 0 <= i < k && #[trigger] verdicts[i] is Delete && paths[i] == path
}

/// A path is selected exactly when an entry of that path is deleted: what
/// becomes of the other entries has no part in it.
pub proof fn lemma_condemned_are_the_deleted(
    paths: Seq<Seq<char>>,
    verdicts: Seq<Verdict>,
    k: int,
    path: Seq<char>,
)
    requires
        0 <= k <= paths.len(),
        k <= verdicts.len(),
    ensures
        condemned(paths, verdicts, k).contains(path) <==> deleted_among(paths, verdicts, k, path),
        condemned(paths, verdicts, k).len() <= k,
    decreases k,
{
    if k > 0 {
        lemma_condemned_are_the_deleted(paths, verdicts, k - 1, path);
        let before = condemned(paths, verdicts, k - 1);
        let after = condemned(paths, verdicts, k);
        if verdicts[k - 1] is Delete {
            assert(after == before.push(paths[k - 1]));
            if after.contains(path) {
                let j = choose|j: int| 0 <= j < after.len() && after[j] == path;
                if j < before.len() {
                    assert(before[j] == path);
                    assert(before.contains(path));
                    let i = choose|i: int|
                        0 <= i < k - 1 && #[trigger] verdicts[i] is Delete && paths[i] == path;
                    assert(0 <= i < k && verdicts[i] is Delete && paths[i] == path);
                } else {
                    assert(verdicts[k - 1] is Delete && paths[k - 1] == path);
                }
            }
            if deleted_among(paths, verdicts, k, path) {
                let i = choose|i: int|
                    0 <= i < k && #[trigger] verdicts[i] is Delete && paths[i] == path;
                if i < k - 1 {
                    assert(deleted_among(paths, verdicts, k - 1, path));
                    let j = choose|j: int| 0 <= j < before.len() && before[j] == path;
                    assert(after[j] == path);
                } else {
                    assert(after[before.len() as int] == path);
                }
            }
        } else {
            if deleted_among(paths, verdicts, k, path) {
                let i = choose|i: int|
                    0 <= i < k && #[trigger] verdicts[i] is Delete && paths[i] == path;
                assert(0 <= i < k - 1 && verdicts[i] is Delete && paths[i] == path);
            }
            if before.contains(path) {
                let i = choose|i: int|
                    0 <= i < k - 1 && #[trigger] verdicts[i] is Delete && paths[i] == path;
                assert(0 <= i < k && verdicts[i] is Delete && paths[i] == path);
            }
        }
    }
}

/// Where no two entries have the same path, no path is selected twice.
pub proof fn lemma_condemned_once(paths: Seq<Seq<char>>, verdicts: Seq<Verdict>, k: int)
    requires
        0 <= k <= paths.len(),
        k <= verdicts.len(),
        forall|i: int, j: int| 0 <= i < j < k ==> paths[i] != paths[j],
    ensures
        condemned(paths, verdicts, k).no_duplicates(),
    decreases k,
{
    if k > 0 {
        lemma_condemned_once(paths, verdicts, k - 1);
        let before = condemned(paths, verdicts, k - 1);
        if verdicts[k - 1] is Delete {
            lemma_condemned_are_the_deleted(paths, verdicts, k - 1, paths[k - 1]);
            if before.contains(paths[k - 1]) {
                let i = choose|i: int|
                    0 <= i < k - 1 && #[trigger] verdicts[i] is Delete && paths[i] == paths[k - 1];
                assert(paths[i] != paths[k - 1]);
            }
            let after = before.push(paths[k - 1]);
            assert forall|i: int, j: int|
                0 <= i < after.len() && 0 <= j < after.len() && i != j implies #[trigger] after[i]
                != #[trigger] after[j] by {
                if i < before.len() && j < before.len() {
                    assert(before[i] != before[j]);
                } else if i < before.len() {
                    assert(before.contains(before[i]));
                } else {
                    assert(before.contains(before[j]));
                }
            }
        }
    }
}

/// Judges one entry of the directory.
pub fn inspect(entry: &FileEntry, config: &Config) -> (verdict: Verdict)
    ensures
        verdict == verdict_of_entry(*entry, config.mode),
        entry.loaded is Err ==> verdict == Verdict::Delete(Reason::DecodeFailure),
{
    judge_loaded(&entry.loaded, config)
}

/// The paths of the entries whose verdict is to delete, in the order of the
/// entries.
pub fn select(entries: &Vec<FileEntry>, verdicts: &Vec<Verdict>) -> (doomed: Vec<String>)
    requires
        verdicts@.len() == entries@.len(),
    ensures
        texts_of(doomed@) == condemned(paths_of(entries@), verdicts@, entries@.len() as int),
{
    let mut doomed: Vec<String> = Vec::new();
    let mut i: usize = 0;
    while i < entries.len()
        invariant
            i <= entries@.len(),
            verdicts@.len() == entries@.len(),
            texts_of(doomed@) == condemned(paths_of(entries@), verdicts@, i as int),
        decreases entries@.len() - i,
    {
        if verdicts[i].is_delete() {
            let ghost before = texts_of(doomed@);
            doomed.push(entries[i].path.clone());
            assert(texts_of(doomed@) =~= before.push(paths_of(entries@)[i as int]));
        }
        i += 1;
    }
    doomed
}

/// Judges every entry of a directory on the thread pool, each on its own:
/// whatever becomes of one file, the others are judged as if it were not there.
pub fn survey(entries: &Vec<FileEntry>, config: &Config) -> (verdicts: Vec<Verdict>)
    ensures
        verdicts@ == verdicts_of(entries@, config.mode),
{
    let inspect_entry = |i: usize| -> (verdict: Verdict)
        requires
            i < entries@.len(),
        ensures
            verdict == verdict_of_entry(entries@[i as int], config.mode),
        {
            inspect(&entries[i], config)
        };
    let verdicts = par_map(entries.len(), inspect_entry);
    proof {
        assert forall|i: int| 0 <= i < entries@.len() implies verdicts@[i] == verdict_of_entry(
            entries@[i],
            config.mode,
        ) by {
            assert(call_ensures(inspect_entry, (i as usize,), verdicts@[i]));
        }
        assert(verdicts@ =~= verdicts_of(entries@, config.mode));
    }
    verdicts
}

/// The paths that a run over `entries` selects.
pub open spec fn doomed_of(entries: Seq<FileEntry>, mode: Mode) -> Seq<Seq<char>> {
    condemned(paths_of(entries), verdicts_of(entries, mode), entries.len() as int)
}

/// Selects the files to delete among the entries of a directory.
///
/// `listing` is what listing the directory gave: its entries, or nothing
/// where it could not be listed, which fails the whole run. A file that
/// could not be read or decoded fails nothing: it is one of the files to
/// delete.
pub fn clean(listing: &Option<Vec<FileEntry>>, config: &Config) -> (outcome: Result<
    Vec<String>,
    Error,
>)
    ensures
        match (listing, outcome) {
            (None, Err(e)) => e == Error::DirectoryUnreadable,
            (Some(entries), Ok(doomed)) => texts_of(doomed@) == doomed_of(entries@, config.mode),
            _ => false,
        },
{
    match listing {
        None => Err(Error::DirectoryUnreadable),
        Some(entries) => {
            let verdicts = survey(entries, config);
            Ok(select(entries, &verdicts))
        },
    }
}

/// A file that did not decode is among the selected, whatever the other
/// files of the directory are.
pub proof fn lemma_failures_are_selected(entries: Seq<FileEntry>, mode: Mode, i: int)
    requires
        0 <= i < entries.len(),
        entries[i].loaded is Err,
    ensures
        verdict_of_entry(entries[i], mode) == Verdict::Delete(Reason::DecodeFailure),
        doomed_of(entries, mode).contains(entries[i].path@),
{
    let paths = paths_of(entries);
    let verdicts = verdicts_of(entries, mode);
    lemma_condemned_are_the_deleted(paths, verdicts, entries.len() as int, paths[i]);
    assert(verdicts[i] is Delete && paths[i] == entries[i].path@);
}

/// Where no two entries have the same path, no path is selected twice, and a
/// path is selected exactly when the verdict on its own entry is to delete.
pub proof fn lemma_selection_is_per_file(entries: Seq<FileEntry>, mode: Mode)
    requires
        forall|i: int, j: int|
            0 <= i < j < entries.len() ==> entries[i].path@ != entries[j].path@,
    ensures
        doomed_of(entries, mode).no_duplicates(),
        forall|i: int|
            0 <= i < entries.len() ==> (doomed_of(entries, mode).contains(
                #[trigger] entries[i].path@,
            ) <==> verdict_of_entry(entries[i], mode) is Delete),
{
    let n = entries.len() as int;
    let paths = paths_of(entries);
    let verdicts = verdicts_of(entries, mode);
    lemma_condemned_once(paths, verdicts, n);
    assert forall|i: int| 0 <= i < n implies (doomed_of(entries, mode).contains(
        #[trigger] entries[i].path@,
    ) <==> verdict_of_entry(entries[i], mode) is Delete) by {
        lemma_condemned_are_the_deleted(paths, verdicts, n, paths[i]);
        if deleted_among(paths, verdicts, n, paths[i]) {
            let j = choose|j: int|
                0 <= j < n && #[trigger] verdicts[j] is Delete && paths[j] == paths[i];
            if j < i {
                assert(entries[j].path@ != entries[i].path@);
            } else if i < j {
                assert(entries[i].path@ != entries[j].path@);
            }
            assert(j == i);
        }
        if verdicts[i] is Delete {
            assert(verdicts[i] is Delete && paths[i] == paths[i]);
        }
    }
}

/// The selection reads no more of the paths and verdicts than the first `k`.
proof fn lemma_condemned_reads_a_prefix(
    paths: Seq<Seq<char>>,
    verdicts: Seq<Verdict>,
    other_paths: Seq<Seq<char>>,
    other_verdicts: Seq<Verdict>,
    k: int,
)
    requires
        forall|i: int| 0 <= i < k ==> paths[i] == other_paths[i],
        forall|i: int| 0 <= i < k ==> verdicts[i] == other_verdicts[i],
    ensures
        condemned(paths, verdicts, k) == condemned(other_paths, other_verdicts, k),
    decreases k,
{
    if k > 0 {
        lemma_condemned_reads_a_prefix(paths, verdicts, other_paths, other_verdicts, k - 1);
        assert(paths[k - 1] == other_paths[k - 1]);
        assert(verdicts[k - 1] == other_verdicts[k - 1]);
    }
}

/// The selection among the entries of one batch followed by the first `k` of
/// another is the selection among the first batch followed by the selection
/// among those `k`.
proof fn lemma_condemned_of_two(first: Seq<FileEntry>, rest: Seq<FileEntry>, mode: Mode, k: int)
    requires
        0 <= k <= rest.len(),
    ensures
        condemned(
            paths_of(first + rest),
            verdicts_of(first + rest, mode),
            first.len() + k,
        ) == doomed_of(first, mode) + condemned(paths_of(rest), verdicts_of(rest, mode), k),
    decreases k,
{
    let n = first.len() as int;
    let paths = paths_of(first + rest);
    let verdicts = verdicts_of(first + rest, mode);
    if k > 0 {
        lemma_condemned_of_two(first, rest, mode, k - 1);
        let ahead = condemned(paths_of(rest), verdicts_of(rest, mode), k - 1);
        assert((first + rest)[n + k - 1] == rest[k - 1]);
        assert(paths[n + k - 1] == paths_of(rest)[k - 1]);
        assert(verdicts[n + k - 1] == verdicts_of(rest, mode)[k - 1]);
        assert((doomed_of(first, mode) + ahead).push(paths_of(rest)[k - 1]) =~= doomed_of(
            first,
            mode,
        ) + ahead.push(paths_of(rest)[k - 1]));
    } else {
        assert forall|i: int| 0 <= i < n implies paths[i] == paths_of(first)[i] && verdicts[i]
            == verdicts_of(first, mode)[i] by {
            assert((first + rest)[i] == first[i]);
        }
        lemma_condemned_reads_a_prefix(
            paths,
            verdicts,
            paths_of(first),
            verdicts_of(first, mode),
            n,
        );
        assert(doomed_of(first, mode) + Seq::<Seq<char>>::empty() =~= doomed_of(first, mode));
    }
}

/// A directory can be cleaned batch by batch: the selection among the entries
/// of two batches, one after the other, is the selection among the first
/// followed by the selection among the second.
pub proof fn lemma_clean_in_batches(first: Seq<FileEntry>, rest: Seq<FileEntry>, mode: Mode)
    ensures
        doomed_of(first + rest, mode) == doomed_of(first, mode) + doomed_of(rest, mode),
{
    lemma_condemned_of_two(first, rest, mode, rest.len() as int);
}

} // verus!
