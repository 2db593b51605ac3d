use vstd::prelude::*;
use crate::archive::EntryModel;
use crate::fsmodel::FsView;
use crate::installer::{StepFailure, run, run_from, step};
use crate::paths::{PathSpec, entry_components, in_replace_set, is_dir_name};

verus! {

/// The contents at `p`, if a file is there.
pub open spec fn file_at(fs: FsView, p: PathSpec) -> Option<Seq<u8>> {
    if fs.files.contains_key(p) {
        Some(fs.files[p])
    } else {
        None
    }
}

/// The contents entry `e` would write at `p`: `e` must be a
/// regular-file entry whose name safely resolves to `p`.
pub open spec fn entry_file_at(e: EntryModel, p: PathSpec) -> Option<Seq<u8>> {
    match e {
        EntryModel::File { name, data } => {
            if !is_dir_name(name) && entry_components(name) == Some(p) && p.len() > 0 {
                Some(data)
            } else {
                None
            }
        },
        _ => None,
    }
}

/// Whether `e` is a regular-file or corrupt entry whose name safely
/// resolves to `p`.
pub open spec fn entry_touches(e: EntryModel, p: PathSpec) -> bool {
    match e {
        EntryModel::File { name, data } => !is_dir_name(name) && entry_components(name) == Some(p)
            && p.len() > 0,
        EntryModel::Corrupt { name } => !is_dir_name(name) && entry_components(name) == Some(p)
            && p.len() > 0,
        EntryModel::Unreadable => false,
    }
}

/// The path a corrupt entry would have been written to, if any.
pub open spec fn corrupt_target(e: EntryModel) -> Option<PathSpec> {
    match e {
        EntryModel::Corrupt { name } => {
            if !is_dir_name(name) && entry_components(name) is Some && entry_components(
                name,
            ).unwrap().len() > 0 {
                entry_components(name)
            } else {
                None
            }
        },
        _ => None,
    }
}

proof fn lemma_step_files_frame(fs: FsView, e: EntryModel, p: PathSpec)
    requires
        !entry_touches(e, p),
    ensures
        file_at(step(fs, e).1, p) == file_at(fs, p),
{
}

/// A path that no archive entry resolves to is left exactly as it was:
/// a file there keeps its contents, and no file appears there. In
/// particular, files that exist locally but are absent from the archive
/// are not deleted, in or out of the replace-set. This holds for failed
/// installs too.
pub proof fn lemma_untouched_path_unchanged_from(
    fs: FsView,
    es: Seq<EntryModel>,
    i: int,
    p: PathSpec,
)
    requires
        0 <= i <= es.len(),
        forall|j: int| i <= j < es.len() ==> !entry_touches(es[j], p),
    ensures
        file_at(run_from(fs, es, i).1, p) == file_at(fs, p),
    decreases es.len() - i,
{
    if i < es.len() {
        lemma_step_files_frame(fs, es[i], p);
        match step(fs, es[i]) {
            (Some(k), fs1) => {},
            (None, fs1) => {
                lemma_untouched_path_unchanged_from(fs1, es, i + 1, p);
            },
        }
    }
}

/// The law above, for a whole run.
pub proof fn lemma_untouched_path_unchanged(fs: FsView, es: Seq<EntryModel>, p: PathSpec)
    requires
        forall|j: int| 0 <= j < es.len() ==> !entry_touches(es[j], p),
    ensures
        file_at(run(fs, es).1, p) == file_at(fs, p),
{
    lemma_untouched_path_unchanged_from(fs, es, 0, p);
}

/// An existing file outside the replace-set always wins: an install,
/// failed or not, never overwrites and never removes it, whether or not
/// the archive carries an entry for its path.
pub proof fn lemma_preserved_outside_replace_set_from(
    fs: FsView,
    es: Seq<EntryModel>,
    i: int,
    p: PathSpec,
)
    requires
        0 <= i <= es.len(),
        !in_replace_set(p),
        fs.files.contains_key(p),
    ensures
        file_at(run_from(fs, es, i).1, p) == file_at(fs, p),
    decreases es.len() - i,
{
    if i < es.len() {
        if !entry_touches(es[i], p) {
            lemma_step_files_frame(fs, es[i], p);
        }
        match step(fs, es[i]) {
            (Some(k), fs1) => {
                assert(file_at(fs1, p) == file_at(fs, p));
            },
            (None, fs1) => {
                assert(file_at(fs1, p) == file_at(fs, p));
                assert(fs1.files.contains_key(p));
                lemma_preserved_outside_replace_set_from(fs1, es, i + 1, p);
            },
        }
    }
}

/// The law above, for a whole run.
pub proof fn lemma_preserved_outside_replace_set(fs: FsView, es: Seq<EntryModel>, p: PathSpec)
    requires
        !in_replace_set(p),
        fs.files.contains_key(p),
    ensures
        run(fs, es).1.files.contains_key(p),
        run(fs, es).1.files[p] == fs.files[p],
{
    lemma_preserved_outside_replace_set_from(fs, es, 0, p);
}

/// Replace-set paths mirror the archive: after a successful install,
/// a replace-set path carries the bytes of the last archive entry that
/// resolves to it, whatever was there before.
pub proof fn lemma_replace_set_mirrors_archive_from(
    fs: FsView,
    es: Seq<EntryModel>,
    i: int,
    t: int,
    p: PathSpec,
)
    requires
        0 <= i <= t < es.len(),
        run_from(fs, es, i).0 is None,
        in_replace_set(p),
        entry_file_at(es[t], p) is Some,
        forall|j: int| t < j < es.len() ==> !entry_touches(es[j], p),
    ensures
        file_at(run_from(fs, es, i).1, p) == entry_file_at(es[t], p),
    decreases t - i,
{
    match step(fs, es[i]) {
        (Some(k), fs1) => {
            assert(false);
        },
        (None, fs1) => {
            if i == t {
                assert(file_at(fs1, p) == entry_file_at(es[t], p));
                lemma_untouched_path_unchanged_from(fs1, es, i + 1, p);
            } else {
                lemma_replace_set_mirrors_archive_from(fs1, es, i + 1, t, p);
            }
        },
    }
}

/// The law above, for a whole run.
pub proof fn lemma_replace_set_mirrors_archive(
    fs: FsView,
    es: Seq<EntryModel>,
    t: int,
    p: PathSpec,
)
    requires
        run(fs, es).0 is None,
        in_replace_set(p),
        0 <= t < es.len(),
        entry_file_at(es[t], p) is Some,
        forall|j: int| t < j < es.len() ==> !entry_touches(es[j], p),
    ensures
        run(fs, es).1.files.contains_key(p),
        run(fs, es).1.files[p] == entry_file_at(es[t], p).unwrap(),
{
    lemma_replace_set_mirrors_archive_from(fs, es, 0, t, p);
}

/// A path outside the replace-set where no file exists yet receives the
/// bytes of the first archive entry that resolves to it, after a
/// successful install.
pub proof fn lemma_new_file_first_write_from(
    fs: FsView,
    es: Seq<EntryModel>,
    i: int,
    t: int,
    p: PathSpec,
)
    requires
        0 <= i <= t < es.len(),
        run_from(fs, es, i).0 is None,
        !in_replace_set(p),
        !fs.files.contains_key(p),
        entry_file_at(es[t], p) is Some,
        forall|j: int| i <= j < t ==> entry_file_at(es[j], p) is None,
    ensures
        file_at(run_from(fs, es, i).1, p) == entry_file_at(es[t], p),
    decreases t - i,
{
    match step(fs, es[i]) {
        (Some(k), fs1) => {
            assert(false);
        },
        (None, fs1) => {
            if i == t {
                assert(file_at(fs1, p) == entry_file_at(es[t], p));
                assert(fs1.files.contains_key(p));
                lemma_preserved_outside_replace_set_from(fs1, es, i + 1, p);
            } else {
                // A corrupt entry resolving to `p` would have failed here,
                // since no file exists at `p` yet; a file entry for `p` is
                // ruled out until `t`. So this entry leaves `p` alone.
                if entry_touches(es[i], p) {
                    assert(false);
                }
                lemma_step_files_frame(fs, es[i], p);
                lemma_new_file_first_write_from(fs1, es, i + 1, t, p);
            }
        },
    }
}

/// The law above, for a whole run.
pub proof fn lemma_new_file_first_write(fs: FsView, es: Seq<EntryModel>, t: int, p: PathSpec)
    requires
        run(fs, es).0 is None,
        !in_replace_set(p),
        !fs.files.contains_key(p),
        0 <= t < es.len(),
        entry_file_at(es[t], p) is Some,
        forall|j: int| 0 <= j < t ==> entry_file_at(es[j], p) is None,
    ensures
        run(fs, es).1.files.contains_key(p),
        run(fs, es).1.files[p] == entry_file_at(es[t], p).unwrap(),
{
    lemma_new_file_first_write_from(fs, es, 0, t, p);
}

/// A corrupt entry aborts the install and leaves no partial output: the
/// failing entry's path holds no file afterwards, not even one that was
/// there before the install.
pub proof fn lemma_corrupt_error_cleans_up_from(fs: FsView, es: Seq<EntryModel>, i: int, j: int)
    requires
        0 <= i <= es.len(),
        run_from(fs, es, i).0 == Some((j, StepFailure::Corrupt)),
    ensures
        i <= j < es.len(),
        corrupt_target(es[j]) is Some,
        !run_from(fs, es, i).1.files.contains_key(corrupt_target(es[j]).unwrap()),
    decreases es.len() - i,
{
    match step(fs, es[i]) {
        (Some(k), fs1) => {
            assert(j == i);
        },
        (None, fs1) => {
            lemma_corrupt_error_cleans_up_from(fs1, es, i + 1, j);
        },
    }
}

/// The law above, for a whole run.
pub proof fn lemma_corrupt_error_cleans_up(fs: FsView, es: Seq<EntryModel>, j: int)
    requires
        run(fs, es).0 == Some((j, StepFailure::Corrupt)),
    ensures
        0 <= j < es.len(),
        corrupt_target(es[j]) is Some,
        !run(fs, es).1.files.contains_key(corrupt_target(es[j]).unwrap()),
{
    lemma_corrupt_error_cleans_up_from(fs, es, 0, j);
}

/// The directories one entry creates: they depend on the entry alone.
pub open spec fn step_dirs(e: EntryModel) -> Set<PathSpec> {
    match e {
        EntryModel::File { name, data } => name_dirs(name),
        EntryModel::Corrupt { name } => name_dirs(name),
        EntryModel::Unreadable => Set::empty(),
    }
}

/// The directories an entry of name `name` creates.
pub open spec fn name_dirs(name: Seq<u8>) -> Set<PathSpec> {
    match entry_components(name) {
        Option::None => Set::empty(),
        Option::Some(p) => {
            if is_dir_name(name) {
                crate::fsmodel::path_prefixes(p)
            } else if p.len() == 0 {
                Set::empty()
            } else {
                crate::fsmodel::path_prefixes(p.drop_last())
            }
        },
    }
}

proof fn lemma_step_dirs(fs: FsView, e: EntryModel)
    ensures
        step(fs, e).1.dirs == fs.dirs + step_dirs(e),
{
    assert(step(fs, e).1.dirs =~= fs.dirs + step_dirs(e));
}

/// In a successful run no file disappears: every path with a file keeps
/// one.
proof fn lemma_success_keeps_files_from(fs: FsView, es: Seq<EntryModel>, i: int, p: PathSpec)
    requires
        0 <= i <= es.len(),
        run_from(fs, es, i).0 is None,
        fs.files.contains_key(p),
    ensures
        run_from(fs, es, i).1.files.contains_key(p),
    decreases es.len() - i,
{
    if i < es.len() {
        match step(fs, es[i]) {
            (Some(k), fs1) => {
                assert(false);
            },
            (None, fs1) => {
                assert(fs1.files.contains_key(p));
                lemma_success_keeps_files_from(fs1, es, i + 1, p);
            },
        }
    }
}

/// A successful run leaves a file at every path some file entry
/// resolves to.
proof fn lemma_file_target_written_from(fs: FsView, es: Seq<EntryModel>, i: int, t: int, p: PathSpec)
    requires
        0 <= i <= t < es.len(),
        run_from(fs, es, i).0 is None,
        entry_file_at(es[t], p) is Some,
    ensures
        run_from(fs, es, i).1.files.contains_key(p),
    decreases t - i,
{
    match step(fs, es[i]) {
        (Some(k), fs1) => {
            assert(false);
        },
        (None, fs1) => {
            if i == t {
                assert(fs1.files.contains_key(p));
                lemma_success_keeps_files_from(fs1, es, i + 1, p);
            } else {
                lemma_file_target_written_from(fs1, es, i + 1, t, p);
            }
        },
    }
}

/// After a successful run, every obstruction a second run could meet is
/// gone: there is no unreadable entry, and every corrupt entry resolves
/// to a path outside the replace-set where a file now exists.
proof fn lemma_success_clears_obstructions_from(fs: FsView, es: Seq<EntryModel>, i: int)
    requires
        0 <= i <= es.len(),
        run_from(fs, es, i).0 is None,
    ensures
        forall|j: int| i <= j < es.len() ==> !(es[j] is Unreadable),
        forall|j: int|
            i <= j < es.len() ==> (#[trigger] corrupt_target(es[j]) matches Some(p)
                ==> !in_replace_set(p) && run_from(fs, es, i).1.files.contains_key(p)),
    decreases es.len() - i,
{
    if i < es.len() {
        match step(fs, es[i]) {
            (Some(k), fs1) => {
                assert(false);
            },
            (None, fs1) => {
                lemma_success_clears_obstructions_from(fs1, es, i + 1);
                if corrupt_target(es[i]) is Some {
                    let p = corrupt_target(es[i]).unwrap();
                    assert(!in_replace_set(p) && fs.files.contains_key(p));
                    assert(fs1.files.contains_key(p));
                    lemma_success_keeps_files_from(fs1, es, i + 1, p);
                }
            },
        }
    }
}

/// A run over entries whose corrupt members all point at existing
/// files outside the replace-set succeeds.
proof fn lemma_run_succeeds_from(f: FsView, es: Seq<EntryModel>, i: int, base: FsView)
    requires
        0 <= i <= es.len(),
        forall|j: int| i <= j < es.len() ==> !(es[j] is Unreadable),
        forall|j: int|
            i <= j < es.len() ==> (#[trigger] corrupt_target(es[j]) matches Some(p)
                ==> !in_replace_set(p) && base.files.contains_key(p)),
        forall|p: PathSpec|
            base.files.contains_key(p) ==> #[trigger] f.files.contains_key(p),
    ensures
        run_from(f, es, i).0 is None,
    decreases es.len() - i,
{
    if i < es.len() {
        match step(f, es[i]) {
            (Some(k), f1) => {
                assert(corrupt_target(es[i]) matches Some(p) && f.files.contains_key(p)
                    && !in_replace_set(p));
                assert(false);
            },
            (None, f1) => {
                assert(forall|p: PathSpec|
                    f.files.contains_key(p) ==> #[trigger] f1.files.contains_key(p));
                lemma_run_succeeds_from(f1, es, i + 1, base);
            },
        }
    }
}

/// A run whose entries create no new directories and which succeeds
/// leaves the directories unchanged.
proof fn lemma_run_dirs_absorbed_from(f: FsView, es: Seq<EntryModel>, i: int)
    requires
        0 <= i <= es.len(),
        run_from(f, es, i).0 is None,
        forall|j: int| i <= j < es.len() ==> #[trigger] step_dirs(es[j]) <= f.dirs,
    ensures
        run_from(f, es, i).1.dirs == f.dirs,
    decreases es.len() - i,
{
    if i < es.len() {
        match step(f, es[i]) {
            (Some(k), f1) => {
                assert(false);
            },
            (None, f1) => {
                lemma_step_dirs(f, es[i]);
                assert(f1.dirs =~= f.dirs);
                lemma_run_dirs_absorbed_from(f1, es, i + 1);
            },
        }
    }
}

/// A successful run's final directories include what every entry
/// creates.
proof fn lemma_run_collects_dirs_from(f: FsView, es: Seq<EntryModel>, i: int)
    requires
        0 <= i <= es.len(),
        run_from(f, es, i).0 is None,
    ensures
        forall|j: int| i <= j < es.len() ==> #[trigger] step_dirs(es[j]) <= run_from(f, es, i).1.dirs,
    decreases es.len() - i,
{
    if i < es.len() {
        match step(f, es[i]) {
            (Some(k), f1) => {
                assert(false);
            },
            (None, f1) => {
                lemma_step_dirs(f, es[i]);
                lemma_run_collects_dirs_from(f1, es, i + 1);
                lemma_run_dirs_grow_from(f1, es, i + 1);
            },
        }
    }
}

/// Directories only grow along a run.
proof fn lemma_run_dirs_grow_from(f: FsView, es: Seq<EntryModel>, i: int)
    requires
        0 <= i <= es.len(),
    ensures
        f.dirs <= run_from(f, es, i).1.dirs,
    decreases es.len() - i,
{
    if i < es.len() {
        match step(f, es[i]) {
            (Some(k), f1) => {
                lemma_step_dirs(f, es[i]);
            },
            (None, f1) => {
                lemma_step_dirs(f, es[i]);
                lemma_run_dirs_grow_from(f1, es, i + 1);
            },
        }
    }
}

/// Among the file entries resolving to `p` there is a last one.
proof fn lemma_find_last_target(es: Seq<EntryModel>, p: PathSpec, k: int)
    requires
        0 < k <= es.len(),
        exists|j: int| 0 <= j < k && entry_file_at(es[j], p) is Some,
        forall|j: int| k <= j < es.len() ==> entry_file_at(es[j], p) is None,
    ensures
        exists|t: int|
            0 <= t < es.len() && entry_file_at(es[t], p) is Some && forall|j: int|
                t < j < es.len() ==> entry_file_at(#[trigger] es[j], p) is None,
    decreases k,
{
    if entry_file_at(es[k - 1], p) is Some {
        let t = k - 1;
        assert(entry_file_at(es[t], p) is Some && forall|j: int|
            t < j < es.len() ==> entry_file_at(#[trigger] es[j], p) is None);
    } else {
        assert(forall|j: int| k - 1 <= j < es.len() ==> entry_file_at(#[trigger] es[j], p) is None);
        let j0 = choose|j: int| 0 <= j < k && entry_file_at(es[j], p) is Some;
        assert(j0 < k - 1);
        lemma_find_last_target(es, p, k - 1);
    }
}

/// Installing the same archive twice gives the same directory state as
/// installing it once: after a successful install, a second install of
/// the same entries succeeds and changes nothing. Replace-set paths are
/// rewritten with the same bytes, and every other path now holds a file,
/// so it is preserved.
pub proof fn lemma_install_idempotent(fs: FsView, es: Seq<EntryModel>)
    requires
        run(fs, es).0 is None,
    ensures
        run(run(fs, es).1, es).0 is None,
        run(run(fs, es).1, es).1 == run(fs, es).1,
{
    let f1 = run(fs, es).1;
    lemma_success_clears_obstructions_from(fs, es, 0);
    lemma_run_succeeds_from(f1, es, 0, f1);
    let f2 = run(f1, es).1;

    // Directories: everything the entries create is already there.
    lemma_run_collects_dirs_from(fs, es, 0);
    lemma_run_dirs_absorbed_from(f1, es, 0);

    // Files: path by path.
    assert forall|p: PathSpec| #[trigger] file_at(f2, p) == file_at(f1, p) by {
        if exists|j: int| 0 <= j < es.len() && entry_file_at(es[j], p) is Some {
            lemma_find_last_target(es, p, es.len() as int);
            let t = choose|t: int|
                0 <= t < es.len() && entry_file_at(es[t], p) is Some && forall|j: int|
                    t < j < es.len() ==> entry_file_at(#[trigger] es[j], p) is None;
            if in_replace_set(p) {
                assert(forall|j: int| t < j < es.len() ==> !entry_touches(es[j], p)) by {
                    assert forall|j: int| t < j < es.len() implies !entry_touches(es[j], p) by {
                        if entry_touches(es[j], p) {
                            assert(corrupt_target(es[j]) == Some(p));
                        }
                    }
                }
                lemma_replace_set_mirrors_archive(fs, es, t, p);
                lemma_replace_set_mirrors_archive(f1, es, t, p);
            } else {
                lemma_file_target_written_from(fs, es, 0, t, p);
                assert(f1.files.contains_key(p));
                lemma_preserved_outside_replace_set(f1, es, p);
            }
        } else {
            if f1.files.contains_key(p) && !in_replace_set(p) {
                lemma_preserved_outside_replace_set(f1, es, p);
            } else {
                assert(forall|j: int| 0 <= j < es.len() ==> !entry_touches(es[j], p)) by {
                    assert forall|j: int| 0 <= j < es.len() implies !entry_touches(es[j], p) by {
                        if entry_touches(es[j], p) {
                            if es[j] matches EntryModel::Corrupt { name } {
                                assert(corrupt_target(es[j]) == Some(p));
                                assert(f1.files.contains_key(p));
                                assert(in_replace_set(p));
                                assert(!in_replace_set(p));
                            } else {
                                assert(entry_file_at(es[j], p) is Some);
                            }
                        }
                    }
                }
                lemma_untouched_path_unchanged(f1, es, p);
            }
        }
    }
    assert(f2.files =~= f1.files) by {
        assert forall|p: PathSpec| #[trigger] f2.files.contains_key(p) == f1.files.contains_key(p)
            && (f1.files.contains_key(p) ==> f2.files[p] == f1.files[p]) by {
            assert(file_at(f2, p) == file_at(f1, p));
        }
    }
    assert(run(f1, es).1 =~= f1);
}

} // verus!
