use vstd::prelude::*;
use crate::archive::{ArchiveEntry, EntryModel, entries_view};
use crate::errors::UpdateError;
use crate::fsmodel::{DirTree, FsView, path_prefixes};
use crate::paths::{
    PathSpec,
    entry_components,
    in_replace_set,
    is_dir_name,
    name_is_dir,
    parse_entry_name,
    path_in_replace_set,
};

verus! {

/// How applying one entry can fail.
#[derive(Debug, Clone, Copy, PartialEq, Eq, Structural)]
pub enum StepFailure {
    /// The entry's metadata could not be read.
    Unreadable,
    /// The entry's bytes could not be decompressed.
    Corrupt,
}

/// Whether the entry at `p` is written: always for a replace-set path,
/// otherwise only when no file exists there yet.
pub open spec fn spec_should_extract(fs: FsView, p: PathSpec) -> bool {
    in_replace_set(p) || !fs.files.contains_key(p)
}

/// Apply one archive entry to the modelled directory state, with the
/// selective-replacement semantics:
/// - an entry whose name cannot be safely resolved is skipped;
/// - a directory entry creates its directory and every parent;
/// - a file entry creates its parent directories, then is written if its
///   path falls in the replace-set or no file exists there, and is
///   otherwise skipped (the existing file is preserved);
/// - a corrupt entry that would have been written removes any file at
///   its path (its partial output) and stops the install; a corrupt
///   entry that would have been skipped is skipped;
/// - an unreadable entry stops the install.
pub open spec fn step(fs: FsView, e: EntryModel) -> (Option<StepFailure>, FsView) {
    match e {
        EntryModel::Unreadable => (Some(StepFailure::Unreadable), fs),
        EntryModel::File { name, data } => match entry_components(name) {
            Option::None => (None, fs),
            Option::Some(p) => {
                if is_dir_name(name) {
                    (None, FsView { files: fs.files, dirs: fs.dirs + path_prefixes(p) })
                } else if p.len() == 0 {
                    (None, fs)
                } else {
                    let fs1 = FsView {
                        files: fs.files,
                        dirs: fs.dirs + path_prefixes(p.drop_last()),
                    };
                    if spec_should_extract(fs1, p) {
                        (None, FsView { files: fs1.files.insert(p, data), dirs: fs1.dirs })
                    } else {
                        (None, fs1)
                    }
                }
            },
        },
        EntryModel::Corrupt { name } => match entry_components(name) {
            Option::None => (None, fs),
            Option::Some(p) => {
                if is_dir_name(name) {
                    (None, FsView { files: fs.files, dirs: fs.dirs + path_prefixes(p) })
                } else if p.len() == 0 {
                    (None, fs)
                } else {
                    let fs1 = FsView {
                        files: fs.files,
                        dirs: fs.dirs + path_prefixes(p.drop_last()),
                    };
                    if spec_should_extract(fs1, p) {
                        (
                            Some(StepFailure::Corrupt),
                            FsView { files: fs1.files.remove(p), dirs: fs1.dirs },
                        )
                    } else {
                        (None, fs1)
                    }
                }
            },
        },
    }
}

/// Apply the entries from position `i` on, in archive order, stopping at
/// the first failing entry.
pub open spec fn run_from(fs: FsView, es: Seq<EntryModel>, i: int) -> (Option<
    (int, StepFailure),
>, FsView)
    decreases es.len() - i when 0 <= i <= es.len()
{
    if i >= es.len() {
        (None, fs)
    } else {
        match step(fs, es[i]) {
            (Some(k), fs1) => (Some((i, k)), fs1),
            (None, fs1) => run_from(fs1, es, i + 1),
        }
    }
}

/// Apply a whole archive to the modelled directory state.
pub open spec fn run(fs: FsView, es: Seq<EntryModel>) -> (Option<(int, StepFailure)>, FsView) {
    run_from(fs, es, 0)
}

/// The error the caller sees for a failed run.
pub open spec fn run_error(o: Option<(int, StepFailure)>) -> Option<UpdateError> {
    match o {
        Option::None => Option::None,
        Option::Some((i, k)) => match k {
            StepFailure::Unreadable => Option::Some(UpdateError::EntryUnreadable { index: i as usize }),
            StepFailure::Corrupt => Option::Some(UpdateError::CorruptEntry { index: i as usize }),
        },
    }
}

/// The path `p` without its final component.
fn path_parent(p: &Vec<Vec<u8>>) -> (r: Vec<Vec<u8>>)
    requires
        p@.len() > 0,
    ensures
        r.deep_view() == p.deep_view().drop_last(),
{
    let mut r = crate::fsmodel::copy_path(p);
    let ghost pre = r.deep_view();
    r.pop();
    proof {
        assert(r.deep_view() =~= pre.drop_last());
    }
    r
}

/// Apply one archive entry to the directory state. A host that wants
/// cooperative cancellation drives the entries through this function
/// one at a time and stops between calls; the state is then exactly the
/// model's after the entries applied so far.
pub fn apply_entry(fs: &mut DirTree, e: &ArchiveEntry) -> (r: Result<(), StepFailure>)
    requires
        old(fs).wf(),
    ensures
        final(fs).wf(),
        final(fs)@ == step(old(fs)@, e@).1,
        step(old(fs)@, e@).0 == (match r {
            Ok(()) => Option::<StepFailure>::None,
            Err(k) => Option::Some(k),
        }),
{
    let ghost fs0 = fs@;
    match e {
        ArchiveEntry::Unreadable => Err(StepFailure::Unreadable),
        ArchiveEntry::File { name, data } => {
            match parse_entry_name(name) {
                Option::None => {
                    proof {
                        assert(fs@ =~= step(fs0, e@).1);
                    }
                    Ok(())
                },
                Option::Some(p) => {
                    if name_is_dir(name) {
                        fs.mkdir_all(&p);
                        proof {
                            assert(fs@ =~= step(fs0, e@).1);
                        }
                        Ok(())
                    } else if p.len() == 0 {
                        proof {
                            assert(p.deep_view().len() == 0);
                            assert(fs@ =~= step(fs0, e@).1);
                        }
                        Ok(())
                    } else {
                        proof {
                            assert(p.deep_view().len() > 0);
                        }
                        let parent = path_parent(&p);
                        fs.mkdir_all(&parent);
                        let should = path_in_replace_set(&p) || !fs.contains_file(&p);
                        if should {
                            fs.set_file(p, crate::paths::copy_bytes(data));
                        }
                        proof {
                            assert(fs@ =~= step(fs0, e@).1);
                        }
                        Ok(())
                    }
                },
            }
        },
        ArchiveEntry::Corrupt { name } => {
            match parse_entry_name(name) {
                Option::None => {
                    proof {
                        assert(fs@ =~= step(fs0, e@).1);
                    }
                    Ok(())
                },
                Option::Some(p) => {
                    if name_is_dir(name) {
                        fs.mkdir_all(&p);
                        proof {
                            assert(fs@ =~= step(fs0, e@).1);
                        }
                        Ok(())
                    } else if p.len() == 0 {
                        proof {
                            assert(p.deep_view().len() == 0);
                            assert(fs@ =~= step(fs0, e@).1);
                        }
                        Ok(())
                    } else {
                        proof {
                            assert(p.deep_view().len() > 0);
                        }
                        let parent = path_parent(&p);
                        fs.mkdir_all(&parent);
                        let should = path_in_replace_set(&p) || !fs.contains_file(&p);
                        if should {
                            fs.remove_file(&p);
                            proof {
                                assert(fs@ =~= step(fs0, e@).1);
                            }
                            Err(StepFailure::Corrupt)
                        } else {
                            proof {
                                assert(fs@ =~= step(fs0, e@).1);
                            }
                            Ok(())
                        }
                    }
                },
            }
        },
    }
}

/// Apply every entry of an archive, in archive order, to the directory
/// state; stop at, and report, the first failing entry. The state is
/// left exactly as the model `run` describes, also on failure.
#[verifier::loop_isolation(false)]
pub fn apply_archive(fs: &mut DirTree, entries: &Vec<ArchiveEntry>) -> (r: Result<(), UpdateError>)
    requires
        old(fs).wf(),
    ensures
        final(fs).wf(),
        final(fs)@ == run(old(fs)@, entries_view(entries@)).1,
        run_error(run(old(fs)@, entries_view(entries@)).0) == (match r {
            Ok(()) => Option::<UpdateError>::None,
            Err(e) => Option::Some(e),
        }),
{
    let ghost ev = entries_view(entries@);
    let ghost fs0 = fs@;
    let n: usize = entries.len();
    let mut i: usize = 0;
    while i < n
        invariant
            0 <= i <= n,
            n == entries@.len() == ev.len(),
            ev == entries_view(entries@),
            fs.wf(),
            run(fs0, ev) == run_from(fs@, ev, i as int),
        decreases n - i,
    {
        proof {
            assert(ev[i as int] == entries@[i as int]@);
        }
        let ghost fspre = fs@;
        match apply_entry(fs, &entries[i]) {
            Ok(()) => {
                proof {
                    assert(step(fspre, ev[i as int]).0 is None);
                    assert(fs@ == step(fspre, ev[i as int]).1);
                    assert(run_from(fspre, ev, i as int) == run_from(fs@, ev, i + 1));
                }
            },
            Err(k) => {
                proof {
                    assert(step(fspre, ev[i as int]).0 == Some(k));
                    assert(fs@ == step(fspre, ev[i as int]).1);
                    assert(run_from(fspre, ev, i as int) == (Some((i as int, k)), fs@));
                    assert(run(fs0, ev) == (Some((i as int, k)), fs@));
                }
                match k {
                    StepFailure::Unreadable => {
                        return Err(UpdateError::EntryUnreadable { index: i });
                    },
                    StepFailure::Corrupt => {
                        return Err(UpdateError::CorruptEntry { index: i });
                    },
                }
            },
        }
        i = i + 1;
    }
    Ok(())
}

} // verus!
