use vstd::prelude::*;
use crate::archive::{entries_of_raw, load_entries, zip_parse};
use crate::errors::UpdateError;
use crate::fsmodel::{DirTree, FsView};
use crate::installer::{apply_archive, run, run_error, run_from};
use crate::paths::copy_bytes;
use crate::version::{read_version, stored_version};

verus! {

/// The stage a progress event reports, in pipeline order.
#[derive(Debug, Clone, Copy, PartialEq, Eq, Structural)]
pub enum Stage {
    Downloading,
    Saving,
    Extracting,
    Finalizing,
    Complete,
}

/// One progress event surfaced to the host: a stage and how far it is,
/// as a whole percentage. The host renders the human-readable message.
#[derive(Debug, Clone, Copy, PartialEq, Eq, Structural)]
pub struct ProgressEvent {
    pub stage: Stage,
    pub percent: u8,
}

/// The modelled install directory: its content files and directories,
/// the version marker file, and the transient downloaded archive file.
pub struct InstallState {
    pub tree: DirTree,
    /// Contents of the version marker file; `None` when absent.
    pub marker: Option<Vec<u8>>,
    /// Contents of the transient archive file; `None` when absent.
    pub archive_file: Option<Vec<u8>>,
}

/// The mathematical view of an [`InstallState`].
#[verifier::ext_equal]
pub struct InstallView {
    pub fs: FsView,
    pub marker: Option<Seq<u8>>,
    pub archive_file: Option<Seq<u8>>,
}

impl View for InstallState {
    type V = InstallView;

    open spec fn view(&self) -> InstallView {
        InstallView {
            fs: self.tree@,
            marker: self.marker.deep_view(),
            archive_file: self.archive_file.deep_view(),
        }
    }
}

impl InstallState {
    pub open spec fn wf(&self) -> bool {
        self.tree.wf()
    }

    /// A fresh, empty install directory.
    pub fn new() -> (r: InstallState)
        ensures
            r.wf(),
            r@.fs.files == Map::<crate::paths::PathSpec, Seq<u8>>::empty(),
            r@.fs.dirs == Set::<crate::paths::PathSpec>::empty(),
            r@.marker is None,
            r@.archive_file is None,
    {
        InstallState { tree: DirTree::new(), marker: None, archive_file: None }
    }

    /// The installed version this state records: the trimmed marker
    /// contents, or `"0.0.0"` when no marker exists.
    pub fn current_version(&self) -> (r: Vec<u8>)
        ensures
            r@ == stored_version(self@.marker),
    {
        let r = read_version(&self.marker);
        proof {
            match &self.marker {
                Option::None => {},
                Option::Some(c) => {
                    crate::paths::lemma_bytes_deep_view(c);
                },
            }
        }
        r
    }
}

/// Download progress as a whole percentage of `total`, capped at 100.
pub fn download_percent(done: u64, total: u64) -> (p: u8)
    requires
        total > 0,
    ensures
        done <= total ==> p == done * 100 / (total as int),
        done > total ==> p == 100,
{
    let q: u128 = (done as u128) * 100 / (total as u128);
    proof {
        assert(q == done * 100 / (total as int));
        if done <= total {
            assert(done * 100 / (total as int) <= 100) by (nonlinear_arith)
                requires
                    0 < total,
                    done <= total,
            ;
        } else {
            assert(done * 100 / (total as int) >= 100) by (nonlinear_arith)
                requires
                    0 < total,
                    total < done,
            ;
        }
    }
    if q > 100 {
        100
    } else {
        q as u8
    }
}

/// Extraction progress: entry `index` of `total` is being processed.
pub fn entry_percent(index: usize, total: usize) -> (p: u8)
    requires
        total > 0,
        index <= total,
    ensures
        p == index * 100 / (total as int),
        p <= 100,
{
    proof {
        assert(index * 100 / (total as int) <= 100) by (nonlinear_arith)
            requires
                0 < total,
                0 <= index <= total,
        ;
    }
    let q: u128 = (index as u128) * 100 / (total as u128);
    q as u8
}

/// The per-entry extraction events for the first `k` of `total` entries.
pub open spec fn extract_events(k: int, total: int) -> Seq<ProgressEvent> {
    Seq::new(
        k as nat,
        |i: int|
            ProgressEvent { stage: Stage::Extracting, percent: (i * 100 / total) as u8 },
    )
}

/// The whole event log `install` produces for a given starting state and
/// payload. On completion the extraction stage closes with a 100%
/// event, whatever the entry count.
pub open spec fn install_events(fs0: FsView, payload: Seq<u8>) -> Seq<ProgressEvent> {
    if payload.len() == 0 {
        Seq::empty()
    } else {
        let head = seq![
            ProgressEvent { stage: Stage::Saving, percent: 100 },
            ProgressEvent { stage: Stage::Extracting, percent: 0 },
        ];
        match zip_parse(payload) {
            Option::None => head,
            Option::Some(raws) => {
                let es = entries_of_raw(raws);
                let n = es.len() as int;
                match run(fs0, es).0 {
                    Option::None => head + extract_events(n, n) + seq![
                        ProgressEvent { stage: Stage::Extracting, percent: 100 },
                        ProgressEvent { stage: Stage::Finalizing, percent: 100 },
                        ProgressEvent { stage: Stage::Complete, percent: 100 },
                    ],
                    Option::Some((i, k)) => head + extract_events(i + 1, n),
                }
            },
        }
    }
}

proof fn lemma_run_from_err_bounds(fs: FsView, es: Seq<crate::archive::EntryModel>, i: int)
    requires
        0 <= i <= es.len(),
    ensures
        run_from(fs, es, i).0 matches Some(j_k) ==> i <= j_k.0 < es.len(),
    decreases es.len() - i,
{
    if i < es.len() {
        match crate::installer::step(fs, es[i]) {
            (Some(k), fs1) => {},
            (None, fs1) => {
                lemma_run_from_err_bounds(fs1, es, i + 1);
            },
        }
    }
}

/// Append the extraction events for the first `k` of `total` entries.
#[verifier::loop_isolation(false)]
fn push_extract_events(events: &mut Vec<ProgressEvent>, k: usize, total: usize)
    requires
        total > 0,
        k <= total,
    ensures
        final(events)@ == old(events)@ + extract_events(k as int, total as int),
{
    let mut i: usize = 0;
    proof {
        assert(events@ =~= old(events)@ + extract_events(0, total as int));
    }
    while i < k
        invariant
            0 <= i <= k,
            events@ == old(events)@ + extract_events(i as int, total as int),
        decreases k - i,
    {
        let p = entry_percent(i, total);
        events.push(ProgressEvent { stage: Stage::Extracting, percent: p });
        proof {
            assert(events@ =~= old(events)@ + extract_events(i + 1, total as int));
        }
        i = i + 1;
    }
}

/// Install a fully downloaded payload over the modelled install
/// directory, reporting its stages in order:
/// save the archive file, extract it with selective replacement,
/// delete the archive file, then record `target_version` in the marker.
///
/// An empty payload is rejected before anything is written. Any failure
/// leaves the version marker untouched, so a retry still sees the old
/// version; a failure after saving leaves the archive file in place, as
/// the next attempt removes it. The returned events are the progress
/// log, in order.
#[verifier::loop_isolation(false)]
pub fn install(state: &mut InstallState, payload: &Vec<u8>, target_version: &Vec<u8>) -> (r: (
    Vec<ProgressEvent>,
    Result<(), UpdateError>,
))
    requires
        old(state).wf(),
    ensures
        final(state).wf(),
        r.0@ == install_events(old(state)@.fs, payload@),
        r.1 is Ok <==> (payload@.len() > 0 && zip_parse(payload@) is Some && run(
            old(state)@.fs,
            entries_of_raw(zip_parse(payload@).unwrap()),
        ).0 is None),
        payload@.len() == 0 ==> r.1 == Err::<(), UpdateError>(UpdateError::EmptyPayload)
            && final(state)@ == old(state)@,
        payload@.len() > 0 && zip_parse(payload@) is None ==> r.1 == Err::<(), UpdateError>(
            UpdateError::ArchiveUnreadable,
        ) && final(state)@ == (InstallView {
            archive_file: Some(payload@),
            ..old(state)@
        }),
        payload@.len() > 0 && zip_parse(payload@) is Some ==> {
            let outcome = run(old(state)@.fs, entries_of_raw(zip_parse(payload@).unwrap()));
            match r.1 {
                Ok(()) => final(state)@ == (InstallView {
                    fs: outcome.1,
                    marker: Some(target_version@),
                    archive_file: None,
                }),
                Err(e) => Some(e) == run_error(outcome.0) && final(state)@ == (InstallView {
                    fs: outcome.1,
                    marker: old(state)@.marker,
                    archive_file: Some(payload@),
                }),
            }
        },
{
    let mut events: Vec<ProgressEvent> = Vec::new();
    if payload.len() == 0 {
        proof {
            assert(final(state)@ =~= old(state)@);
        }
        return (events, Err(UpdateError::EmptyPayload));
    }
    events.push(ProgressEvent { stage: Stage::Saving, percent: 100 });
    state.archive_file = Some(copy_bytes(payload));
    proof {
        crate::paths::lemma_bytes_deep_view(&state.archive_file.unwrap());
    }
    events.push(ProgressEvent { stage: Stage::Extracting, percent: 0 });
    let entries = match load_entries(copy_bytes(payload)) {
        Result::Err(e) => {
            proof {
                assert(final(state)@ =~= (InstallView {
                    archive_file: Some(payload@),
                    ..old(state)@
                }));
                assert(events@ =~= install_events(old(state)@.fs, payload@));
            }
            return (events, Err(e));
        },
        Result::Ok(es) => es,
    };
    let ghost raws = zip_parse(payload@).unwrap();
    let ghost es_model = entries_of_raw(raws);
    let n: usize = entries.len();
    proof {
        assert(crate::archive::entries_view(entries@) == es_model);
        assert(es_model.len() == entries@.len());
    }
    let res = apply_archive(&mut state.tree, &entries);
    match res {
        Result::Err(e) => {
            let idx: usize = match e {
                UpdateError::EntryUnreadable { index } => index,
                UpdateError::CorruptEntry { index } => index,
                _ => 0,
            };
            proof {
                lemma_run_from_err_bounds(old(state)@.fs, es_model, 0);
                assert(run(old(state)@.fs, es_model).0 matches Some(jk) && jk.0 == idx as int);
            }
            push_extract_events(&mut events, idx + 1, n);
            proof {
                assert(events@ =~= install_events(old(state)@.fs, payload@));
                assert(final(state)@ =~= (InstallView {
                    fs: run(old(state)@.fs, es_model).1,
                    marker: old(state)@.marker,
                    archive_file: Some(payload@),
                }));
            }
            (events, Err(e))
        },
        Result::Ok(()) => {
            if n > 0 {
                push_extract_events(&mut events, n, n);
            }
            events.push(ProgressEvent { stage: Stage::Extracting, percent: 100 });
            state.archive_file = None;
            events.push(ProgressEvent { stage: Stage::Finalizing, percent: 100 });
            state.marker = Some(copy_bytes(target_version));
            proof {
                crate::paths::lemma_bytes_deep_view(&state.marker.unwrap());
            }
            events.push(ProgressEvent { stage: Stage::Complete, percent: 100 });
            proof {
                assert(extract_events(0, 0) =~= Seq::<ProgressEvent>::empty());
                assert(events@ =~= install_events(old(state)@.fs, payload@));
                assert(final(state)@ =~= (InstallView {
                    fs: run(old(state)@.fs, es_model).1,
                    marker: Some(target_version@),
                    archive_file: None,
                }));
            }
            (events, Ok(()))
        },
    }
}

} // verus!
