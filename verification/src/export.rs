//! The export pipeline: reproducing a list of favourite files inside a
//! destination directory.
//!
//! The pipeline walks the source paths strictly in order. For each one it
//! extracts the base name — a path without one aborts the whole export —
//! and asks the I/O layer to copy the file to `destination / base name`,
//! flat, overwriting whatever is there. After each completed copy it
//! records the base name and reports the 1-based count of files done as
//! the progress value. The result of a full run is the ordered sequence
//! of base names; a copy failure aborts the run at that file, and the
//! files copied before it stay in place — nothing is rolled back.
//!
//! The copies themselves are I/O and happen outside this crate: the loop
//! out there asks [`Export::next_job`] what to copy, performs the copy,
//! and hands the outcome back through [`Export::record_copied`] or
//! [`copy_failure`].

use vstd::prelude::*;
use crate::paths::{base_name, base_name_of, join_path, joined};
use crate::store::{distinct_rows, FavouritesStore};

verus! {

/// Why an export stopped.
#[derive(Debug, PartialEq, Eq)]
pub enum ExportError {
    /// A source path with no extractable base name; the whole export
    /// fails on it, whatever came before.
    InvalidPath { path: String },
    /// Copying this source file failed at the I/O layer; the export
    /// stops here and the files already copied stay in place.
    CopyFailed { path: String },
}

/// One copy for the I/O layer to perform: the file at `source` is to be
/// written to `target`, which is `name` placed flat inside the
/// destination directory.
#[derive(Debug)]
pub struct CopyJob {
    pub source: String,
    pub name: String,
    pub target: String,
}

/// One run of the export pipeline over a fixed list of source paths.
///
/// The run is well-formed throughout: the names recorded so far are
/// exactly the base names of the sources already copied, in input order.
pub struct Export {
    destination: String,
    files: Vec<String>,
    names: Vec<String>,
}

impl Export {
    /// The destination directory of this run.
    pub closed spec fn dest(self) -> Seq<char> {
        self.destination@
    }

    /// The source paths of this run, in the order they are processed.
    pub closed spec fn sources(self) -> Seq<Seq<char>> {
        self.files.deep_view()
    }

    /// The base names recorded for the files copied so far, in order.
    pub closed spec fn done_names(self) -> Seq<Seq<char>> {
        self.names.deep_view()
    }

    /// How many files have been copied so far.
    pub open spec fn copied_count(self) -> int {
        self.done_names().len() as int
    }

    /// The run's invariant: no more names than sources, and the name at
    /// each position is the base name of the source at that position.
    pub open spec fn wf(self) -> bool {
        &&& self.done_names().len() <= self.sources().len()
        &&& forall|i: int|
            0 <= i < self.done_names().len() ==> base_name_of(self.sources()[i]) == Some(
                self.done_names()[i],
            )
    }

    /// An export of `files` into the directory `destination`, with no
    /// file copied yet.
    pub fn new(destination: String, files: Vec<String>) -> (e: Export)
        ensures
            e.wf(),
            e.dest() == destination@,
            e.sources() == files.deep_view(),
            e.copied_count() == 0,
    {
        let e = Export { destination, files, names: Vec::new() };
        proof {
            assert(e.done_names() =~= Seq::<Seq<char>>::empty());
        }
        e
    }

    /// Whether every source file has been copied.
    pub fn finished(&self) -> (r: bool)
        ensures
            r == (self.copied_count() == self.sources().len()),
    {
        self.names.len() == self.files.len()
    }

    /// The next step of the run: the copy to perform for the first file
    /// not yet copied — or, when that file's path has no base name, the
    /// error that aborts the whole export.
    pub fn next_job(&self) -> (r: Result<CopyJob, ExportError>)
        requires
            self.wf(),
            self.copied_count() < self.sources().len(),
        ensures
            ({
                let src = self.sources()[self.copied_count()];
                match r {
                    Ok(job) => {
                        &&& base_name_of(src) == Some(job.name@)
                        &&& job.source@ == src
                        &&& job.target@ == joined(self.dest(), job.name@)
                    },
                    Err(e) => {
                        &&& base_name_of(src) is None
                        &&& e matches ExportError::InvalidPath { path } && path@ == src
                    },
                }
            }),
    {
        let k: usize = self.names.len();
        match base_name(self.files[k].as_str()) {
            Some(name) => {
                let target = join_path(self.destination.as_str(), name.as_str());
                Ok(CopyJob { source: self.files[k].clone(), name, target })
            },
            None => Err(ExportError::InvalidPath { path: self.files[k].clone() }),
        }
    }

    /// Note that the pending file's copy completed: its base name joins
    /// the recorded sequence, and the returned progress value is the
    /// 1-based count of files done — one notification per file, each one
    /// more than the last.
    pub fn record_copied(&mut self) -> (progress: usize)
        requires
            old(self).wf(),
            old(self).copied_count() < old(self).sources().len(),
            base_name_of(old(self).sources()[old(self).copied_count()]) is Some,
        ensures
            final (self).wf(),
            final (self).dest() == old(self).dest(),
            final (self).sources() == old(self).sources(),
            final (self).copied_count() == old(self).copied_count() + 1,
            progress == final (self).copied_count(),
            final (self).done_names().drop_last() == old(self).done_names(),
            base_name_of(old(self).sources()[old(self).copied_count()]) == Some(
                final (self).done_names().last(),
            ),
    {
        let k: usize = self.names.len();
        let name = match base_name(self.files[k].as_str()) {
            Some(n) => n,
            None => unreached(),
        };
        let ghost pre = self.names.deep_view();
        let ghost nv = name@;
        self.names.push(name);
        let progress: usize = self.names.len();
        proof {
            assert(self.done_names() =~= pre.push(nv));
            assert(self.done_names().drop_last() =~= pre);
        }
        progress
    }

    /// The result of a completed run: the base names of every source
    /// file, in input order.
    pub fn into_names(self) -> (r: Vec<String>)
        requires
            self.wf(),
            self.copied_count() == self.sources().len(),
        ensures
            r.deep_view() == self.done_names(),
    {
        self.names
    }
}

/// The error that aborts the export when the copy of `job`'s file fails
/// at the I/O layer. The files copied before it stay in place.
pub fn copy_failure(job: CopyJob) -> (e: ExportError)
    ensures
        e matches ExportError::CopyFailed { path } && path@ == job.source@,
{
    ExportError::CopyFailed { path: job.source }
}

/// Begin exporting the current favourite set: the run's sources are the
/// distinct favourite paths, in the store's listed order.
pub fn begin_export(store: &FavouritesStore, destination: String) -> (e: Export)
    ensures
        e.wf(),
        e.dest() == destination@,
        e.sources() == distinct_rows(store.table()),
        e.copied_count() == 0,
{
    let files = store.get_favourites();
    Export::new(destination, files)
}

/// Whether every path before position `k` has an extractable base name.
pub open spec fn names_present_upto(files: Seq<Seq<char>>, k: int) -> bool {
    forall|i: int| 0 <= i < k ==> base_name_of(#[trigger] files[i]) is Some
}

/// Whether every copy before position `k` succeeded at the I/O layer.
pub open spec fn copies_succeed_upto(outcomes: Seq<bool>, k: int) -> bool {
    forall|i: int| 0 <= i < k ==> #[trigger] outcomes[i]
}

/// The progress values of `n` completed copies: `1, 2, …, n`, in order.
pub open spec fn counting_to(n: int) -> Seq<usize> {
    Seq::new(n as nat, |i: int| (i + 1) as usize)
}

/// The whole export loop in one call, with the I/O layer's answers
/// supplied as values: entry `k` of `outcomes` is whether the copy of
/// the `k`-th file succeeds. Every progress value goes to
/// `progress_log` as it would go to the UI shell.
///
/// The contract carries the pipeline's laws end to end. A run over `N`
/// files in which every base name exists and every copy succeeds returns
/// the base names in input order and logs exactly `N` progress values,
/// `1, 2, …, N`, each one right after its copy. A run that stops at file
/// `k` — for a missing base name or a failed copy — reports that file's
/// path, and the log holds exactly `1, …, k`: the earlier files were
/// copied, and stay copied, while no later file was touched. The stop
/// position is the log's final length.
#[verifier::loop_isolation(false)]
pub fn replay_export(
    destination: String,
    files: Vec<String>,
    outcomes: &Vec<bool>,
    progress_log: &mut Vec<usize>,
) -> (r: Result<Vec<String>, ExportError>)
    requires
        old(progress_log)@.len() == 0,
        outcomes@.len() == files@.len(),
    ensures
        match r {
            Ok(names) => {
                &&& names.deep_view().len() == files.deep_view().len()
                &&& forall|i: int|
                    0 <= i < files.deep_view().len() ==> base_name_of(
                        #[trigger] files.deep_view()[i],
                    ) == Some(names.deep_view()[i])
                &&& copies_succeed_upto(outcomes@, files.deep_view().len() as int)
                &&& final (progress_log)@ == counting_to(files.deep_view().len() as int)
            },
            Err(ExportError::InvalidPath { path }) => {
                let k = final (progress_log)@.len() as int;
                &&& 0 <= k < files.deep_view().len()
                &&& path@ == files.deep_view()[k]
                &&& base_name_of(files.deep_view()[k]) is None
                &&& names_present_upto(files.deep_view(), k)
                &&& copies_succeed_upto(outcomes@, k)
                &&& final (progress_log)@ == counting_to(k)
            },
            Err(ExportError::CopyFailed { path }) => {
                let k = final (progress_log)@.len() as int;
                &&& 0 <= k < files.deep_view().len()
                &&& path@ == files.deep_view()[k]
                &&& base_name_of(files.deep_view()[k]) is Some
                &&& !outcomes@[k]
                &&& names_present_upto(files.deep_view(), k + 1)
                &&& copies_succeed_upto(outcomes@, k)
                &&& final (progress_log)@ == counting_to(k)
            },
        },
{
    let ghost fv = files.deep_view();
    let mut run = Export::new(destination, files);
    proof {
        assert(progress_log@ =~= counting_to(0));
    }
    while !run.finished()
        invariant
            run.wf(),
            run.sources() == fv,
            outcomes@.len() == fv.len(),
            run.copied_count() == progress_log@.len(),
            progress_log@ == counting_to(run.copied_count()),
            names_present_upto(fv, run.copied_count()),
            copies_succeed_upto(outcomes@, run.copied_count()),
        decreases fv.len() - run.copied_count(),
    {
        let done: usize = progress_log.len();
        match run.next_job() {
            Ok(job) => {
                if outcomes[done] {
                    let ghost pre = progress_log@;
                    let progress = run.record_copied();
                    progress_log.push(progress);
                    proof {
                        assert(progress_log@ =~= pre.push(progress));
                        assert(progress_log@ =~= counting_to(run.copied_count()));
                    }
                } else {
                    proof {
                        assert(base_name_of(fv[done as int]) is Some);
                        assert(!outcomes@[done as int]);
                    }
                    return Err(copy_failure(job));
                }
            },
            Err(e) => {
                return Err(e);
            },
        }
    }
    Ok(run.into_names())
}

/// What a run has produced at any point it is well-formed: the recorded
/// names are exactly the base names of the sources already copied, in
/// input order. After a full run that is every source; after an aborted
/// one it is the sources before the failing file, whose copies stay in
/// place.
pub proof fn lemma_names_match_sources(e: Export)
    requires
        e.wf(),
    ensures
        e.done_names().len() <= e.sources().len(),
        forall|i: int|
            0 <= i < e.done_names().len() ==> base_name_of(e.sources()[i]) == Some(
                e.done_names()[i],
            ),
{
}

} // verus!
