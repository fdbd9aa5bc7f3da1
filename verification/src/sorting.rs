//! The traversal engine: an explicit-stack walk over a directory tree with
//! per-file success/failure accounting. The engine decides what to visit
//! next and how the report changes; reading directories, extracting tags and
//! renaming files happen outside this crate, which is handed the outcomes.

use vstd::prelude::*;

use crate::format::ParsedFormat;
use crate::path::MusoPath;

verus! {

/// How one sorting run is to behave.
#[derive(Debug)]
pub struct Options {
    pub format: ParsedFormat,
    pub dryrun: bool,
    pub recursive: bool,
    pub exfat_compat: bool,
    pub remove_empty: bool,
}

/// Aggregate outcome of a traversal: files attempted, files moved, and the
/// destinations created.
#[derive(Debug)]
pub struct SortReport {
    pub success: usize,
    pub total: usize,
    pub new_paths: Vec<MusoPath>,
}

impl SortReport {
    /// Successes never exceed attempts, and every success has its
    /// destination on record.
    pub open spec fn wf(self) -> bool {
        self.success <= self.total && self.new_paths@.len() == self.success
    }
}

/// One unit of pending work: visit a path, or test a directory for
/// emptiness after its children were handled.
#[derive(Debug, PartialEq)]
pub enum SortTask {
    Enter(MusoPath),
    CheckEmpty(MusoPath),
}

/// The traversal state: the work stack and the running report.
#[derive(Debug)]
pub struct Sorter {
    pub remove_empty: bool,
    pub stack: Vec<SortTask>,
    pub report: SortReport,
}

impl Sorter {
    /// A traversal about to visit `start`, with an empty report.
    pub fn new(start: MusoPath, remove_empty: bool) -> (r: Sorter)
        ensures
            r.remove_empty == remove_empty,
            r.stack@ =~= seq![SortTask::Enter(start)],
            r.report.success == 0,
            r.report.total == 0,
            r.report.new_paths@.len() == 0,
            r.report.wf(),
    {
        let mut stack: Vec<SortTask> = Vec::new();
        stack.push(SortTask::Enter(start));
        Sorter {
            remove_empty,
            stack,
            report: SortReport { success: 0, total: 0, new_paths: Vec::new() },
        }
    }

    /// The next unit of work, in stack-discovery order; nothing when the
    /// traversal is complete.
    pub fn next_task(&mut self) -> (r: Option<SortTask>)
        ensures
            final(self).report == old(self).report,
            final(self).remove_empty == old(self).remove_empty,
            match r {
                Some(t) => old(self).stack@.len() > 0 && t == old(self).stack@.last()
                    && final(self).stack@ == old(self).stack@.drop_last(),
                None => old(self).stack@.len() == 0 && final(self).stack@ == old(self).stack@,
            },
    {
        self.stack.pop()
    }

    /// Records that a visited file was moved to `dest`.
    pub fn file_sorted(&mut self, dest: MusoPath)
        requires
            old(self).report.total < usize::MAX,
            old(self).report.success < usize::MAX,
        ensures
            final(self).report.success == old(self).report.success + 1,
            final(self).report.total == old(self).report.total + 1,
            final(self).report.new_paths@ == old(self).report.new_paths@.push(dest),
            final(self).stack == old(self).stack,
            final(self).remove_empty == old(self).remove_empty,
            old(self).report.wf() ==> final(self).report.wf(),
    {
        self.report.success = self.report.success + 1;
        self.report.total = self.report.total + 1;
        self.report.new_paths.push(dest);
    }

    /// Records that sorting a visited file failed; the traversal goes on.
    pub fn file_failed(&mut self)
        requires
            old(self).report.total < usize::MAX,
        ensures
            final(self).report.success == old(self).report.success,
            final(self).report.total == old(self).report.total + 1,
            final(self).report.new_paths@ == old(self).report.new_paths@,
            final(self).stack == old(self).stack,
            final(self).remove_empty == old(self).remove_empty,
            old(self).report.wf() ==> final(self).report.wf(),
    {
        self.report.total = self.report.total + 1;
    }

    /// Records a visited directory's children: each is scheduled for a
    /// visit, and under `remove_empty` the directory itself is scheduled
    /// for an emptiness test once they are done.
    pub fn dir_listed(&mut self, dir: MusoPath, children: Vec<MusoPath>)
        ensures
            final(self).report == old(self).report,
            final(self).remove_empty == old(self).remove_empty,
            final(self).stack@ =~= old(self).stack@ + (if old(self).remove_empty {
                seq![SortTask::CheckEmpty(dir)]
            } else {
                Seq::empty()
            }) + Seq::new(children@.len(), |l: int| SortTask::Enter(children@[l])),
    {
        let ghost kids = children@;
        if self.remove_empty {
            self.stack.push(SortTask::CheckEmpty(dir));
        }
        let ghost base = self.stack@;
        let mut rest = children;
        let ghost total = kids.len();
        proof {
            assert(base + Seq::new(0nat, |l: int| SortTask::Enter(kids[l])) =~= base);
        }
        while rest.len() > 0
            invariant
                rest@.len() <= total,
                total == kids.len(),
                rest@ =~= kids.subrange((total - rest@.len()) as int, total as int),
                self.stack@ =~= base + Seq::new(
                    (total - rest@.len()) as nat,
                    |l: int| SortTask::Enter(kids[l]),
                ),
                self.remove_empty == old(self).remove_empty,
                self.report == old(self).report,
            decreases rest@.len(),
    {
            let ghost done = total - rest@.len();
            let c = rest.remove(0);
            proof {
                assert(c == kids[done as int]);
                assert(rest@ =~= kids.subrange(done + 1, total as int));
            }
            self.stack.push(SortTask::Enter(c));
            proof {
                assert(self.stack@ =~= base + Seq::new(
                    (done + 1) as nat,
                    |l: int| SortTask::Enter(kids[l]),
                ));
            }
        }
    }

    /// Whether a directory found empty after its children were handled is
    /// to be deleted.
    pub fn should_remove(&self, is_empty: bool) -> (r: bool)
        ensures
            r == (self.remove_empty && is_empty),
    {
        self.remove_empty && is_empty
    }

    /// The finished report.
    pub fn into_report(self) -> (r: SortReport)
        ensures
            r == self.report,
    {
        self.report
    }
}

} // verus!
