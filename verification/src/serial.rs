//! The serial run: one directory after the other, without a pool.
use crate::plan::Plan;
use crate::pool;
use crate::renewal;
use crate::renewal::{Batch, BatchView, Renewal, Tally};
use crate::touch;
use crate::touch::{Stamp, Touch};
use crate::walk::{Walk, WalkView};
use std::path::PathBuf;
use vstd::prelude::*;
use vstd::string::*;

verus! {

/// The directory that a serial run is at.
struct Current {
    dir: String,
    batches: Vec<Batch>,
    /// How many of the batches have been touched.
    done: usize,
    /// What the directory has renewed so far.
    one: Renewal,
}

/// A serial run over the kept directories of a plan.
pub struct SerialRun {
    json_mode: bool,
    dirs: Vec<String>,
    /// How many of the directories have been walked.
    walked: usize,
    current: Option<Current>,
    renewal: Renewal,
}

/// The directory that a serial run is at: the batches that are left, and what it
/// has renewed so far.
#[verifier::ext_equal]
pub struct CurrentView {
    pub dir: Seq<char>,
    pub batches: Seq<BatchView>,
    pub one: Tally,
}

/// The directories that are left, the one that the run is at, and the counters of
/// those that are done.
#[verifier::ext_equal]
pub struct SerialView {
    pub dirs: Seq<Seq<char>>,
    pub current: Option<CurrentView>,
    pub tally: Tally,
}

impl Current {
    spec fn view(self) -> CurrentView {
        CurrentView {
            dir: self.dir@,
            batches: renewal::batch_views(self.batches@).skip(self.done as int),
            one: self.one@,
        }
    }
}

impl View for SerialRun {
    type V = SerialView;

    closed spec fn view(&self) -> SerialView {
        SerialView {
            dirs: self.dirs.deep_view().skip(self.walked as int),
            current: match self.current {
                Some(c) => Some(c.view()),
                None => None,
            },
            tally: self.renewal@,
        }
    }
}

/// What a serial run does next.
#[derive(Debug)]
pub enum SerialStep<'a> {
    /// Walk this directory.
    Enumerate(&'a str),
    /// Touch these entries.
    Touch(&'a [PathBuf]),
    /// The directory is done.
    Finish,
    /// The run is done.
    Done,
}

impl SerialView {
    /// The run before the first directory.
    pub open spec fn start(dirs: Seq<Seq<char>>) -> SerialView {
        SerialView { dirs, current: None, tally: Tally::zero() }
    }

    /// The next directory has been walked: the run is at it, or has counted its
    /// error.
    pub open spec fn walked(self, walk: WalkView) -> SerialView {
        SerialView {
            dirs: self.dirs.drop_first(),
            current: if walk.ok() {
                Some(
                    CurrentView {
                        dir: self.dirs.first(),
                        batches: renewal::walk_batches(walk),
                        one: Tally::zero(),
                    },
                )
            } else {
                None
            },
            tally: self.tally.plus(renewal::walk_tally(walk)),
        }
    }

    /// The next batch has been touched.
    pub open spec fn touched(self, stamps: Seq<Stamp>) -> SerialView {
        let c = self.current->0;
        SerialView {
            current: Some(
                CurrentView {
                    dir: c.dir,
                    batches: c.batches.drop_first(),
                    one: c.one.plus(renewal::batch_tally(c.batches.first().kind, stamps)),
                },
            ),
            ..self
        }
    }

    /// The directory is done.
    pub open spec fn finished(self) -> SerialView {
        SerialView {
            dirs: self.dirs,
            current: None,
            tally: self.tally.plus(self.current->0.one),
        }
    }

    /// The counters of the directories that are done and of the one that the run
    /// is at.
    pub open spec fn counted(self) -> Tally {
        match self.current {
            Some(c) => self.tally.plus(c.one),
            None => self.tally,
        }
    }

    /// A directory is to be walked.
    pub open spec fn at_walk(self) -> bool {
        self.current is None && self.dirs.len() > 0
    }

    /// A batch is to be touched.
    pub open spec fn at_touch(self) -> bool {
        self.current is Some && self.current->0.batches.len() > 0
    }

    /// A directory is to be closed.
    pub open spec fn at_finish(self) -> bool {
        self.current is Some && self.current->0.batches.len() == 0
    }

    /// The run is done.
    pub open spec fn done(self) -> bool {
        self.current is None && self.dirs.len() == 0
    }
}

impl SerialRun {
    /// The run is within its lists, and its counters add up.
    pub closed spec fn wf(self) -> bool {
        &&& self.walked <= self.dirs@.len()
        &&& self@.counted().has_room(0)
        &&& match self.current {
            Some(c) => c.done <= c.batches@.len(),
            None => true,
        }
    }

    /// Whether the run prints no progress lines.
    pub closed spec fn silent(self) -> bool {
        self.json_mode
    }

    /// The run over a plan's kept directories.
    pub fn new(plan: &Plan, json_mode: bool) -> (r: SerialRun)
        ensures
            r.wf(),
            r.silent() == json_mode,
            r@ == SerialView::start(pool::dirs_of(plan@.kept)),
    {
        let ghost all = pool::dirs_of(plan@.kept);
        let mut dirs: Vec<String> = Vec::new();
        let mut i: usize = 0;
        assert(dirs.deep_view() =~= all.take(0));
        while i < plan.kept.len()
            invariant
                all == pool::dirs_of(plan@.kept),
                i <= plan.kept@.len(),
                dirs.deep_view() == all.take(i as int),
            decreases plan.kept@.len() - i,
        {
            let ghost before = dirs.deep_view();
            dirs.push(plan.kept[i].1.clone());
            i = i + 1;
            assert(dirs.deep_view() =~= before.push(all[i - 1]));
            assert(dirs.deep_view() =~= all.take(i as int));
        }
        assert(all.take(plan.kept@.len() as int) =~= all);
        assert(dirs.deep_view().skip(0) =~= all);
        SerialRun { json_mode, dirs, walked: 0, current: None, renewal: Renewal::default() }
    }

    /// What the run does next.
    pub fn step(&self) -> (step: SerialStep<'_>)
        requires
            self.wf(),
        ensures
            match step {
                SerialStep::Enumerate(dir) => self@.at_walk() && dir@ == self@.dirs.first(),
                SerialStep::Touch(paths) => self@.at_touch() && paths@
                    == self@.current->0.batches.first().paths,
                SerialStep::Finish => self@.at_finish(),
                SerialStep::Done => self@.done(),
            },
    {
        match &self.current {
            Some(c) => {
                if c.done < c.batches.len() {
                    assert(c.view().batches.first() == c.batches@[c.done as int]@);
                    SerialStep::Touch(c.batches[c.done].paths.as_slice())
                } else {
                    SerialStep::Finish
                }
            },
            None => {
                if self.walked < self.dirs.len() {
                    assert(self@.dirs.first() == self.dirs@[self.walked as int]@);
                    SerialStep::Enumerate(self.dirs[self.walked].as_str())
                } else {
                    SerialStep::Done
                }
            },
        }
    }

    /// Takes in the walk of the next directory. Gives the line that reports its
    /// error.
    pub fn walked(&mut self, walk: Walk) -> (line: Option<String>)
        requires
            old(self).wf(),
            old(self)@.at_walk(),
            old(self)@.counted().plus(renewal::walk_tally(walk@)).has_room(0),
        ensures
            final(self).wf(),
            final(self).silent() == old(self).silent(),
            final(self)@ == old(self)@.walked(walk@),
            renewal::line_view(line) == renewal::walk_failure_line(
                old(self)@.dirs.first(),
                walk@,
            ),
    {
        let dir = self.dirs[self.walked].clone();
        assert(dir@ == self@.dirs.first());
        let line = renewal::walk_failure(dir.as_str(), &walk);
        if line.is_some() {
            self.renewal.failures = self.renewal.failures + 1;
        }
        assert(self.walked < self.dirs.len());
        self.walked = self.walked + 1;
        assert(self@.dirs =~= old(self)@.dirs.drop_first());
        if renewal::walk_is_ok(&walk) {
            let batches = renewal::shard_walk(walk);
            assert(renewal::batch_views(batches@).skip(0) =~= renewal::walk_batches(walk@));
            self.current = Some(Current { dir, batches, done: 0, one: Renewal::default() });
        }
        line
    }

    /// Takes in the outcomes of the next batch. Gives the line that reports its
    /// failures.
    pub fn touched(&mut self, touches: &[Touch]) -> (line: Option<String>)
        requires
            old(self).wf(),
            old(self)@.at_touch(),
            old(self)@.counted().plus(
                renewal::batch_tally(
                    old(self)@.current->0.batches.first().kind,
                    touch::stamps_of(touches@),
                ),
            ).has_room(0),
        ensures
            final(self).wf(),
            final(self).silent() == old(self).silent(),
            final(self)@ == old(self)@.touched(touch::stamps_of(touches@)),
            renewal::line_view(line) == renewal::batch_failure_line(
                old(self)@.current->0.dir,
                touches@,
            ),
    {
        let mut line: Option<String> = None;
        if let Some(c) = self.current.take() {
            let mut current = c;
            let ghost before = current.view();
            let kind = current.batches[current.done].kind;
            assert(before.batches.first() == current.batches@[current.done as int]@);
            line = renewal::count_batch(&mut current.one, current.dir.as_str(), kind, touches);
            assert(current.done < current.batches.len());
            current.done = current.done + 1;
            assert(current.view().batches =~= before.batches.drop_first());
            self.current = Some(current);
        }
        line
    }

    /// Closes the directory: adds up its counters. Gives its progress line, where
    /// the run prints them.
    pub fn finish_dir(&mut self) -> (line: Option<String>)
        requires
            old(self).wf(),
            old(self)@.at_finish(),
        ensures
            final(self).wf(),
            final(self).silent() == old(self).silent(),
            final(self)@ == old(self)@.finished(),
            renewal::line_view(line) == if old(self).silent() {
                None
            } else {
                Some(
                    renewal::status_line(
                        old(self)@.current->0.one,
                        old(self)@.current->0.dir,
                    ),
                )
            },
    {
        let mut line: Option<String> = None;
        if let Some(c) = self.current.take() {
            if !self.json_mode {
                line = Some(renewal::dir_status_line(&c.one, c.dir.as_str()));
            }
            self.renewal.add(&c.one);
        }
        line
    }

    /// Whether every counter can still grow by `n`.
    pub fn has_room(&self, n: usize) -> (r: bool)
        requires
            self.wf(),
        ensures
            r == self@.counted().has_room(n as nat),
    {
        match &self.current {
            Some(c) => {
                self.renewal.files + c.one.files <= usize::MAX - n && self.renewal.dirs
                    + c.one.dirs <= usize::MAX - n && self.renewal.failures + c.one.failures
                    <= usize::MAX - n
            },
            None => self.renewal.has_room(n),
        }
    }

    /// What the run has renewed in the directories that are done.
    pub fn into_renewal(self) -> (r: Renewal)
        ensures
            r@ == self@.tally,
    {
        self.renewal
    }
}

} // verus!
