//! The worker pool's state: what is queued, what is running, what is renewed.
//!
//! Two kinds of task run on one pool: walk a kept directory, and touch a batch of
//! the entries that a walk found. A walk queues its batches, so that a single huge
//! directory spreads over every worker.
use crate::plan::Plan;
use crate::renewal;
use crate::renewal::{Batch, BatchView, Renewal, Tally};
use crate::touch;
use crate::touch::{Stamp, Touch};
use crate::walk::{Walk, WalkView};
use std::collections::VecDeque;
use vstd::prelude::*;
use vstd::string::*;

verus! {

/// A task of the pool.
#[derive(Debug)]
pub enum Task {
    /// Walk a kept directory.
    Enumerate(String),
    /// Touch a batch of a kept directory's entries.
    Touch(String, Batch),
}

/// What a `Task` holds.
pub enum TaskView {
    Enumerate(Seq<char>),
    Touch(Seq<char>, BatchView),
}

impl View for Task {
    type V = TaskView;

    open spec fn view(&self) -> TaskView {
        match self {
            Task::Enumerate(dir) => TaskView::Enumerate(dir@),
            Task::Touch(dir, batch) => TaskView::Touch(dir@, batch@),
        }
    }
}

/// The tasks by their views.
pub open spec fn task_views(tasks: Seq<Task>) -> Seq<TaskView> {
    tasks.map_values(|t: Task| t@)
}

/// The state that the workers share.
pub struct PoolState {
    queue: VecDeque<Task>,
    in_flight: usize,
    renewal: Renewal,
    running: Ghost<Seq<TaskView>>,
}

/// The queue in order, the tasks that workers have taken and not finished, and
/// the counters.
#[verifier::ext_equal]
pub struct PoolView {
    pub queue: Seq<TaskView>,
    pub running: Seq<TaskView>,
    pub tally: Tally,
}

impl View for PoolState {
    type V = PoolView;

    closed spec fn view(&self) -> PoolView {
        PoolView {
            queue: task_views(self.queue@),
            running: self.running@,
            tally: self.renewal@,
        }
    }
}

/// What a worker does next.
#[derive(Debug)]
pub enum PoolStep {
    /// Run the task and report back.
    Run(Task),
    /// Nothing is queued, but a running task may still queue something.
    Wait,
    /// Nothing is queued and nothing is running: the pool has drained.
    Drained,
}

impl PoolView {
    /// The pool before any worker has started: a walk of each directory.
    pub open spec fn start(dirs: Seq<Seq<char>>) -> PoolView {
        PoolView {
            queue: dirs.map_values(|d: Seq<char>| TaskView::Enumerate(d)),
            running: Seq::empty(),
            tally: Tally::zero(),
        }
    }

    /// A worker has taken the first task of the queue.
    pub open spec fn taken(self) -> PoolView {
        PoolView {
            queue: self.queue.drop_first(),
            running: self.running.push(self.queue.first()),
            tally: self.tally,
        }
    }

    /// The running tasks without one `task`.
    pub open spec fn finished(self, task: TaskView) -> Seq<TaskView> {
        self.running.remove(self.running.index_of(task))
    }

    /// A walk of `dir` has come back: its batches are queued, or its error counted.
    pub open spec fn walked(self, dir: Seq<char>, walk: WalkView) -> PoolView {
        PoolView {
            queue: if walk.ok() {
                self.queue + touch_tasks(dir, renewal::walk_batches(walk))
            } else {
                self.queue
            },
            running: self.finished(TaskView::Enumerate(dir)),
            tally: self.tally.plus(renewal::walk_tally(walk)),
        }
    }

    /// A batch has been touched.
    pub open spec fn touched(
        self,
        dir: Seq<char>,
        batch: BatchView,
        stamps: Seq<Stamp>,
    ) -> PoolView {
        PoolView {
            queue: self.queue,
            running: self.finished(TaskView::Touch(dir, batch)),
            tally: self.tally.plus(renewal::batch_tally(batch.kind, stamps)),
        }
    }

    /// Nothing queued and nothing running.
    pub open spec fn drained(self) -> bool {
        self.queue.len() == 0 && self.running.len() == 0
    }
}

/// The tasks that touch these batches.
pub open spec fn touch_tasks(dir: Seq<char>, batches: Seq<BatchView>) -> Seq<TaskView> {
    batches.map_values(|b: BatchView| TaskView::Touch(dir, b))
}

/// The directories of a plan's kept entries.
pub open spec fn dirs_of(rows: Seq<(Seq<char>, Seq<char>)>) -> Seq<Seq<char>> {
    rows.map_values(|row: (Seq<char>, Seq<char>)| row.1)
}

impl PoolState {
    /// As many tasks are in flight as have been taken and not finished.
    pub closed spec fn wf(self) -> bool {
        self.in_flight == self.running@.len()
    }

    /// The pool for a plan: a walk of each kept directory is queued.
    pub fn new(plan: &Plan) -> (r: PoolState)
        ensures
            r.wf(),
            r@ == PoolView::start(dirs_of(plan@.kept)),
    {
        let ghost dirs = dirs_of(plan@.kept);
        let mut queue: VecDeque<Task> = VecDeque::new();
        let mut i: usize = 0;
        assert(task_views(queue@) =~= PoolView::start(dirs).queue.take(0));
        while i < plan.kept.len()
            invariant
                dirs == dirs_of(plan@.kept),
                i <= plan.kept@.len(),
                task_views(queue@) == PoolView::start(dirs).queue.take(i as int),
            decreases plan.kept@.len() - i,
        {
            let ghost before = queue@;
            let task = Task::Enumerate(plan.kept[i].1.clone());
            queue.push_back(task);
            i = i + 1;
            assert(task_views(queue@) =~= task_views(before).push(task@));
            assert(PoolView::start(dirs).queue[i - 1] == task@);
            assert(task_views(queue@) =~= PoolView::start(dirs).queue.take(i as int));
        }
        assert(PoolView::start(dirs).queue.take(plan.kept@.len() as int) =~= PoolView::start(
            dirs,
        ).queue);
        PoolState {
            queue,
            in_flight: 0,
            renewal: Renewal::default(),
            running: Ghost(Seq::empty()),
        }
    }

    /// What a worker that has nothing in hand does next.
    pub fn next_task(&mut self) -> (step: PoolStep)
        requires
            old(self).wf(),
            old(self)@.running.len() < usize::MAX,
        ensures
            final(self).wf(),
            match step {
                PoolStep::Run(task) => {
                    &&& old(self)@.queue.len() > 0
                    &&& task@ == old(self)@.queue.first()
                    &&& final(self)@ == old(self)@.taken()
                },
                PoolStep::Wait => {
                    &&& old(self)@.queue.len() == 0
                    &&& old(self)@.running.len() > 0
                    &&& final(self)@ == old(self)@
                },
                PoolStep::Drained => {
                    &&& old(self)@.drained()
                    &&& final(self)@ == old(self)@
                },
            },
    {
        let ghost before = self.queue@;
        match self.queue.pop_front() {
            Some(task) => {
                self.in_flight = self.in_flight + 1;
                self.running = Ghost(self.running@.push(task@));
                assert(task_views(self.queue@) =~= task_views(before).drop_first());
                PoolStep::Run(task)
            },
            None => {
                if self.in_flight == 0 {
                    PoolStep::Drained
                } else {
                    PoolStep::Wait
                }
            },
        }
    }

    /// Takes in a walk of `dir`: queues its batches, files first, or counts its
    /// error. Gives the line that reports the error.
    pub fn walked(&mut self, dir: &str, walk: Walk) -> (line: Option<String>)
        requires
            old(self).wf(),
            old(self)@.running.contains(TaskView::Enumerate(dir@)),
            old(self)@.tally.plus(renewal::walk_tally(walk@)).has_room(0),
        ensures
            final(self).wf(),
            final(self)@ == old(self)@.walked(dir@, walk@),
            renewal::line_view(line) == renewal::walk_failure_line(dir@, walk@),
    {
        let ghost task = TaskView::Enumerate(dir@);
        let line = renewal::walk_failure(dir, &walk);
        if line.is_some() {
            self.renewal.failures = self.renewal.failures + 1;
        }
        if renewal::walk_is_ok(&walk) {
            self.queue_batches(dir, renewal::shard_walk(walk));
        }
        self.in_flight = self.in_flight - 1;
        self.running = Ghost(self.running@.remove(self.running@.index_of(task)));
        line
    }

    /// Takes in the outcomes of a batch of `dir`: counts what was renewed and what
    /// failed. Gives the line that reports the failures.
    pub fn touched(&mut self, dir: &str, batch: &Batch, touches: &[Touch]) -> (line: Option<
        String,
    >)
        requires
            old(self).wf(),
            old(self)@.running.contains(TaskView::Touch(dir@, batch@)),
            old(self)@.tally.plus(
                renewal::batch_tally(batch.kind, touch::stamps_of(touches@)),
            ).has_room(0),
        ensures
            final(self).wf(),
            final(self)@ == old(self)@.touched(dir@, batch@, touch::stamps_of(touches@)),
            renewal::line_view(line) == renewal::batch_failure_line(dir@, touches@),
    {
        let ghost task = TaskView::Touch(dir@, batch@);
        let line = renewal::count_batch(&mut self.renewal, dir, batch.kind, touches);
        self.in_flight = self.in_flight - 1;
        self.running = Ghost(self.running@.remove(self.running@.index_of(task)));
        line
    }

    /// Queues a touch of each batch.
    fn queue_batches(&mut self, dir: &str, batches: Vec<Batch>)
        ensures
            final(self)@.queue == old(self)@.queue + touch_tasks(
                dir@,
                renewal::batch_views(batches@),
            ),
            final(self).running == old(self).running,
            final(self).in_flight == old(self).in_flight,
            final(self).renewal == old(self).renewal,
    {
        let ghost before = task_views(self.queue@);
        let ghost tasks = touch_tasks(dir@, renewal::batch_views(batches@));
        assert(task_views(self.queue@) =~= before + tasks.take(0));
        for batch in iter: batches
            invariant
                iter.seq() == batches@,
                tasks == touch_tasks(dir@, renewal::batch_views(batches@)),
                task_views(self.queue@) == before + tasks.take(iter.index() as int),
                self.running == old(self).running,
                self.in_flight == old(self).in_flight,
                self.renewal == old(self).renewal,
        {
            let ghost i = iter.index() as int;
            let ghost so_far = self.queue@;
            let ghost view = TaskView::Touch(dir@, batch@);
            self.queue.push_back(Task::Touch(dir.to_owned(), batch));
            assert(task_views(self.queue@) =~= task_views(so_far).push(view));
            assert(tasks[i] == view);
            assert(task_views(self.queue@) =~= before + tasks.take(i + 1));
        }
        assert(tasks.take(batches@.len() as int) =~= tasks);
    }

    /// Whether every counter can still grow by `n`.
    pub fn has_room(&self, n: usize) -> (r: bool)
        ensures
            r == self@.tally.has_room(n as nat),
    {
        self.renewal.has_room(n)
    }

    /// What has been renewed so far.
    pub fn into_renewal(self) -> (r: Renewal)
        ensures
            r@ == self@.tally,
    {
        self.renewal
    }
}

/// Tasks are seen as they are, one by one.
pub proof fn tasks_are_seen_as_they_are(tasks: Seq<Task>, i: int)
    requires
        0 <= i < tasks.len(),
    ensures
        task_views(tasks).len() == tasks.len(),
        match tasks[i] {
            Task::Enumerate(dir) => task_views(tasks)[i] == TaskView::Enumerate(dir@),
            Task::Touch(dir, batch) => task_views(tasks)[i] == TaskView::Touch(dir@, batch@),
        },
{
}

} // verus!
