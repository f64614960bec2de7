//! What a renewal pass comes to, whoever runs it: the serial run and the pool, in
//! whatever order its workers get their turns, renew the same.
use crate::pool;
use crate::pool::{PoolView, TaskView};
use crate::renewal;
use crate::renewal::{BatchView, Kind, Tally};
use crate::serial::SerialView;
use crate::shard;
use crate::touch;
use crate::touch::{Stamp, Touch};
use crate::walk::WalkView;
use std::path::PathBuf;
use vstd::prelude::*;

verus! {

/// How the file system answers during a pass: what a walk of each directory finds,
/// and what a touch of each entry comes to.
pub struct World {
    pub walk: spec_fn(Seq<char>) -> WalkView,
    pub stamp: spec_fn(PathBuf) -> Stamp,
}

impl World {
    /// What touches of these entries come to.
    pub open spec fn stamps(self, paths: Seq<PathBuf>) -> Seq<Stamp> {
        paths.map_values(|p: PathBuf| (self.stamp)(p))
    }

    /// What a directory adds to a pass: everything that its walk finds, or the
    /// failure of the walk.
    pub open spec fn dir_tally(self, dir: Seq<char>) -> Tally {
        let walk = (self.walk)(dir);
        if walk.ok() {
            renewal::batch_tally(Kind::Files, self.stamps(walk.files)).plus(
                renewal::batch_tally(Kind::Dirs, self.stamps(walk.dirs)),
            )
        } else {
            renewal::walk_tally(walk)
        }
    }

    /// What the directories together add to a pass.
    pub open spec fn total(self, dirs: Seq<Seq<char>>) -> Tally
        decreases dirs.len(),
    {
        if dirs.len() == 0 {
            Tally::zero()
        } else {
            self.total(dirs.drop_last()).plus(self.dir_tally(dirs.last()))
        }
    }

    /// What a batch adds.
    pub open spec fn batch_tally(self, batch: BatchView) -> Tally {
        renewal::batch_tally(batch.kind, self.stamps(batch.paths))
    }

    /// What the batches together add.
    pub open spec fn batches_total(self, batches: Seq<BatchView>) -> Tally
        decreases batches.len(),
    {
        if batches.len() == 0 {
            Tally::zero()
        } else {
            self.batches_total(batches.drop_last()).plus(self.batch_tally(batches.last()))
        }
    }

    /// What a task adds, with all that it queues.
    pub open spec fn task_tally(self, task: TaskView) -> Tally {
        match task {
            TaskView::Enumerate(dir) => self.dir_tally(dir),
            TaskView::Touch(_, batch) => self.batch_tally(batch),
        }
    }

    /// What the tasks together add, with all that they queue.
    pub open spec fn tasks_total(self, tasks: Seq<TaskView>) -> Tally
        decreases tasks.len(),
    {
        if tasks.len() == 0 {
            Tally::zero()
        } else {
            self.tasks_total(tasks.drop_last()).plus(self.task_tally(tasks.last()))
        }
    }

    /// The pool once a running task has come back.
    pub open spec fn came_back(self, s: PoolView, task: TaskView) -> PoolView {
        match task {
            TaskView::Enumerate(dir) => s.walked(dir, (self.walk)(dir)),
            TaskView::Touch(dir, batch) => s.touched(dir, batch, self.stamps(batch.paths)),
        }
    }

    /// The pool takes a task up, or a running one comes back.
    pub open spec fn pool_step(self, s: PoolView, t: PoolView) -> bool {
        ||| s.queue.len() > 0 && t == s.taken()
        ||| exists|task: TaskView| #[trigger]
            s.running.contains(task) && t == self.came_back(s, task)
    }

    /// The states that a pool goes through, from the start on.
    pub open spec fn pool_run(self, dirs: Seq<Seq<char>>, run: Seq<PoolView>) -> bool {
        &&& run.len() > 0
        &&& run[0] == PoolView::start(dirs)
        &&& forall|i: int|
            0 <= i < run.len() - 1 ==> self.pool_step(#[trigger] run[i], run[i + 1])
    }

    /// The serial run walks, touches or closes what it is at.
    pub open spec fn serial_step(self, s: SerialView, t: SerialView) -> bool {
        ||| s.at_walk() && t == s.walked((self.walk)(s.dirs.first()))
        ||| s.at_touch() && t == s.touched(self.stamps(s.current->0.batches.first().paths))
        ||| s.at_finish() && t == s.finished()
    }

    /// The states that a serial run goes through, from the start on.
    pub open spec fn serial_run(self, dirs: Seq<Seq<char>>, run: Seq<SerialView>) -> bool {
        &&& run.len() > 0
        &&& run[0] == SerialView::start(dirs)
        &&& forall|i: int|
            0 <= i < run.len() - 1 ==> self.serial_step(#[trigger] run[i], run[i + 1])
    }

    /// What the pool has counted, with what is still queued and running.
    spec fn pool_pending(self, s: PoolView) -> Tally {
        s.tally.plus(self.tasks_total(s.queue)).plus(self.tasks_total(s.running))
    }

    /// What the serial run has counted, with what is still left.
    spec fn serial_pending(self, s: SerialView) -> Tally {
        let rest = s.counted().plus(self.total(s.dirs));
        match s.current {
            Some(c) => rest.plus(self.batches_total(c.batches)),
            None => rest,
        }
    }
}

/// Outcomes are counted piece by piece.
proof fn lemma_occurrences_add(a: Seq<Stamp>, b: Seq<Stamp>, stamp: Stamp)
    ensures
        touch::occurrences(a + b, stamp) == touch::occurrences(a, stamp) + touch::occurrences(
            b,
            stamp,
        ),
    decreases b.len(),
{
    if b.len() == 0 {
        assert(a + b =~= a);
    } else {
        lemma_occurrences_add(a, b.drop_last(), stamp);
        assert((a + b).drop_last() =~= a + b.drop_last());
    }
}

/// Batches are counted piece by piece.
proof fn lemma_batches_total_add(w: World, a: Seq<BatchView>, b: Seq<BatchView>)
    ensures
        w.batches_total(a + b) == w.batches_total(a).plus(w.batches_total(b)),
    decreases b.len(),
{
    if b.len() == 0 {
        assert(a + b =~= a);
    } else {
        lemma_batches_total_add(w, a, b.drop_last());
        assert((a + b).drop_last() =~= a + b.drop_last());
    }
}

/// Tasks are counted piece by piece.
proof fn lemma_tasks_total_add(w: World, a: Seq<TaskView>, b: Seq<TaskView>)
    ensures
        w.tasks_total(a + b) == w.tasks_total(a).plus(w.tasks_total(b)),
    decreases b.len(),
{
    if b.len() == 0 {
        assert(a + b =~= a);
    } else {
        lemma_tasks_total_add(w, a, b.drop_last());
        assert((a + b).drop_last() =~= a + b.drop_last());
    }
}

/// One task apart from the others.
proof fn lemma_tasks_total_remove(w: World, tasks: Seq<TaskView>, i: int)
    requires
        0 <= i < tasks.len(),
    ensures
        w.tasks_total(tasks) == w.tasks_total(tasks.remove(i)).plus(w.task_tally(tasks[i])),
    decreases tasks.len(),
{
    if i == tasks.len() - 1 {
        assert(tasks.remove(i) =~= tasks.drop_last());
    } else {
        lemma_tasks_total_remove(w, tasks.drop_last(), i);
        assert(tasks.remove(i).drop_last() =~= tasks.drop_last().remove(i));
    }
}

/// Touching entries batch by batch adds what touching them at once would.
proof fn lemma_batches_total_of_kind(w: World, paths: Seq<PathBuf>, size: nat, kind: Kind)
    requires
        0 < size,
    ensures
        w.batches_total(
            shard::batches_of(paths, size).map_values(
                |b: Seq<PathBuf>| BatchView { paths: b, kind },
            ),
        ) == renewal::batch_tally(kind, w.stamps(paths)),
    decreases paths.len(),
{
    let f = |b: Seq<PathBuf>| BatchView { paths: b, kind };
    let all = shard::batches_of(paths, size).map_values(f);
    if paths.len() == 0 {
        assert(w.stamps(paths) =~= Seq::<Stamp>::empty());
    } else if paths.len() <= size {
        let one = BatchView { paths, kind };
        assert(all =~= seq![one]);
        assert(all.drop_last() =~= Seq::<BatchView>::empty());
        assert(w.batches_total(all.drop_last()) == Tally::zero());
    } else {
        let head = paths.take(size as int);
        let tail = paths.skip(size as int);
        let first = BatchView { paths: head, kind };
        let rest = shard::batches_of(tail, size).map_values(f);
        lemma_batches_total_of_kind(w, tail, size, kind);
        assert(all =~= seq![first] + rest);
        lemma_batches_total_add(w, seq![first], rest);
        assert(seq![first].drop_last() =~= Seq::<BatchView>::empty());
        assert(w.batches_total(seq![first].drop_last()) == Tally::zero());
        assert(w.batches_total(seq![first]) == w.batch_tally(first));
        assert(w.stamps(paths) =~= w.stamps(head) + w.stamps(tail));
        lemma_occurrences_add(w.stamps(head), w.stamps(tail), Stamp::Renewed);
        lemma_occurrences_add(w.stamps(head), w.stamps(tail), Stamp::Failed);
    }
}

/// A walk's batches add what its directory adds.
proof fn lemma_walk_batches_total(w: World, dir: Seq<char>)
    requires
        (w.walk)(dir).ok(),
    ensures
        w.batches_total(renewal::walk_batches((w.walk)(dir))) == w.dir_tally(dir),
{
    let walk = (w.walk)(dir);
    let size = shard::BATCH as nat;
    lemma_batches_total_of_kind(w, walk.files, size, Kind::Files);
    lemma_batches_total_of_kind(w, walk.dirs, size, Kind::Dirs);
    lemma_batches_total_add(
        w,
        renewal::batches_of_kind(walk.files, Kind::Files),
        renewal::batches_of_kind(walk.dirs, Kind::Dirs),
    );
}

/// Queued batches add what the batches add.
proof fn lemma_touch_tasks_total(w: World, dir: Seq<char>, batches: Seq<BatchView>)
    ensures
        w.tasks_total(pool::touch_tasks(dir, batches)) == w.batches_total(batches),
    decreases batches.len(),
{
    if batches.len() > 0 {
        lemma_touch_tasks_total(w, dir, batches.drop_last());
        assert(pool::touch_tasks(dir, batches).drop_last() =~= pool::touch_tasks(
            dir,
            batches.drop_last(),
        ));
    }
}

/// Queued walks add what the directories add.
proof fn lemma_start_total(w: World, dirs: Seq<Seq<char>>)
    ensures
        w.tasks_total(PoolView::start(dirs).queue) == w.total(dirs),
    decreases dirs.len(),
{
    if dirs.len() > 0 {
        lemma_start_total(w, dirs.drop_last());
        assert(PoolView::start(dirs).queue.drop_last() =~= PoolView::start(
            dirs.drop_last(),
        ).queue);
    }
}

/// The first directory apart from the others.
proof fn lemma_total_first(w: World, dirs: Seq<Seq<char>>)
    requires
        dirs.len() > 0,
    ensures
        w.total(dirs) == w.dir_tally(dirs.first()).plus(w.total(dirs.drop_first())),
    decreases dirs.len(),
{
    if dirs.len() == 1 {
        assert(dirs.drop_last() =~= Seq::<Seq<char>>::empty());
        assert(dirs.drop_first() =~= Seq::<Seq<char>>::empty());
        assert(w.total(dirs.drop_last()) == Tally::zero());
    } else {
        lemma_total_first(w, dirs.drop_last());
        assert(dirs.drop_last().drop_first() =~= dirs.drop_first().drop_last());
    }
}

/// The first batch apart from the others.
proof fn lemma_batches_total_first(w: World, batches: Seq<BatchView>)
    requires
        batches.len() > 0,
    ensures
        w.batches_total(batches) == w.batch_tally(batches.first()).plus(
            w.batches_total(batches.drop_first()),
        ),
{
    let first = seq![batches.first()];
    assert(batches =~= first + batches.drop_first());
    lemma_batches_total_add(w, first, batches.drop_first());
    assert(first.drop_last() =~= Seq::<BatchView>::empty());
    assert(w.batches_total(first.drop_last()) == Tally::zero());
    assert(w.batches_total(first) == w.batch_tally(batches.first()));
}

/// A step of the pool moves work, and neither adds nor loses any.
proof fn lemma_pool_step_keeps_pending(w: World, s: PoolView, t: PoolView)
    requires
        w.pool_step(s, t),
    ensures
        w.pool_pending(t) == w.pool_pending(s),
{
    if s.queue.len() > 0 && t == s.taken() {
        lemma_tasks_total_remove(w, s.queue, 0);
        assert(s.queue.remove(0) =~= s.queue.drop_first());
        assert(s.running.push(s.queue.first()).drop_last() =~= s.running);
    } else {
        let task = choose|task: TaskView| #[trigger]
            s.running.contains(task) && t == w.came_back(s, task);
        lemma_tasks_total_remove(w, s.running, s.running.index_of(task));
        if let TaskView::Enumerate(dir) = task {
            if (w.walk)(dir).ok() {
                let batches = renewal::walk_batches((w.walk)(dir));
                lemma_tasks_total_add(w, s.queue, pool::touch_tasks(dir, batches));
                lemma_touch_tasks_total(w, dir, batches);
                lemma_walk_batches_total(w, dir);
            }
        }
    }
}

/// A step of the serial run moves work, and neither adds nor loses any.
proof fn lemma_serial_step_keeps_pending(w: World, s: SerialView, t: SerialView)
    requires
        w.serial_step(s, t),
    ensures
        w.serial_pending(t) == w.serial_pending(s),
{
    if s.at_walk() {
        let dir = s.dirs.first();
        lemma_total_first(w, s.dirs);
        if (w.walk)(dir).ok() {
            lemma_walk_batches_total(w, dir);
        }
    } else if s.at_touch() {
        lemma_batches_total_first(w, s.current->0.batches);
    } else {
        assert(w.batches_total(s.current->0.batches) == Tally::zero());
    }
}

/// Wherever a pool has got to, what it has counted and what is still to come add up
/// to the whole.
proof fn lemma_pool_run_pending(w: World, dirs: Seq<Seq<char>>, run: Seq<PoolView>, i: int)
    requires
        w.pool_run(dirs, run),
        0 <= i < run.len(),
    ensures
        w.pool_pending(run[i]) == w.total(dirs),
    decreases i,
{
    if i == 0 {
        lemma_start_total(w, dirs);
    } else {
        lemma_pool_run_pending(w, dirs, run, i - 1);
        assert(w.pool_step(run[i - 1], run[i - 1 + 1]));
        lemma_pool_step_keeps_pending(w, run[i - 1], run[i]);
    }
}

/// Wherever a serial run has got to, what it has counted and what is still to come
/// add up to the whole.
proof fn lemma_serial_run_pending(w: World, dirs: Seq<Seq<char>>, run: Seq<SerialView>, i: int)
    requires
        w.serial_run(dirs, run),
        0 <= i < run.len(),
    ensures
        w.serial_pending(run[i]) == w.total(dirs),
    decreases i,
{
    if i > 0 {
        lemma_serial_run_pending(w, dirs, run, i - 1);
        assert(w.serial_step(run[i - 1], run[i - 1 + 1]));
        lemma_serial_step_keeps_pending(w, run[i - 1], run[i]);
    }
}

/// A pool that has drained has counted every entry of every directory once, in
/// whatever order its tasks ran.
pub proof fn pool_counts_everything_once(w: World, dirs: Seq<Seq<char>>, run: Seq<PoolView>)
    requires
        w.pool_run(dirs, run),
        run.last().drained(),
    ensures
        run.last().tally == w.total(dirs),
{
    lemma_pool_run_pending(w, dirs, run, run.len() - 1);
}

/// A serial run that is done has counted every entry of every directory once.
pub proof fn serial_counts_everything_once(w: World, dirs: Seq<Seq<char>>, run: Seq<SerialView>)
    requires
        w.serial_run(dirs, run),
        run.last().done(),
    ensures
        run.last().tally == w.total(dirs),
{
    lemma_serial_run_pending(w, dirs, run, run.len() - 1);
}

/// The pool and the serial run come to the same counts.
pub proof fn parallel_matches_serial(
    w: World,
    dirs: Seq<Seq<char>>,
    parallel: Seq<PoolView>,
    serial: Seq<SerialView>,
)
    requires
        w.pool_run(dirs, parallel),
        parallel.last().drained(),
        w.serial_run(dirs, serial),
        serial.last().done(),
    ensures
        parallel.last().tally == serial.last().tally,
{
    pool_counts_everything_once(w, dirs, parallel);
    serial_counts_everything_once(w, dirs, serial);
}

impl World {
    /// How many steps a running task still takes: its own return, and two for each
    /// batch that it queues.
    pub open spec fn steps_of(self, task: TaskView) -> nat {
        match task {
            TaskView::Enumerate(dir) => if (self.walk)(dir).ok() {
                1 + 2 * renewal::walk_batches((self.walk)(dir)).len()
            } else {
                1
            },
            TaskView::Touch(_, _) => 1,
        }
    }

    /// How many steps running tasks still take.
    pub open spec fn steps_of_all(self, tasks: Seq<TaskView>) -> nat
        decreases tasks.len(),
    {
        if tasks.len() == 0 {
            0
        } else {
            self.steps_of_all(tasks.drop_last()) + self.steps_of(tasks.last())
        }
    }

    /// How many steps a pool still takes: a queued task has to be taken up first.
    pub open spec fn steps_left(self, s: PoolView) -> nat {
        s.queue.len() + self.steps_of_all(s.queue) + self.steps_of_all(s.running)
    }
}

/// Steps are counted piece by piece.
proof fn lemma_steps_add(w: World, a: Seq<TaskView>, b: Seq<TaskView>)
    ensures
        w.steps_of_all(a + b) == w.steps_of_all(a) + w.steps_of_all(b),
    decreases b.len(),
{
    if b.len() == 0 {
        assert(a + b =~= a);
    } else {
        lemma_steps_add(w, a, b.drop_last());
        assert((a + b).drop_last() =~= a + b.drop_last());
    }
}

/// One task's steps apart from the others'.
proof fn lemma_steps_remove(w: World, tasks: Seq<TaskView>, i: int)
    requires
        0 <= i < tasks.len(),
    ensures
        w.steps_of_all(tasks) == w.steps_of_all(tasks.remove(i)) + w.steps_of(tasks[i]),
    decreases tasks.len(),
{
    if i == tasks.len() - 1 {
        assert(tasks.remove(i) =~= tasks.drop_last());
    } else {
        lemma_steps_remove(w, tasks.drop_last(), i);
        assert(tasks.remove(i).drop_last() =~= tasks.drop_last().remove(i));
    }
}

/// A running batch takes one step.
proof fn lemma_steps_of_touches(w: World, dir: Seq<char>, batches: Seq<BatchView>)
    ensures
        w.steps_of_all(pool::touch_tasks(dir, batches)) == batches.len(),
    decreases batches.len(),
{
    if batches.len() > 0 {
        lemma_steps_of_touches(w, dir, batches.drop_last());
        assert(pool::touch_tasks(dir, batches).drop_last() =~= pool::touch_tasks(
            dir,
            batches.drop_last(),
        ));
    }
}

/// Every step of the pool brings it one step nearer to the end.
proof fn lemma_pool_step_progresses(w: World, s: PoolView, t: PoolView)
    requires
        w.pool_step(s, t),
    ensures
        w.steps_left(s) == w.steps_left(t) + 1,
{
    if s.queue.len() > 0 && t == s.taken() {
        lemma_steps_remove(w, s.queue, 0);
        assert(s.queue.remove(0) =~= s.queue.drop_first());
        assert(s.running.push(s.queue.first()).drop_last() =~= s.running);
    } else {
        let task = choose|task: TaskView| #[trigger]
            s.running.contains(task) && t == w.came_back(s, task);
        lemma_steps_remove(w, s.running, s.running.index_of(task));
        if let TaskView::Enumerate(dir) = task {
            if (w.walk)(dir).ok() {
                let batches = renewal::walk_batches((w.walk)(dir));
                lemma_steps_add(w, s.queue, pool::touch_tasks(dir, batches));
                lemma_steps_of_touches(w, dir, batches);
            }
        }
    }
}

/// The pool never gets stuck and never runs on: as long as it has not drained a
/// step is possible, and the number of steps is fixed by the plan and what the
/// walks find.
pub proof fn pool_drains(w: World, dirs: Seq<Seq<char>>, run: Seq<PoolView>)
    requires
        w.pool_run(dirs, run),
    ensures
        run.len() - 1 + w.steps_left(run.last()) == w.steps_left(PoolView::start(dirs)),
        !run.last().drained() ==> exists|t: PoolView| #[trigger] w.pool_step(run.last(), t),
        run.last().drained() <==> w.steps_left(run.last()) == 0,
    decreases run.len(),
{
    if run.len() > 1 {
        let before = run.drop_last();
        assert forall|i: int| 0 <= i < before.len() - 1 implies w.pool_step(
            #[trigger] before[i],
            before[i + 1],
        ) by {
            assert(w.pool_step(run[i], run[i + 1]));
        }
        pool_drains(w, dirs, before);
        let n = run.len() - 2;
        assert(w.pool_step(run[n], run[n + 1]));
        lemma_pool_step_progresses(w, run[n], run.last());
    }
    let s = run.last();
    if s.queue.len() > 0 {
        assert(w.pool_step(s, s.taken()));
    } else if s.running.len() > 0 {
        let task = s.running[0];
        assert(s.running.contains(task));
        assert(w.pool_step(s, w.came_back(s, task)));
    }
}

impl World {
    /// How many steps a serial run takes for a directory: the walk, and, where it
    /// went through, one for each batch and one to close the directory.
    pub open spec fn steps_of_dir(self, dir: Seq<char>) -> nat {
        if (self.walk)(dir).ok() {
            2 + renewal::walk_batches((self.walk)(dir)).len()
        } else {
            1
        }
    }

    /// How many steps a serial run takes for these directories.
    pub open spec fn steps_of_dirs(self, dirs: Seq<Seq<char>>) -> nat
        decreases dirs.len(),
    {
        if dirs.len() == 0 {
            0
        } else {
            self.steps_of_dir(dirs.first()) + self.steps_of_dirs(dirs.drop_first())
        }
    }

    /// How many steps a serial run still takes.
    pub open spec fn serial_steps_left(self, s: SerialView) -> nat {
        self.steps_of_dirs(s.dirs) + match s.current {
            Some(c) => 1 + c.batches.len(),
            None => 0,
        }
    }
}

/// The serial run never gets stuck and never runs on: as long as it is not done a
/// step is possible, and the number of steps is fixed by the plan and what the walks
/// find.
pub proof fn serial_run_ends(w: World, dirs: Seq<Seq<char>>, run: Seq<SerialView>)
    requires
        w.serial_run(dirs, run),
    ensures
        run.len() - 1 + w.serial_steps_left(run.last()) == w.steps_of_dirs(dirs),
        !run.last().done() ==> exists|t: SerialView| #[trigger] w.serial_step(run.last(), t),
        run.last().done() <==> w.serial_steps_left(run.last()) == 0,
    decreases run.len(),
{
    if run.len() > 1 {
        let before = run.drop_last();
        assert forall|i: int| 0 <= i < before.len() - 1 implies w.serial_step(
            #[trigger] before[i],
            before[i + 1],
        ) by {
            assert(w.serial_step(run[i], run[i + 1]));
        }
        serial_run_ends(w, dirs, before);
        let n = run.len() - 2;
        assert(w.serial_step(run[n], run[n + 1]));
    }
    let s = run.last();
    if s.at_walk() {
        assert(w.serial_step(s, s.walked((w.walk)(s.dirs.first()))));
    } else if s.at_touch() {
        assert(w.serial_step(s, s.touched(w.stamps(s.current->0.batches.first().paths))));
    } else if s.at_finish() {
        assert(w.serial_step(s, s.finished()));
    }
}

/// A directory whose walk failed counts as one failure; one that was skipped, because
/// it is gone, counts as nothing.
pub proof fn walks_count_once(w: World, dir: Seq<char>)
    requires
        !(w.walk)(dir).ok(),
    ensures
        (w.walk)(dir).skipped() ==> w.dir_tally(dir) == Tally::zero(),
        !(w.walk)(dir).skipped() ==> w.dir_tally(dir) == Tally::one_failure(),
{
}

impl World {
    /// The files that the walks of these directories list, where they went through.
    pub open spec fn found_files(self, dirs: Seq<Seq<char>>) -> Seq<PathBuf>
        decreases dirs.len(),
    {
        if dirs.len() == 0 {
            Seq::empty()
        } else if (self.walk)(dirs.last()).msg == "ok"@ {
            self.found_files(dirs.drop_last()) + (self.walk)(dirs.last()).files
        } else {
            self.found_files(dirs.drop_last())
        }
    }

    /// The directories that the walks of these directories list, where they went
    /// through.
    pub open spec fn found_dirs(self, dirs: Seq<Seq<char>>) -> Seq<PathBuf>
        decreases dirs.len(),
    {
        if dirs.len() == 0 {
            Seq::empty()
        } else if (self.walk)(dirs.last()).msg == "ok"@ {
            self.found_dirs(dirs.drop_last()) + (self.walk)(dirs.last()).dirs
        } else {
            self.found_dirs(dirs.drop_last())
        }
    }

    /// The attempts at the entries come to what they come to in this world.
    pub open spec fn attempts(self, attempt: spec_fn(PathBuf) -> Touch) -> bool {
        forall|p: PathBuf| #[trigger] (self.stamp)(p) == touch::stamp_of(attempt(p))
    }
}

/// What touches of these entries come to is counted of their outcomes.
proof fn lemma_stamps_count_outcomes(
    w: World,
    attempt: spec_fn(PathBuf) -> Touch,
    paths: Seq<PathBuf>,
)
    requires
        w.attempts(attempt),
    ensures
        touch::occurrences(w.stamps(paths), Stamp::Renewed) == paths.filter(
            |p: PathBuf| attempt(p).outcome is Ok,
        ).len(),
        touch::occurrences(w.stamps(paths), Stamp::Failed) == paths.filter(
            |p: PathBuf| attempt(p).outcome is Err && !attempt(p).outcome->Err_0.not_found,
        ).len(),
    decreases paths.len(),
{
    reveal(Seq::filter);
    if paths.len() > 0 {
        lemma_stamps_count_outcomes(w, attempt, paths.drop_last());
        assert(w.stamps(paths).drop_last() =~= w.stamps(paths.drop_last()));
        assert(w.stamps(paths).last() == (w.stamp)(paths.last()));
    }
}

/// A pass over directories counts, of all the entries that their walks list: as files
/// the listed files whose attempt succeeded, as directories the listed directories
/// whose attempt succeeded, and as failures the entries, files and directories alike,
/// whose attempt ended in an error other than that the entry is gone, and the
/// directories whose walk failed.
pub proof fn a_pass_counts_the_outcomes(
    w: World,
    attempt: spec_fn(PathBuf) -> Touch,
    dirs: Seq<Seq<char>>,
)
    requires
        w.attempts(attempt),
    ensures
        w.total(dirs).files == w.found_files(dirs).filter(
            |p: PathBuf| attempt(p).outcome is Ok,
        ).len(),
        w.total(dirs).dirs == w.found_dirs(dirs).filter(
            |p: PathBuf| attempt(p).outcome is Ok,
        ).len(),
        w.total(dirs).failures == w.found_files(dirs).filter(
            |p: PathBuf| attempt(p).outcome is Err && !attempt(p).outcome->Err_0.not_found,
        ).len() + w.found_dirs(dirs).filter(
            |p: PathBuf| attempt(p).outcome is Err && !attempt(p).outcome->Err_0.not_found,
        ).len() + dirs.filter(
            |d: Seq<char>|
                (w.walk)(d).msg != "ok"@ && !"skipped"@.is_prefix_of((w.walk)(d).msg),
        ).len(),
    decreases dirs.len(),
{
    reveal(Seq::filter);
    let renewed = |p: PathBuf| attempt(p).outcome is Ok;
    let failed = |p: PathBuf|
        attempt(p).outcome is Err && !attempt(p).outcome->Err_0.not_found;
    if dirs.len() > 0 {
        let init = dirs.drop_last();
        let walk = (w.walk)(dirs.last());
        a_pass_counts_the_outcomes(w, attempt, init);
        if walk.msg == "ok"@ {
            lemma_stamps_count_outcomes(w, attempt, walk.files);
            lemma_stamps_count_outcomes(w, attempt, walk.dirs);
            Seq::filter_distributes_over_add(w.found_files(init), walk.files, renewed);
            Seq::filter_distributes_over_add(w.found_files(init), walk.files, failed);
            Seq::filter_distributes_over_add(w.found_dirs(init), walk.dirs, renewed);
            Seq::filter_distributes_over_add(w.found_dirs(init), walk.dirs, failed);
        }
    }
}

/// Whoever runs a pass, and in whatever order, it ends with the counts of the outcomes.
pub proof fn passes_count_the_outcomes(
    w: World,
    attempt: spec_fn(PathBuf) -> Touch,
    dirs: Seq<Seq<char>>,
    parallel: Seq<PoolView>,
    serial: Seq<SerialView>,
)
    requires
        w.attempts(attempt),
        w.pool_run(dirs, parallel),
        parallel.last().drained(),
        w.serial_run(dirs, serial),
        serial.last().done(),
    ensures
        parallel.last().tally.files == w.found_files(dirs).filter(
            |p: PathBuf| attempt(p).outcome is Ok,
        ).len(),
        parallel.last().tally.dirs == w.found_dirs(dirs).filter(
            |p: PathBuf| attempt(p).outcome is Ok,
        ).len(),
        parallel.last().tally.failures == w.found_files(dirs).filter(
            |p: PathBuf| attempt(p).outcome is Err && !attempt(p).outcome->Err_0.not_found,
        ).len() + w.found_dirs(dirs).filter(
            |p: PathBuf| attempt(p).outcome is Err && !attempt(p).outcome->Err_0.not_found,
        ).len() + dirs.filter(
            |d: Seq<char>|
                (w.walk)(d).msg != "ok"@ && !"skipped"@.is_prefix_of((w.walk)(d).msg),
        ).len(),
        serial.last().tally.files == parallel.last().tally.files,
        serial.last().tally.dirs == parallel.last().tally.dirs,
        serial.last().tally.failures == parallel.last().tally.failures,
{
    a_pass_counts_the_outcomes(w, attempt, dirs);
    pool_counts_everything_once(w, dirs, parallel);
    serial_counts_everything_once(w, dirs, serial);
}

/// A pool starts with one walk of each directory, in order, and hands its tasks out
/// first in, first out.
pub proof fn pools_hand_out_in_order(dirs: Seq<Seq<char>>, s: PoolView)
    requires
        s.queue.len() > 0,
    ensures
        PoolView::start(dirs).queue.len() == dirs.len(),
        forall|i: int|
            0 <= i < dirs.len() ==> #[trigger] PoolView::start(dirs).queue[i]
                == TaskView::Enumerate(dirs[i]),
        PoolView::start(dirs).running.len() == 0,
        PoolView::start(dirs).tally == Tally::zero(),
        s.taken().running == s.running.push(s.queue[0]),
        seq![s.queue[0]] + s.taken().queue == s.queue,
        s.taken().tally == s.tally,
{
}

/// A walk that comes back puts a touch of each of its batches behind what is queued,
/// in their order, and takes nothing away but itself; one that did not go through
/// queues nothing.
pub proof fn walks_queue_their_batches(s: PoolView, dir: Seq<char>, walk: WalkView)
    requires
        s.running.contains(TaskView::Enumerate(dir)),
    ensures
        ({
            let t = s.walked(dir, walk);
            let batches = renewal::walk_batches(walk);
            &&& s.queue.is_prefix_of(t.queue)
            &&& walk.msg == "ok"@ ==> t.queue.len() == s.queue.len() + batches.len() && forall|
                i: int,
            |
                #![trigger batches[i]]
                0 <= i < batches.len() ==> t.queue[s.queue.len() + i] == TaskView::Touch(
                    dir,
                    batches[i],
                )
            &&& walk.msg != "ok"@ ==> t.queue == s.queue
            &&& t.running.to_multiset() == s.running.to_multiset().remove(
                TaskView::Enumerate(dir),
            )
            &&& t.running.len() == s.running.len() - 1
            &&& t.tally.files == s.tally.files
            &&& t.tally.dirs == s.tally.dirs
            &&& t.tally.failures == s.tally.failures + renewal::walk_tally(walk).failures
        }),
{
    let i = s.running.index_of(TaskView::Enumerate(dir));
    vstd::seq_lib::to_multiset_remove(s.running, i);
    let t = s.walked(dir, walk);
    let batches = renewal::walk_batches(walk);
    if walk.msg == "ok"@ {
        assert forall|i: int| #![trigger batches[i]] 0 <= i < batches.len() implies t.queue[
        s.queue.len() + i] == TaskView::Touch(dir, batches[i]) by {
            assert(pool::touch_tasks(dir, batches)[i] == TaskView::Touch(dir, batches[i]));
        }
    }
}

/// A batch that comes back takes nothing away but itself, and leaves the queue alone.
pub proof fn batches_leave_the_queue_alone(
    s: PoolView,
    dir: Seq<char>,
    batch: BatchView,
    touches: Seq<Touch>,
)
    requires
        s.running.contains(TaskView::Touch(dir, batch)),
    ensures
        ({
            let t = s.touched(dir, batch, touch::stamps_of(touches));
            &&& t.queue == s.queue
            &&& t.running.to_multiset() == s.running.to_multiset().remove(
                TaskView::Touch(dir, batch),
            )
            &&& t.running.len() == s.running.len() - 1
            &&& t.tally.failures == s.tally.failures + touches.filter(
                |t: Touch| t.outcome is Err && !t.outcome->Err_0.not_found,
            ).len()
            &&& t.tally.files == s.tally.files + if batch.kind is Files {
                touches.filter(|t: Touch| t.outcome is Ok).len()
            } else {
                0
            }
            &&& t.tally.dirs == s.tally.dirs + if batch.kind is Dirs {
                touches.filter(|t: Touch| t.outcome is Ok).len()
            } else {
                0
            }
        }),
{
    vstd::seq_lib::to_multiset_remove(s.running, s.running.index_of(TaskView::Touch(dir, batch)));
    renewal::batches_of_either_kind_count_alike(batch.kind, touches);
}

/// A pass covers the directories of a plan's kept list, one by one, in their order.
pub proof fn passes_cover_the_kept_list(rows: Seq<(Seq<char>, Seq<char>)>)
    ensures
        pool::dirs_of(rows).len() == rows.len(),
        forall|i: int| 0 <= i < rows.len() ==> #[trigger] pool::dirs_of(rows)[i] == rows[i].1,
{
}

impl World {
    /// The serial run has walked the first `k` directories, and what the one that it
    /// is at has renewed and has left adds up to the whole of it.
    spec fn serial_at(self, dirs: Seq<Seq<char>>, s: SerialView, k: int) -> bool {
        &&& 0 <= k <= dirs.len()
        &&& s.dirs == dirs.skip(k)
        &&& match s.current {
            None => s.tally == self.total(dirs.take(k)),
            Some(c) => {
                &&& 0 < k
                &&& c.dir == dirs[k - 1]
                &&& (self.walk)(c.dir).ok()
                &&& s.tally == self.total(dirs.take(k - 1))
                &&& c.one.plus(self.batches_total(c.batches)) == self.dir_tally(c.dir)
                &&& exists|n: int|
                    0 <= n <= renewal::walk_batches((self.walk)(c.dir)).len() && c.batches
                        == #[trigger] renewal::walk_batches((self.walk)(c.dir)).skip(n)
            },
        }
    }
}

/// The next directory has been walked.
proof fn lemma_serial_walked_at(w: World, dirs: Seq<Seq<char>>, s: SerialView, k: int)
    requires
        w.serial_at(dirs, s, k),
        s.at_walk(),
    ensures
        w.serial_at(dirs, s.walked((w.walk)(s.dirs.first())), k + 1),
{
    let dir = s.dirs.first();
    let t = s.walked((w.walk)(dir));
    let batches = renewal::walk_batches((w.walk)(dir));
    assert(dir == dirs[k]);
    assert(t.dirs =~= dirs.skip(k + 1));
    assert(dirs.take(k + 1).drop_last() =~= dirs.take(k));
    assert(dirs.take(k + 1).last() == dir);
    if (w.walk)(dir).ok() {
        lemma_walk_batches_total(w, dir);
        assert(t.current->0.batches =~= batches.skip(0));
    }
}

/// The next batch has been touched.
proof fn lemma_serial_touched_at(w: World, dirs: Seq<Seq<char>>, s: SerialView, k: int)
    requires
        w.serial_at(dirs, s, k),
        s.at_touch(),
    ensures
        w.serial_at(
            dirs,
            s.touched(w.stamps(s.current->0.batches.first().paths)),
            k,
        ),
{
    let c = s.current->0;
    let t = s.touched(w.stamps(c.batches.first().paths));
    let batches = renewal::walk_batches((w.walk)(c.dir));
    let n = choose|n: int| 0 <= n <= batches.len() && c.batches == #[trigger] batches.skip(n);
    lemma_batches_total_first(w, c.batches);
    assert(t.current->0.batches =~= batches.skip(n + 1));
}

/// The directory has been closed.
proof fn lemma_serial_finished_at(w: World, dirs: Seq<Seq<char>>, s: SerialView, k: int)
    requires
        w.serial_at(dirs, s, k),
        s.at_finish(),
    ensures
        w.serial_at(dirs, s.finished(), k),
{
    let c = s.current->0;
    assert(w.batches_total(c.batches) == Tally::zero());
    assert(dirs.take(k).drop_last() =~= dirs.take(k - 1));
    assert(dirs.take(k).last() == c.dir);
}

/// Wherever a serial run is, it has got there directory by directory.
proof fn lemma_serial_run_at(w: World, dirs: Seq<Seq<char>>, run: Seq<SerialView>, i: int) -> (k:
    int)
    requires
        w.serial_run(dirs, run),
        0 <= i < run.len(),
    ensures
        w.serial_at(dirs, run[i], k),
    decreases i,
{
    if i == 0 {
        assert(dirs.skip(0) =~= dirs);
        assert(dirs.take(0) =~= Seq::<Seq<char>>::empty());
        0
    } else {
        let k = lemma_serial_run_at(w, dirs, run, i - 1);
        let s = run[i - 1];
        assert(w.serial_step(run[i - 1], run[i - 1 + 1]));
        if s.at_walk() {
            lemma_serial_walked_at(w, dirs, s, k);
            k + 1
        } else if s.at_touch() {
            lemma_serial_touched_at(w, dirs, s, k);
            k
        } else {
            lemma_serial_finished_at(w, dirs, s, k);
            k
        }
    }
}

/// A serial run takes the directories in order, and when it closes one, and prints its
/// progress line, that directory's counters are what the whole of it renewed: nothing
/// of the others, and everything that its walk found.
pub proof fn progress_lines_tell_the_whole_directory(
    w: World,
    attempt: spec_fn(PathBuf) -> Touch,
    dirs: Seq<Seq<char>>,
    run: Seq<SerialView>,
    i: int,
)
    requires
        w.attempts(attempt),
        w.serial_run(dirs, run),
        0 <= i < run.len(),
        run[i].at_finish(),
    ensures
        ({
            let c = run[i].current->0;
            let k = dirs.len() - run[i].dirs.len();
            let walk = (w.walk)(c.dir);
            &&& 0 < k <= dirs.len()
            &&& c.dir == dirs[k - 1]
            &&& run[i].dirs == dirs.skip(k)
            &&& run[i].tally == w.total(dirs.take(k - 1))
            &&& c.one.files == walk.files.filter(|p: PathBuf| attempt(p).outcome is Ok).len()
            &&& c.one.dirs == walk.dirs.filter(|p: PathBuf| attempt(p).outcome is Ok).len()
            &&& c.one.failures == walk.files.filter(
                |p: PathBuf| attempt(p).outcome is Err && !attempt(p).outcome->Err_0.not_found,
            ).len() + walk.dirs.filter(
                |p: PathBuf| attempt(p).outcome is Err && !attempt(p).outcome->Err_0.not_found,
            ).len()
        }),
{
    let k = lemma_serial_run_at(w, dirs, run, i);
    let c = run[i].current->0;
    let walk = (w.walk)(c.dir);
    assert(w.batches_total(c.batches) == Tally::zero());
    lemma_stamps_count_outcomes(w, attempt, walk.files);
    lemma_stamps_count_outcomes(w, attempt, walk.dirs);
}

/// Whenever a serial run is about to walk a directory, it is the next of the plan, and
/// the counters hold all of the directories before it and nothing else.
pub proof fn serial_runs_take_directories_in_order(
    w: World,
    dirs: Seq<Seq<char>>,
    run: Seq<SerialView>,
    i: int,
)
    requires
        w.serial_run(dirs, run),
        0 <= i < run.len(),
        run[i].at_walk(),
    ensures
        ({
            let k = dirs.len() - run[i].dirs.len();
            &&& 0 <= k < dirs.len()
            &&& run[i].dirs.first() == dirs[k]
            &&& run[i].tally == w.total(dirs.take(k))
        }),
{
    let k = lemma_serial_run_at(w, dirs, run, i);
}

/// Whenever a serial run is about to touch a batch, it is the next of the batches of
/// the directory that was walked last.
pub proof fn serial_runs_touch_batches_in_order(
    w: World,
    dirs: Seq<Seq<char>>,
    run: Seq<SerialView>,
    i: int,
)
    requires
        w.serial_run(dirs, run),
        0 <= i < run.len(),
        run[i].at_touch(),
    ensures
        ({
            let c = run[i].current->0;
            let batches = renewal::walk_batches((w.walk)(c.dir));
            let k = dirs.len() - run[i].dirs.len();
            &&& 0 < k <= dirs.len()
            &&& c.dir == dirs[k - 1]
            &&& c.batches.is_suffix_of(batches)
            &&& c.batches.first() == batches[batches.len() - c.batches.len()]
        }),
{
    let k = lemma_serial_run_at(w, dirs, run, i);
    let c = run[i].current->0;
    let batches = renewal::walk_batches((w.walk)(c.dir));
    let n = choose|n: int| 0 <= n <= batches.len() && c.batches == #[trigger] batches.skip(n);
    assert(batches.skip(n).len() == batches.len() - n);
}

/// A serial run that walks a directory of which nothing can be listed goes straight on
/// to the next.
pub proof fn serial_runs_pass_over_failed_walks(s: SerialView, walk: WalkView)
    requires
        s.at_walk(),
        walk.msg != "ok"@,
    ensures
        s.walked(walk).current is None,
        s.walked(walk).dirs == s.dirs.drop_first(),
        s.walked(walk).tally.files == s.tally.files,
        s.walked(walk).tally.dirs == s.tally.dirs,
        s.walked(walk).tally.failures == s.tally.failures + if "skipped"@.is_prefix_of(walk.msg) {
            0nat
        } else {
            1nat
        },
{
}

} // verus!
