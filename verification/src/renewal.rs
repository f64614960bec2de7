//! What a renewal pass renews: the counters, and what a walk or a batch adds to
//! them.
use crate::shard;
use crate::text;
use crate::touch;
use crate::touch::{Stamp, Touch};
use crate::walk::{Walk, WalkView};
use std::path::PathBuf;
use vstd::prelude::*;
use vstd::string::*;

verus! {

/// What a renewal pass actually renewed.
///
/// `files` and `dirs` count entries that got fresh stamps: an entry that vanished
/// between enumeration and touch is in neither. `failures` counts failed
/// *operations*: one per entry that could not be touched, plus one per directory
/// that could not be walked.
#[derive(Debug, PartialEq, Eq, Structural)]
pub struct Renewal {
    pub files: usize,
    pub dirs: usize,
    pub failures: usize,
}

/// The counters of a `Renewal`.
pub struct Tally {
    pub files: nat,
    pub dirs: nat,
    pub failures: nat,
}

impl View for Renewal {
    type V = Tally;

    open spec fn view(&self) -> Tally {
        Tally {
            files: self.files as nat,
            dirs: self.dirs as nat,
            failures: self.failures as nat,
        }
    }
}

impl Tally {
    /// Nothing renewed, nothing failed.
    pub open spec fn zero() -> Tally {
        Tally { files: 0, dirs: 0, failures: 0 }
    }

    /// One operation failed.
    pub open spec fn one_failure() -> Tally {
        Tally { files: 0, dirs: 0, failures: 1 }
    }

    /// Both together.
    pub open spec fn plus(self, other: Tally) -> Tally {
        Tally {
            files: self.files + other.files,
            dirs: self.dirs + other.dirs,
            failures: self.failures + other.failures,
        }
    }

    /// Every counter can still grow by `n`.
    pub open spec fn has_room(self, n: nat) -> bool {
        &&& self.files + n <= usize::MAX
        &&& self.dirs + n <= usize::MAX
        &&& self.failures + n <= usize::MAX
    }
}

impl Default for Renewal {
    fn default() -> (r: Self)
        ensures
            r@ == Tally::zero(),
            r.files == 0,
            r.dirs == 0,
            r.failures == 0,
    {
        Renewal { files: 0, dirs: 0, failures: 0 }
    }
}

impl Renewal {
    /// Adds another pass's counters.
    pub fn add(&mut self, other: &Renewal)
        requires
            old(self)@.plus(other@).has_room(0),
        ensures
            final(self)@ == old(self)@.plus(other@),
            final(self).files == old(self).files + other.files,
            final(self).dirs == old(self).dirs + other.dirs,
            final(self).failures == old(self).failures + other.failures,
    {
        self.files = self.files + other.files;
        self.dirs = self.dirs + other.dirs;
        self.failures = self.failures + other.failures;
    }

    /// Whether every counter can still grow by `n`.
    pub fn has_room(&self, n: usize) -> (r: bool)
        ensures
            r == self@.has_room(n as nat),
            r <==> self.files + n <= usize::MAX && self.dirs + n <= usize::MAX && self.failures + n
                <= usize::MAX,
    {
        self.files <= usize::MAX - n && self.dirs <= usize::MAX - n && self.failures <= usize::MAX
            - n
    }
}

/// Which counter a touched batch lands in.
#[derive(Debug, Clone, Copy, PartialEq, Eq, Structural)]
pub enum Kind {
    Files,
    Dirs,
}

/// A batch of entries to touch.
#[derive(Debug)]
pub struct Batch {
    pub paths: Vec<PathBuf>,
    pub kind: Kind,
}

/// What a `Batch` holds.
#[verifier::ext_equal]
pub struct BatchView {
    pub paths: Seq<PathBuf>,
    pub kind: Kind,
}

impl View for Batch {
    type V = BatchView;

    open spec fn view(&self) -> BatchView {
        BatchView { paths: self.paths@, kind: self.kind }
    }
}

/// The batches by their views.
pub open spec fn batch_views(batches: Seq<Batch>) -> Seq<BatchView> {
    batches.map_values(|b: Batch| b@)
}

/// The paths in batches of one kind.
pub open spec fn batches_of_kind(paths: Seq<PathBuf>, kind: Kind) -> Seq<BatchView> {
    shard::batches_of(paths, shard::BATCH as nat).map_values(
        |b: Seq<PathBuf>| BatchView { paths: b, kind },
    )
}

/// A walk's entries in batches: the files, then the directories.
pub open spec fn walk_batches(walk: WalkView) -> Seq<BatchView> {
    batches_of_kind(walk.files, Kind::Files) + batches_of_kind(walk.dirs, Kind::Dirs)
}

/// What the outcomes of a batch add.
pub open spec fn batch_tally(kind: Kind, stamps: Seq<Stamp>) -> Tally {
    let renewed = touch::occurrences(stamps, Stamp::Renewed);
    let failures = touch::occurrences(stamps, Stamp::Failed);
    match kind {
        Kind::Files => Tally { files: renewed, dirs: 0, failures },
        Kind::Dirs => Tally { files: 0, dirs: renewed, failures },
    }
}

/// What a walk itself adds: a failure where it met an error.
pub open spec fn walk_tally(walk: WalkView) -> Tally {
    if walk.ok() || walk.skipped() {
        Tally::zero()
    } else {
        Tally::one_failure()
    }
}

/// The line that reports a walk that met an error.
pub open spec fn walk_failure_line(dir: Seq<char>, walk: WalkView) -> Option<Seq<char>> {
    if walk.ok() || walk.skipped() {
        None
    } else {
        Some("FAIL enumerate "@ + dir + " :: "@ + walk.msg)
    }
}

/// The line that reports the failures in a batch.
pub open spec fn batch_failure_line(dir: Seq<char>, touches: Seq<Touch>) -> Option<Seq<char>> {
    if touch::occurrences(touch::stamps_of(touches), Stamp::Failed) > 0 {
        Some("FAIL touch "@ + dir + " :: "@ + touch::batch_message(touches))
    } else {
        None
    }
}

/// A line by its view, where there is one.
pub open spec fn line_view(line: Option<String>) -> Option<Seq<char>> {
    match line {
        Some(s) => Some(s@),
        None => None,
    }
}

/// The per-directory progress line: what was renewed, and whether anything failed.
pub open spec fn status_line(one: Tally, dir: Seq<char>) -> Seq<char> {
    let (tag, failed) = if one.failures > 0 {
        ("fail"@, " · "@ + text::decimal(one.failures) + " failed"@)
    } else {
        ("ok"@, Seq::empty())
    };
    "  "@ + text::left_aligned(tag, 4) + " "@ + text::right_aligned(text::decimal(one.files), 7)
        + " files "@ + text::right_aligned(text::decimal(one.dirs), 6) + " dirs"@ + failed + "  "@
        + dir
}

/// Puts the batches of one kind behind `out`.
fn push_batches(out: &mut Vec<Batch>, paths: Vec<PathBuf>, kind: Kind)
    ensures
        batch_views(final(out)@) == batch_views(old(out)@) + batches_of_kind(paths@, kind),
{
    let ghost before = batch_views(out@);
    let ghost split = shard::batches_of(paths@, shard::BATCH as nat);
    let batches = shard::shard(paths, shard::BATCH);
    assert(shard::contents(batches@) == split);
    assert(batch_views(out@) =~= before + batches_of_kind(paths@, kind).take(0));
    for batch in iter: batches
        invariant
            shard::contents(batches@) == split,
            iter.seq() == batches@,
            split == shard::batches_of(paths@, shard::BATCH as nat),
            batch_views(out@) == before + batches_of_kind(paths@, kind).take(
                iter.index() as int,
            ),
    {
        let ghost i = iter.index() as int;
        let ghost so_far = batch_views(out@);
        assert(batch@ == split[i]) by {
            assert(shard::contents(batches@)[i] == batches@[i]@);
        }
        let ghost view = BatchView { paths: batch@, kind };
        out.push(Batch { paths: batch, kind });
        assert(batch_views(out@) =~= so_far.push(view));
        assert(batches_of_kind(paths@, kind)[i] == view);
        assert(batch_views(out@) =~= before + batches_of_kind(paths@, kind).take(i + 1));
    }
    assert(split.len() == batches@.len()) by {
        assert(shard::contents(batches@).len() == batches@.len());
    }
    assert(batches_of_kind(paths@, kind).take(split.len() as int) =~= batches_of_kind(
        paths@,
        kind,
    ));
}

/// Shards a walk's entries: the files, then the directories.
pub fn shard_walk(walk: Walk) -> (batches: Vec<Batch>)
    ensures
        batch_views(batches@) == walk_batches(walk@),
{
    let mut batches: Vec<Batch> = Vec::new();
    push_batches(&mut batches, walk.files, Kind::Files);
    push_batches(&mut batches, walk.dirs, Kind::Dirs);
    assert(batch_views(batches@) =~= walk_batches(walk@));
    batches
}

/// Whether a walk went through.
pub fn walk_is_ok(walk: &Walk) -> (r: bool)
    ensures
        r == walk@.ok(),
{
    text::same_text(walk.msg.as_str(), "ok")
}

/// Words a walk that met an error.
pub fn walk_failure(dir: &str, walk: &Walk) -> (line: Option<String>)
    ensures
        line_view(line) == walk_failure_line(dir@, walk@),
{
    if walk_is_ok(walk) || text::has_prefix(walk.msg.as_str(), "skipped") {
        None
    } else {
        let mut line = "FAIL enumerate ".to_owned();
        line.append(dir);
        line.append(" :: ");
        line.append(walk.msg.as_str());
        Some(line)
    }
}

/// Counts the outcomes of a batch, and words its failures.
pub fn count_batch(
    renewal: &mut Renewal,
    dir: &str,
    kind: Kind,
    touches: &[Touch],
) -> (line: Option<String>)
    requires
        old(renewal)@.plus(batch_tally(kind, touch::stamps_of(touches@))).has_room(0),
    ensures
        final(renewal)@ == old(renewal)@.plus(batch_tally(kind, touch::stamps_of(touches@))),
        line_view(line) == batch_failure_line(dir@, touches@),
        final(renewal).failures == old(renewal).failures + touches@.filter(
            |t: Touch| t.outcome is Err && !t.outcome->Err_0.not_found,
        ).len(),
        kind is Files ==> final(renewal).files == old(renewal).files + touches@.filter(
            |t: Touch| t.outcome is Ok,
        ).len() && final(renewal).dirs == old(renewal).dirs,
        kind is Dirs ==> final(renewal).dirs == old(renewal).dirs + touches@.filter(
            |t: Touch| t.outcome is Ok,
        ).len() && final(renewal).files == old(renewal).files,
{
    let (renewed, errors, msg) = touch::touch_entries(touches);
    match kind {
        Kind::Files => {
            renewal.files = renewal.files + renewed;
        },
        Kind::Dirs => {
            renewal.dirs = renewal.dirs + renewed;
        },
    }
    if errors > 0 {
        renewal.failures = renewal.failures + errors;
        let mut line = "FAIL touch ".to_owned();
        line.append(dir);
        line.append(" :: ");
        line.append(msg.as_str());
        Some(line)
    } else {
        None
    }
}

/// The serial mode's per-directory progress line.
///
/// It reports what the directory actually *renewed*, not what the walk found, and
/// drops the `ok` tag as soon as anything failed.
pub fn dir_status_line(one: &Renewal, directory: &str) -> (line: String)
    ensures
        line@ == status_line(one@, directory@),
{
    let mut tag = "ok";
    let mut failed = String::new();
    if one.failures > 0 {
        tag = "fail";
        failed = " · ".to_owned();
        let count = text::decimal_text(one.failures as u128);
        failed.append(count.as_str());
        failed.append(" failed");
    }
    let mut line = "  ".to_owned();
    let tag = text::align_left(tag, 4);
    line.append(tag.as_str());
    line.append(" ");
    let files = text::decimal_text(one.files as u128);
    let files = text::align_right(files.as_str(), 7);
    line.append(files.as_str());
    line.append(" files ");
    let dirs = text::decimal_text(one.dirs as u128);
    let dirs = text::align_right(dirs.as_str(), 6);
    line.append(dirs.as_str());
    line.append(" dirs");
    line.append(failed.as_str());
    line.append("  ");
    line.append(directory);
    line
}

/// A batch of either kind adds to the failures the number of its attempts that ended
/// in an error other than that the entry is gone, to the counter of its own kind the
/// number of its attempts that succeeded, and to the other counter nothing.
pub proof fn batches_of_either_kind_count_alike(kind: Kind, touches: Seq<Touch>)
    ensures
        batch_tally(kind, touch::stamps_of(touches)).failures == touches.filter(
            |t: Touch| t.outcome is Err && !t.outcome->Err_0.not_found,
        ).len(),
        batch_tally(kind, touch::stamps_of(touches)).files == if kind is Files {
            touches.filter(|t: Touch| t.outcome is Ok).len()
        } else {
            0
        },
        batch_tally(kind, touch::stamps_of(touches)).dirs == if kind is Dirs {
            touches.filter(|t: Touch| t.outcome is Ok).len()
        } else {
            0
        },
{
    touch::counts_are_taken_of_the_outcomes(touches);
}

/// A walk adds one failure where its message is neither `ok` nor a skip, and nothing
/// else ever.
pub proof fn walks_add_at_most_one_failure(walk: WalkView)
    ensures
        walk_tally(walk).files == 0,
        walk_tally(walk).dirs == 0,
        walk_tally(walk).failures == if walk.msg == "ok"@ || "skipped"@.is_prefix_of(walk.msg) {
            0nat
        } else {
            1nat
        },
{
}

/// Adding up passes adds up each counter.
pub proof fn counters_add_up(a: Tally, b: Tally)
    ensures
        a.plus(b).files == a.files + b.files,
        a.plus(b).dirs == a.dirs + b.dirs,
        a.plus(b).failures == a.failures + b.failures,
        a.plus(b) == b.plus(a),
        a.plus(Tally::zero()) == a,
{
}

/// A walk is reported exactly where it counts as a failure, with the directory and the
/// walk's own words.
pub proof fn failed_walks_are_reported(dir: Seq<char>, walk: WalkView)
    ensures
        walk_failure_line(dir, walk) is Some <==> walk_tally(walk).failures > 0,
        walk_failure_line(dir, walk) matches Some(line) ==> ("FAIL enumerate "@ + dir
            + " :: "@).is_prefix_of(line) && walk.msg.is_suffix_of(line) && line.len() == (
        "FAIL enumerate "@ + dir + " :: "@).len() + walk.msg.len(),
{
    if let Some(line) = walk_failure_line(dir, walk) {
        let front = "FAIL enumerate "@ + dir + " :: "@;
        assert(line.take(front.len() as int) =~= front);
        assert(line.skip(front.len() as int) =~= walk.msg);
    }
}

/// A batch is reported exactly where one of its attempts ended in an error other than
/// that the entry is gone, with the directory and the batch's message.
pub proof fn failed_batches_are_reported(dir: Seq<char>, touches: Seq<Touch>)
    ensures
        batch_failure_line(dir, touches) is Some <==> touches.filter(
            |t: Touch| t.outcome is Err && !t.outcome->Err_0.not_found,
        ).len() > 0,
        batch_failure_line(dir, touches) matches Some(line) ==> ("FAIL touch "@ + dir
            + " :: "@).is_prefix_of(line) && touch::batch_message(touches).is_suffix_of(line)
            && line.len() == ("FAIL touch "@ + dir + " :: "@).len() + touch::batch_message(
            touches,
        ).len(),
{
    touch::counts_are_taken_of_the_outcomes(touches);
    if let Some(line) = batch_failure_line(dir, touches) {
        let front = "FAIL touch "@ + dir + " :: "@;
        assert(line.take(front.len() as int) =~= front);
        assert(line.skip(front.len() as int) =~= touch::batch_message(touches));
    }
}

/// The paths of the batches, batch by batch.
pub open spec fn paths_of(batches: Seq<BatchView>) -> Seq<Seq<PathBuf>> {
    batches.map_values(|b: BatchView| b.paths)
}

/// A walk's batches hold every file that it lists and then every directory that it
/// lists, in the order of the walk: none is left out, none comes twice, and a batch
/// holds entries of one kind only, at most as many as a shard takes.
pub proof fn walk_batches_hold_every_entry(walk: WalkView)
    ensures
        exists|n: int|
            0 <= n <= walk_batches(walk).len() && #[trigger] paths_of(
                walk_batches(walk).take(n),
            ).flatten() == walk.files && paths_of(walk_batches(walk).skip(n)).flatten()
                == walk.dirs && (forall|i: int|
                0 <= i < walk_batches(walk).len() ==> (#[trigger] walk_batches(walk)[i]).kind == (
                if i < n {
                    Kind::Files
                } else {
                    Kind::Dirs
                })),
        forall|i: int|
            0 <= i < walk_batches(walk).len() ==> 0 < (
            #[trigger] walk_batches(walk)[i]).paths.len() <= 2000,
{
    let size = shard::BATCH as nat;
    let files = batches_of_kind(walk.files, Kind::Files);
    let dirs = batches_of_kind(walk.dirs, Kind::Dirs);
    let n = files.len() as int;
    let all = walk_batches(walk);
    shard::batches_hold_every_item(walk.files, size);
    shard::batches_hold_every_item(walk.dirs, size);
    shard::batches_are_even(walk.files, size);
    shard::batches_are_even(walk.dirs, size);
    assert(all.take(n) =~= files);
    assert(all.skip(n) =~= dirs);
    assert(paths_of(files) =~= shard::batches_of(walk.files, size));
    assert(paths_of(dirs) =~= shard::batches_of(walk.dirs, size));
    assert forall|i: int| 0 <= i < all.len() implies 0 < (#[trigger] all[i]).paths.len()
        <= 2000 by {
        if i < n {
            assert(all[i].paths == shard::batches_of(walk.files, size)[i]);
        } else {
            assert(all[i].paths == shard::batches_of(walk.dirs, size)[i - n]);
        }
    }
    assert(paths_of(all.take(n)).flatten() == walk.files);
}

/// A walk's batches are full but for the last of each kind.
pub proof fn walk_batches_are_full(walk: WalkView, i: int)
    requires
        0 <= i < walk_batches(walk).len() - 1,
        walk_batches(walk)[i].kind == walk_batches(walk)[i + 1].kind,
    ensures
        walk_batches(walk)[i].paths.len() == 2000,
{
    let size = shard::BATCH as nat;
    let n = batches_of_kind(walk.files, Kind::Files).len() as int;
    shard::batches_are_even(walk.files, size);
    shard::batches_are_even(walk.dirs, size);
    if i < n {
        assert(walk_batches(walk)[i].paths == shard::batches_of(walk.files, size)[i]);
    } else {
        assert(walk_batches(walk)[i].paths == shard::batches_of(walk.dirs, size)[i - n]);
    }
}

/// The progress line of a directory: the tag `ok` where nothing failed, `fail` and the
/// number of failures where something did, both counters, and the directory.
pub proof fn status_lines_tell_the_counts(one: Tally, dir: Seq<char>)
    ensures
        one.failures == 0 ==> status_line(one, dir) == "  ok   "@ + text::right_aligned(
            text::decimal(one.files),
            7,
        ) + " files "@ + text::right_aligned(text::decimal(one.dirs), 6) + " dirs  "@ + dir,
        one.failures > 0 ==> status_line(one, dir) == "  fail "@ + text::right_aligned(
            text::decimal(one.files),
            7,
        ) + " files "@ + text::right_aligned(text::decimal(one.dirs), 6) + " dirs · "@
            + text::decimal(one.failures) + " failed  "@ + dir,
{
    reveal_strlit("  ok   ");
    reveal_strlit("  fail ");
    reveal_strlit("ok");
    reveal_strlit("fail");
    reveal_strlit("  ");
    reveal_strlit(" ");
    reveal_strlit(" dirs");
    reveal_strlit(" dirs  ");
    reveal_strlit(" dirs · ");
    reveal_strlit(" · ");
    reveal_strlit(" failed");
    reveal_strlit(" failed  ");
    assert("  "@ + text::left_aligned("ok"@, 4) + " "@ =~= "  ok   "@);
    assert("  "@ + text::left_aligned("fail"@, 4) + " "@ =~= "  fail "@);
    assert(" dirs"@ + Seq::<char>::empty() + "  "@ =~= " dirs  "@);
    assert(" dirs"@ + " · "@ =~= " dirs · "@);
    assert(" failed"@ + "  "@ =~= " failed  "@);
    let f = text::right_aligned(text::decimal(one.files), 7);
    let d = text::right_aligned(text::decimal(one.dirs), 6);
    if one.failures == 0 {
        assert(status_line(one, dir) =~= ("  "@ + text::left_aligned("ok"@, 4) + " "@) + f
            + " files "@ + d + (" dirs"@ + Seq::<char>::empty() + "  "@) + dir);
    } else {
        assert(status_line(one, dir) =~= ("  "@ + text::left_aligned("fail"@, 4) + " "@) + f
            + " files "@ + d + (" dirs"@ + " · "@) + text::decimal(one.failures) + (" failed"@
            + "  "@) + dir);
    }
}

/// Counters, batches and lines are seen as they are.
pub proof fn batches_are_seen_as_they_are(
    renewal: Renewal,
    batches: Seq<Batch>,
    i: int,
    line: Option<String>,
)
    requires
        0 <= i < batches.len(),
    ensures
        renewal@.files == renewal.files,
        renewal@.dirs == renewal.dirs,
        renewal@.failures == renewal.failures,
        batch_views(batches).len() == batches.len(),
        batch_views(batches)[i].paths == batches[i].paths@,
        batch_views(batches)[i].kind == batches[i].kind,
        line_view(line) is Some <==> line is Some,
        line matches Some(text) ==> line_view(line) == Some(text@),
{
}

} // verus!
