//! One kept directory's entries, as a walk of it found them.
use std::path::PathBuf;
use vstd::prelude::*;
use vstd::string::*;

verus! {

/// `std::path::PathBuf`, carried from the walk to the touch unread.
#[verifier::external_type_specification]
#[verifier::external_body]
pub struct ExPathBuf(std::path::PathBuf);

/// What kind of entry the walker met, without following a symbolic link.
#[derive(Debug, Clone, Copy, PartialEq, Eq, Structural)]
pub enum EntryType {
    File,
    Dir,
    Symlink,
    Other,
}

/// One step of the walker: an entry, with its type where it has one, or an
/// error.
#[derive(Debug)]
pub enum WalkEvent {
    Entry(PathBuf, Option<EntryType>),
    Failed(String),
}

/// One kept directory's entries.
#[derive(Debug)]
pub struct Walk {
    /// Regular files under the directory (`find DIR -type f`).
    pub files: Vec<PathBuf>,
    /// The directory itself plus every subdirectory (`find DIR -type d`).
    pub dirs: Vec<PathBuf>,
    /// `ok`, a `skipped: ...` note, or the walk error.
    pub msg: String,
}

/// What a `Walk` holds.
#[verifier::ext_equal]
pub struct WalkView {
    pub files: Seq<PathBuf>,
    pub dirs: Seq<PathBuf>,
    pub msg: Seq<char>,
}

impl View for Walk {
    type V = WalkView;

    open spec fn view(&self) -> WalkView {
        WalkView { files: self.files@, dirs: self.dirs@, msg: self.msg@ }
    }
}

impl WalkView {
    /// The walk went through.
    pub open spec fn ok(self) -> bool {
        self.msg == "ok"@
    }

    /// There was nothing to walk.
    pub open spec fn skipped(self) -> bool {
        "skipped"@.is_prefix_of(self.msg)
    }
}

impl Default for Walk {
    fn default() -> (r: Self)
        ensures
            r.files@.len() == 0,
            r.dirs@.len() == 0,
            r.msg@.len() == 0,
    {
        Walk { files: Vec::new(), dirs: Vec::new(), msg: String::new() }
    }
}

/// The paths of the entries of type `kind`, in the order of the walk.
pub open spec fn entries_of(events: Seq<WalkEvent>, kind: EntryType) -> Seq<PathBuf>
    decreases events.len(),
{
    if events.len() == 0 {
        Seq::empty()
    } else {
        let before = entries_of(events.drop_last(), kind);
        match events.last() {
            WalkEvent::Entry(path, Some(t)) if t == kind => before.push(path),
            _ => before,
        }
    }
}

/// The last error that the walk met.
pub open spec fn last_failure(events: Seq<WalkEvent>) -> Option<Seq<char>>
    decreases events.len(),
{
    if events.len() == 0 {
        None
    } else {
        match events.last() {
            WalkEvent::Failed(msg) => Some(msg@),
            _ => last_failure(events.drop_last()),
        }
    }
}

/// What a walk amounts to.
pub open spec fn walk_of(is_dir: bool, events: Seq<WalkEvent>) -> WalkView {
    if !is_dir {
        WalkView {
            files: Seq::empty(),
            dirs: Seq::empty(),
            msg: "skipped: not a directory"@,
        }
    } else {
        match last_failure(events) {
            Some(msg) => WalkView { files: Seq::empty(), dirs: Seq::empty(), msg },
            None => WalkView {
                files: entries_of(events, EntryType::File),
                dirs: entries_of(events, EntryType::Dir),
                msg: "ok"@,
            },
        }
    }
}

/// Lists every regular file and directory that one walk of a directory met.
///
/// A path that is not a directory (flagged, then removed) is a benign skip. A
/// walk that met an error lists nothing and carries the last error. Symbolic
/// links and other entries are in neither list.
pub fn enumerate_dir(is_dir: bool, events: Vec<WalkEvent>) -> (walk: Walk)
    ensures
        walk@ == walk_of(is_dir, events@),
{
    if !is_dir {
        let mut walk = Walk::default();
        walk.msg = "skipped: not a directory".to_owned();
        return walk;
    }
    let ghost all = events@;
    let mut files: Vec<PathBuf> = Vec::new();
    let mut dirs: Vec<PathBuf> = Vec::new();
    let mut walk_error: Option<String> = None;
    assert(all.take(0) =~= Seq::<WalkEvent>::empty());
    for event in iter: events
        invariant
            all == events@,
            iter.seq() == all,
            files@ == entries_of(all.take(iter.index() as int), EntryType::File),
            dirs@ == entries_of(all.take(iter.index() as int), EntryType::Dir),
            match walk_error {
                Some(msg) => last_failure(all.take(iter.index() as int)) == Some(msg@),
                None => last_failure(all.take(iter.index() as int)) is None,
            },
    {
        proof {
            let i = iter.index() as int;
            assert(all.take(i + 1).drop_last() =~= all.take(i));
            assert(all.take(i + 1).last() == event);
        }
        match event {
            WalkEvent::Entry(path, Some(EntryType::File)) => files.push(path),
            WalkEvent::Entry(path, Some(EntryType::Dir)) => dirs.push(path),
            WalkEvent::Entry(_, _) => {},
            WalkEvent::Failed(msg) => {
                walk_error = Some(msg);
            },
        }
    }
    assert(all.take(all.len() as int) =~= all);
    if let Some(msg) = walk_error {
        let mut walk = Walk::default();
        walk.msg = msg;
        return walk;
    }
    Walk { files, dirs, msg: "ok".to_owned() }
}

/// Whether the walk met `path` as an entry of type `kind`.
pub open spec fn met(events: Seq<WalkEvent>, path: PathBuf, kind: EntryType) -> bool {
    exists|i: int|
        0 <= i < events.len() && #[trigger] events[i] == WalkEvent::Entry(path, Some(kind))
}

/// A list holds exactly the entries of its type that the walk met: never a symbolic
/// link, nor anything else.
pub proof fn lists_hold_their_type(events: Seq<WalkEvent>, kind: EntryType, path: PathBuf)
    ensures
        entries_of(events, kind).contains(path) <==> met(events, path, kind),
    decreases events.len(),
{
    if events.len() > 0 {
        let init = events.drop_last();
        let before = entries_of(init, kind);
        let all = entries_of(events, kind);
        lists_hold_their_type(init, kind, path);
        if met(init, path, kind) {
            let i = choose|i: int|
                0 <= i < init.len() && #[trigger] init[i] == WalkEvent::Entry(path, Some(kind));
            assert(events[i] == WalkEvent::Entry(path, Some(kind)));
            let k = choose|k: int| 0 <= k < before.len() && before[k] == path;
            assert(all[k] == path);
        }
        if met(events, path, kind) {
            let i = choose|i: int|
                0 <= i < events.len() && #[trigger] events[i] == WalkEvent::Entry(
                    path,
                    Some(kind),
                );
            if i < init.len() {
                assert(init[i] == events[i]);
            } else {
                assert(all[all.len() - 1] == path);
            }
        }
        if all.contains(path) {
            let k = choose|k: int| 0 <= k < all.len() && all[k] == path;
            if k < before.len() {
                assert(before[k] == path);
            } else {
                assert(events[events.len() - 1] == WalkEvent::Entry(path, Some(kind)));
            }
        }
    }
}

/// A walk that did not go through lists nothing to touch.
pub proof fn failed_walk_lists_nothing(is_dir: bool, events: Seq<WalkEvent>)
    requires
        !is_dir || last_failure(events) is Some,
    ensures
        walk_of(is_dir, events).files.len() == 0,
        walk_of(is_dir, events).dirs.len() == 0,
{
}

/// A directory that is gone is a skip, not a failure.
pub proof fn missing_directory_is_a_skip(events: Seq<WalkEvent>)
    ensures
        walk_of(false, events).skipped(),
        !walk_of(false, events).ok(),
{
    reveal_strlit("skipped");
    reveal_strlit("skipped: not a directory");
    reveal_strlit("ok");
    assert("skipped: not a directory"@.len() == 24);
    assert("ok"@.len() == 2);
    assert("skipped"@ =~= "skipped: not a directory"@.take(7));
}

/// Whether the walk met an error.
pub open spec fn met_error(events: Seq<WalkEvent>) -> bool {
    exists|i: int| 0 <= i < events.len() && (#[trigger] events[i]) is Failed
}

/// There is a last error exactly where the walk met one.
proof fn lemma_last_failure_is_met(events: Seq<WalkEvent>)
    ensures
        last_failure(events) is Some <==> met_error(events),
    decreases events.len(),
{
    if events.len() > 0 {
        let init = events.drop_last();
        lemma_last_failure_is_met(init);
        if events.last() is Failed {
            assert(events[events.len() - 1] is Failed);
        } else if met_error(events) {
            let i = choose|i: int| 0 <= i < events.len() && (#[trigger] events[i]) is Failed;
            assert(init[i] is Failed);
        } else if met_error(init) {
            let i = choose|i: int| 0 <= i < init.len() && (#[trigger] init[i]) is Failed;
            assert(events[i] is Failed);
        }
    }
}

/// A list is as long as there were entries of its type, and holds a path as often as
/// it was met.
proof fn lemma_entries_are_counted(events: Seq<WalkEvent>, kind: EntryType, path: PathBuf)
    ensures
        entries_of(events, kind).filter(|p: PathBuf| p == path).len() == events.filter(
            |e: WalkEvent| e == WalkEvent::Entry(path, Some(kind)),
        ).len(),
        entries_of(events, kind).len() == events.filter(
            |e: WalkEvent| e is Entry && e->Entry_1 == Some(kind),
        ).len(),
    decreases events.len(),
{
    reveal(Seq::filter);
    if events.len() > 0 {
        let init = events.drop_last();
        let all = entries_of(events, kind);
        lemma_entries_are_counted(init, kind, path);
        match events.last() {
            WalkEvent::Entry(p, Some(t)) if t == kind => {
                assert(all.drop_last() =~= entries_of(init, kind));
                assert(all.last() == p);
            },
            _ => {},
        }
    }
}

/// A walk of a directory that met no error went through, and lists every path as
/// often as it met it: in `dirs` where it met it as a directory, in `files` where it
/// met it as a regular file. Nothing else is listed.
pub proof fn walks_list_what_they_meet(events: Seq<WalkEvent>, path: PathBuf)
    requires
        forall|i: int| 0 <= i < events.len() ==> (#[trigger] events[i]) is Entry,
    ensures
        walk_of(true, events).msg == "ok"@,
        walk_of(true, events).dirs.filter(|p: PathBuf| p == path).len() == events.filter(
            |e: WalkEvent| e == WalkEvent::Entry(path, Some(EntryType::Dir)),
        ).len(),
        walk_of(true, events).files.filter(|p: PathBuf| p == path).len() == events.filter(
            |e: WalkEvent| e == WalkEvent::Entry(path, Some(EntryType::File)),
        ).len(),
        walk_of(true, events).dirs.contains(path) <==> met(events, path, EntryType::Dir),
        walk_of(true, events).files.contains(path) <==> met(events, path, EntryType::File),
        walk_of(true, events).dirs.len() == events.filter(
            |e: WalkEvent| e is Entry && e->Entry_1 == Some(EntryType::Dir),
        ).len(),
        walk_of(true, events).files.len() == events.filter(
            |e: WalkEvent| e is Entry && e->Entry_1 == Some(EntryType::File),
        ).len(),
{
    lemma_last_failure_is_met(events);
    lemma_entries_are_counted(events, EntryType::Dir, path);
    lemma_entries_are_counted(events, EntryType::File, path);
    lists_hold_their_type(events, EntryType::Dir, path);
    lists_hold_their_type(events, EntryType::File, path);
}

/// Entries of a type are listed piece by piece.
proof fn lemma_entries_add(a: Seq<WalkEvent>, b: Seq<WalkEvent>, kind: EntryType)
    ensures
        entries_of(a + b, kind) == entries_of(a, kind) + entries_of(b, kind),
    decreases b.len(),
{
    if b.len() == 0 {
        assert(a + b =~= a);
        assert(entries_of(a, kind) + entries_of(b, kind) =~= entries_of(a, kind));
    } else {
        lemma_entries_add(a, b.drop_last(), kind);
        assert((a + b).drop_last() =~= a + b.drop_last());
        assert(entries_of(a + b, kind) =~= entries_of(a, kind) + entries_of(b, kind));
    }
}

/// The lists follow the order of the walk: what it met first is listed first.
pub proof fn lists_follow_the_walk(a: Seq<WalkEvent>, b: Seq<WalkEvent>)
    requires
        forall|i: int| 0 <= i < a.len() ==> (#[trigger] a[i]) is Entry,
        forall|i: int| 0 <= i < b.len() ==> (#[trigger] b[i]) is Entry,
    ensures
        walk_of(true, a + b).files == walk_of(true, a).files + walk_of(true, b).files,
        walk_of(true, a + b).dirs == walk_of(true, a).dirs + walk_of(true, b).dirs,
{
    lemma_last_failure_is_met(a);
    lemma_last_failure_is_met(b);
    lemma_last_failure_is_met(a + b);
    lemma_entries_add(a, b, EntryType::File);
    lemma_entries_add(a, b, EntryType::Dir);
}

/// A walk that met errors lists nothing, and its message is that of the last of them.
pub proof fn walks_end_with_their_last_error(events: Seq<WalkEvent>, i: int)
    requires
        0 <= i < events.len(),
        events[i] is Failed,
        forall|j: int| i < j < events.len() ==> (#[trigger] events[j]) is Entry,
    ensures
        walk_of(true, events).msg == events[i]->Failed_0@,
        walk_of(true, events).files.len() == 0,
        walk_of(true, events).dirs.len() == 0,
    decreases events.len(),
{
    if i < events.len() - 1 {
        let init = events.drop_last();
        assert forall|j: int| i < j < init.len() implies (#[trigger] init[j]) is Entry by {
            assert(init[j] == events[j]);
        }
        walks_end_with_their_last_error(init, i);
        lemma_last_failure_is_met(init);
        assert(init[i] is Failed);
        assert(events.last() == events[events.len() - 1]);
    }
}

/// A path that is no directory is skipped, whatever a walk of it might have met.
pub proof fn only_directories_are_walked(events: Seq<WalkEvent>)
    ensures
        walk_of(false, events).msg == "skipped: not a directory"@,
        walk_of(false, events).files.len() == 0,
        walk_of(false, events).dirs.len() == 0,
{
}

/// A walk is seen as it is, and it went through exactly where its message is `ok`.
pub proof fn walks_are_seen_as_they_are(walk: Walk)
    ensures
        walk@.files == walk.files@,
        walk@.dirs == walk.dirs@,
        walk@.msg == walk.msg@,
        walk@.ok() <==> walk.msg@ == "ok"@,
        walk@.skipped() <==> "skipped"@.is_prefix_of(walk.msg@),
{
}

} // verus!
