use filetime::FileTime;
use solx::execution::{execute, Execution};
use solx::jobs::default_jobs;
use solx::plan::Plan;
use solx::pool::{PoolState, PoolStep, Task};
use solx::renewal::{count_batch, dir_status_line, shard_walk, walk_failure, Kind, Renewal};
use solx::serial::{SerialRun, SerialStep};
use solx::session::Out;
use solx::shard::{shard, BATCH};
use solx::touch::{touch_entries, Touch, TouchError};
use solx::walk::{enumerate_dir, EntryType, Walk, WalkEvent};
use std::io::Write;
use std::path::{Path, PathBuf};

/// A file of exactly that name, which goes with the guard.
fn make_file(dir: &Path, name: &str, contents: &str) -> tempfile::NamedTempFile {
    let mut f = tempfile::Builder::new()
        .prefix(name)
        .rand_bytes(0)
        .tempfile_in(dir)
        .unwrap();
    f.write_all(contents.as_bytes()).unwrap();
    f
}

/// A directory of exactly that name, which goes with the guard.
fn make_dir(dir: &Path, name: &str) -> tempfile::TempDir {
    tempfile::Builder::new()
        .prefix(name)
        .rand_bytes(0)
        .tempdir_in(dir)
        .unwrap()
}

fn walk_of(directory: &str) -> Walk {
    let is_dir = Path::new(directory).is_dir();
    let mut events = Vec::new();
    if is_dir {
        let walker = ignore::WalkBuilder::new(directory)
            .hidden(false)
            .ignore(false)
            .git_ignore(false)
            .git_global(false)
            .git_exclude(false)
            .parents(false)
            .follow_links(false)
            .build();
        for entry in walker {
            events.push(match entry {
                Ok(e) => {
                    let kind = e.file_type().map(|t| {
                        if t.is_file() {
                            EntryType::File
                        } else if t.is_dir() {
                            EntryType::Dir
                        } else if t.is_symlink() {
                            EntryType::Symlink
                        } else {
                            EntryType::Other
                        }
                    });
                    WalkEvent::Entry(e.into_path(), kind)
                }
                Err(e) => WalkEvent::Failed(e.to_string()),
            });
        }
    }
    enumerate_dir(is_dir, events)
}

fn touch(path: &Path) -> Touch {
    let now = FileTime::now();
    Touch {
        path: path.display().to_string(),
        outcome: filetime::set_file_times(path, now, now).map_err(|e| TouchError {
            not_found: e.kind() == std::io::ErrorKind::NotFound,
            message: e.to_string(),
        }),
    }
}

fn touch_all(paths: &[PathBuf]) -> Vec<Touch> {
    paths.iter().map(|p| touch(p)).collect()
}

/// Backdate an entry so a renewal is visible.
fn backdate(p: &Path) {
    let old = FileTime::from_unix_time(FileTime::now().unix_seconds() - 8_640_000, 0);
    filetime::set_file_times(p, old, old).unwrap();
}

fn is_fresh(p: &Path) -> bool {
    let mtime = FileTime::from_last_modification_time(&p.metadata().unwrap());
    mtime.unix_seconds() > FileTime::now().unix_seconds() - 10
}

fn run_serial(mut run: SerialRun) -> (Renewal, Vec<String>) {
    let mut lines = Vec::new();
    loop {
        let line = match run.step() {
            SerialStep::Enumerate(dir) => {
                let walk = walk_of(dir);
                run.walked(walk)
            }
            SerialStep::Touch(paths) => {
                let touches = touch_all(paths);
                run.touched(&touches)
            }
            SerialStep::Finish => run.finish_dir(),
            SerialStep::Done => return (run.into_renewal(), lines),
        };
        lines.extend(line);
    }
}

/// Runs the pool with up to `workers` tasks taken at a time; they come back last
/// taken first.
fn run_pool(mut pool: PoolState, workers: u64) -> (Renewal, Vec<String>) {
    let mut lines = Vec::new();
    loop {
        let mut taken = Vec::new();
        while (taken.len() as u64) < workers {
            match pool.next_task() {
                PoolStep::Run(task) => taken.push(task),
                PoolStep::Wait => break,
                PoolStep::Drained => return (pool.into_renewal(), lines),
            }
        }
        while let Some(task) = taken.pop() {
            let line = match task {
                Task::Enumerate(dir) => pool.walked(&dir, walk_of(&dir)),
                Task::Touch(dir, batch) => {
                    pool.touched(&dir, &batch, &touch_all(&batch.paths))
                }
            };
            lines.extend(line);
        }
    }
}

fn run(plan: &Plan, jobs_n: u64, out: &Out) -> (Renewal, Vec<String>) {
    match execute(plan, jobs_n, out) {
        Execution::Serial(run) => run_serial(run),
        Execution::Pool(pool, workers) => run_pool(pool, workers),
    }
}

const QUIET: Out = Out {
    json_mode: true,
    interactive: false,
};

const CHATTY: Out = Out {
    json_mode: false,
    interactive: true,
};

fn kept(dirs: &[String]) -> Plan {
    Plan {
        kept: dirs
            .iter()
            .map(|d| ("pending".to_string(), d.clone()))
            .collect(),
        skipped: vec![],
    }
}

fn ok_touch(path: &str) -> Touch {
    Touch {
        path: path.to_string(),
        outcome: Ok(()),
    }
}

fn failed_touch(path: &str, not_found: bool) -> Touch {
    Touch {
        path: path.to_string(),
        outcome: Err(TouchError {
            not_found,
            message: "denied".to_string(),
        }),
    }
}

// ---- shard -----------------------------------------------------------------------

#[test]
fn shard_even_batches() {
    let files: Vec<PathBuf> = (0..10).map(|i| PathBuf::from(format!("f{i}"))).collect();
    let batches = shard(files.clone(), 3);
    let sizes: Vec<usize> = batches.iter().map(|b| b.len()).collect();
    assert_eq!(sizes, [3, 3, 3, 1]);
    let flat: Vec<PathBuf> = batches.into_iter().flatten().collect();
    assert_eq!(flat, files);
}

#[test]
fn shard_empty() {
    assert!(shard(Vec::new(), BATCH).is_empty());
}

#[test]
fn shard_exact_and_oversized_batches() {
    let files: Vec<PathBuf> = (0..6).map(|i| PathBuf::from(format!("f{i}"))).collect();
    let sizes: Vec<usize> = shard(files.clone(), 3).iter().map(|b| b.len()).collect();
    assert_eq!(sizes, [3, 3]);
    assert_eq!(shard(files.clone(), 100), [files]);
    assert_eq!(BATCH, 2000);
}

// ---- enumerate -------------------------------------------------------------------

#[test]
fn enumerate_dir_lists_all_including_hidden_and_ignored() {
    let dir = tempfile::tempdir().unwrap();
    let _a = make_file(dir.path(), "a.txt", "x");
    let _hidden = make_file(dir.path(), ".hidden", "x");
    let sub = make_dir(dir.path(), "sub");
    let _b = make_file(sub.path(), "b.txt", "x");
    // A .gitignore plus an ignored file: both must still be listed.
    let _rules = make_file(dir.path(), ".gitignore", "ignored.txt\n");
    let _ignored = make_file(dir.path(), "ignored.txt", "x");

    let walk = walk_of(dir.path().to_str().unwrap());
    assert_eq!(walk.msg, "ok");
    assert!(walk.files.iter().all(|p| p.is_file()));
    // 5 regular files: a.txt, .hidden, sub/b.txt, .gitignore, ignored.txt
    assert_eq!(walk.files.len(), 5);
    // The flagged directory itself comes first, then `sub`.
    assert_eq!(
        walk.dirs,
        [dir.path().to_path_buf(), dir.path().join("sub")]
    );
}

#[test]
fn enumerate_dir_skips_symlinked_dirs() {
    // What a walk that does not follow links meets: the root, a directory with a
    // file, and a link to that directory.
    let walk = enumerate_dir(
        true,
        vec![
            WalkEvent::Entry(PathBuf::from("/d"), Some(EntryType::Dir)),
            WalkEvent::Entry(PathBuf::from("/d/real"), Some(EntryType::Dir)),
            WalkEvent::Entry(PathBuf::from("/d/real/inside.txt"), Some(EntryType::File)),
            WalkEvent::Entry(PathBuf::from("/d/link"), Some(EntryType::Symlink)),
        ],
    );
    assert_eq!(walk.msg, "ok");
    assert_eq!(walk.dirs.len(), 2); // root + real
    assert_eq!(walk.files.len(), 1); // real/inside.txt, not through the link
}

#[test]
fn enumerate_dir_skips_symlinked_files() {
    // `find -type f` does not count symlinks; neither does the walk.
    let walk = enumerate_dir(
        true,
        vec![
            WalkEvent::Entry(PathBuf::from("/d"), Some(EntryType::Dir)),
            WalkEvent::Entry(PathBuf::from("/d/real.txt"), Some(EntryType::File)),
            WalkEvent::Entry(PathBuf::from("/d/link.txt"), Some(EntryType::Symlink)),
        ],
    );
    assert_eq!(walk.msg, "ok");
    assert_eq!(walk.files.len(), 1);
}

#[test]
fn enumerate_dir_not_a_directory() {
    let dir = tempfile::tempdir().unwrap();
    let missing = dir.path().join("nope");
    let walk = walk_of(missing.to_str().unwrap());
    assert!(walk.files.is_empty());
    assert!(walk.dirs.is_empty());
    assert!(walk.msg.starts_with("skipped"));
    assert_eq!(walk.msg, "skipped: not a directory");
}

#[test]
fn enumerate_dir_error_lists_nothing_and_the_last_one_stands() {
    let walk = enumerate_dir(
        true,
        vec![
            WalkEvent::Entry(PathBuf::from("/d"), Some(EntryType::Dir)),
            WalkEvent::Failed("first".to_string()),
            WalkEvent::Entry(PathBuf::from("/d/a"), Some(EntryType::File)),
            WalkEvent::Failed("second".to_string()),
            WalkEvent::Entry(PathBuf::from("/d/p"), None),
            WalkEvent::Entry(PathBuf::from("/d/q"), Some(EntryType::Other)),
        ],
    );
    assert!(walk.files.is_empty() && walk.dirs.is_empty());
    assert_eq!(walk.msg, "second");
}

// ---- touch -----------------------------------------------------------------------

#[test]
fn touch_entries_refreshes_times() {
    let dir = tempfile::tempdir().unwrap();
    let f = make_file(dir.path(), "stale.txt", "x");
    backdate(f.path());

    let (renewed, errors, _) = touch_entries(&[touch(f.path())]);
    assert_eq!((renewed, errors), (1, 0));
    assert!(is_fresh(f.path()));
}

#[test]
fn touch_entries_refreshes_a_directory() {
    let dir = tempfile::tempdir().unwrap();
    let sub = make_dir(dir.path(), "sub");
    backdate(sub.path());

    let (renewed, errors, _) = touch_entries(&[touch(sub.path())]);
    assert_eq!((renewed, errors), (1, 0));
    assert!(is_fresh(sub.path()));
}

#[test]
fn touch_entries_missing_path_is_silent_skip() {
    let dir = tempfile::tempdir().unwrap();
    let ghost = dir.path().join("gone.txt");
    let (renewed, errors, msg) = touch_entries(&[touch(&ghost)]);
    assert_eq!((renewed, errors), (0, 0)); // not renewed, not a failure
    assert_eq!(msg, "ok");
    assert!(!ghost.exists()); // never created
}

#[test]
fn touch_entries_counts_every_failure_in_the_batch() {
    let dir = tempfile::tempdir().unwrap();
    let f = make_file(dir.path(), "regular.txt", "x");
    // A path *through* a regular file is ENOTDIR, not NotFound.
    let bad: Vec<PathBuf> = (0..3)
        .map(|i| f.path().join(format!("ghost-{i}")))
        .collect();
    let batch: Vec<PathBuf> = bad.iter().cloned().chain([f.path().to_path_buf()]).collect();

    let (renewed, errors, msg) = touch_entries(&touch_all(&batch));
    assert_eq!((renewed, errors), (1, 3));
    assert!(
        msg.starts_with(&format!("touch {}", bad[0].display())),
        "{msg}"
    );
    assert!(msg.ends_with("(and 2 more in this batch)"), "{msg}");
}

#[test]
fn touch_entries_empty_batch() {
    assert_eq!(touch_entries(&[]), (0, 0, "ok".to_string()));
}

#[test]
fn touch_entries_words_one_failure_and_many() {
    let one = [ok_touch("/a"), failed_touch("/b", false), failed_touch("/c", true)];
    assert_eq!(touch_entries(&one), (1, 1, "touch /b: denied".to_string()));
    let many: Vec<Touch> = (0..12).map(|i| failed_touch(&format!("/f{i}"), false)).collect();
    assert_eq!(
        touch_entries(&many),
        (
            0,
            12,
            "touch /f0: denied (and 11 more in this batch)".to_string()
        )
    );
}

// ---- counters and lines ----------------------------------------------------------

#[test]
fn dir_status_line_reports_renewed_counts() {
    assert_eq!(
        dir_status_line(
            &Renewal {
                files: 1386,
                dirs: 694,
                failures: 0
            },
            "/scratch/sparky/proj"
        ),
        "  ok      1386 files    694 dirs  /scratch/sparky/proj"
    );
}

#[test]
fn dir_status_line_drops_the_ok_tag_when_anything_failed() {
    assert_eq!(
        dir_status_line(
            &Renewal {
                files: 0,
                dirs: 0,
                failures: 1386
            },
            "/scratch/sparky/proj"
        ),
        "  fail       0 files      0 dirs · 1386 failed  /scratch/sparky/proj"
    );
}

#[test]
fn dir_status_line_outgrows_its_columns() {
    assert_eq!(
        dir_status_line(
            &Renewal {
                files: 123456789,
                dirs: 1234567,
                failures: 0
            },
            "/d"
        ),
        "  ok   123456789 files 1234567 dirs  /d"
    );
}

#[test]
fn renewals_add_up() {
    let mut total = Renewal::default();
    assert_eq!((total.files, total.dirs, total.failures), (0, 0, 0));
    total.add(&Renewal { files: 1, dirs: 2, failures: 3 });
    total.add(&Renewal { files: 10, dirs: 20, failures: 30 });
    assert_eq!(total, Renewal { files: 11, dirs: 22, failures: 33 });
    assert!(total.has_room(usize::MAX - 33));
    assert!(!total.has_room(usize::MAX - 32));
}

#[test]
fn batches_land_in_their_counter() {
    let mut r = Renewal::default();
    let touches = [ok_touch("/a"), failed_touch("/b", false), failed_touch("/c", true)];
    let line = count_batch(&mut r, "/d", Kind::Files, &touches);
    assert_eq!(line.as_deref(), Some("FAIL touch /d :: touch /b: denied"));
    assert_eq!(r, Renewal { files: 1, dirs: 0, failures: 1 });
    let line = count_batch(&mut r, "/d", Kind::Dirs, &[ok_touch("/a"), ok_touch("/b")]);
    assert_eq!(line, None);
    assert_eq!(r, Renewal { files: 1, dirs: 2, failures: 1 });
}

#[test]
fn walks_are_sharded_files_first() {
    let walk = Walk {
        files: (0..4001).map(|i| PathBuf::from(format!("/d/f{i}"))).collect(),
        dirs: vec![PathBuf::from("/d")],
        msg: "ok".to_string(),
    };
    let sizes: Vec<(usize, Kind)> = shard_walk(walk)
        .iter()
        .map(|b| (b.paths.len(), b.kind))
        .collect();
    assert_eq!(
        sizes,
        [
            (2000, Kind::Files),
            (2000, Kind::Files),
            (1, Kind::Files),
            (1, Kind::Dirs)
        ]
    );
}

#[test]
fn only_walk_errors_are_reported() {
    let mut walk = Walk::default();
    walk.msg = "ok".to_string();
    assert_eq!(walk_failure("/d", &walk), None);
    walk.msg = "skipped: not a directory".to_string();
    assert_eq!(walk_failure("/d", &walk), None);
    walk.msg = "permission denied".to_string();
    assert_eq!(
        walk_failure("/d", &walk).as_deref(),
        Some("FAIL enumerate /d :: permission denied")
    );
}

// ---- execution -------------------------------------------------------------------

#[test]
fn execute_serial_counts_and_skips() {
    let dir = tempfile::tempdir().unwrap();
    let real = make_dir(dir.path(), "proj");
    let _a = make_file(real.path(), "a", "x");
    let _b = make_file(real.path(), "b", "x");
    let shown = real.path().display().to_string();
    let plan = kept(&[shown.clone(), "/does/not/exist".to_string()]);
    // Two files plus the kept directory itself; the missing dir is a benign skip,
    // not a failure.
    let (renewal, lines) = run(&plan, 1, &QUIET);
    assert_eq!(
        renewal,
        Renewal {
            files: 2,
            dirs: 1,
            failures: 0
        }
    );
    assert!(lines.is_empty());
    let (_, lines) = run(&plan, 1, &CHATTY);
    assert_eq!(lines, [format!("  ok         2 files      1 dirs  {shown}")]);
}

#[test]
fn execute_parallel_matches_serial_counts() {
    let dir = tempfile::tempdir().unwrap();
    let mut dirs = Vec::new();
    let mut subs = Vec::new();
    let mut files = Vec::new();
    for d in 0..5 {
        let sub = make_dir(dir.path(), &format!("d{d}"));
        for f in 0..7 {
            files.push(make_file(sub.path(), &format!("f{f}"), "x"));
        }
        dirs.push(sub.path().display().to_string());
        subs.push(sub);
    }
    let plan = kept(&dirs);
    // 5 dirs x 7 files, plus each of the 5 kept dirs themselves.
    let expected = Renewal {
        files: 35,
        dirs: 5,
        failures: 0,
    };
    assert_eq!(run(&plan, 4, &QUIET).0, expected);
    assert_eq!(run(&plan, 2, &QUIET).0, expected);
    assert_eq!(run(&plan, 1, &QUIET).0, expected);
}

#[test]
fn pool_and_serial_run_report_a_failed_walk_alike() {
    let plan = kept(&["/d".to_string()]);
    let failed = || enumerate_dir(true, vec![WalkEvent::Failed("boom".to_string())]);
    let mut pool = PoolState::new(&plan);
    assert!(matches!(pool.next_task(), PoolStep::Run(Task::Enumerate(d)) if d == "/d"));
    assert!(matches!(pool.next_task(), PoolStep::Wait));
    assert!(pool.has_room(1));
    assert_eq!(
        pool.walked("/d", failed()).as_deref(),
        Some("FAIL enumerate /d :: boom")
    );
    assert!(matches!(pool.next_task(), PoolStep::Drained));
    let expected = Renewal { files: 0, dirs: 0, failures: 1 };
    assert_eq!(pool.into_renewal(), expected);

    let mut run = SerialRun::new(&plan, true);
    assert!(matches!(run.step(), SerialStep::Enumerate("/d")));
    assert!(run.has_room(1));
    assert_eq!(
        run.walked(failed()).as_deref(),
        Some("FAIL enumerate /d :: boom")
    );
    assert!(matches!(run.step(), SerialStep::Done));
    assert_eq!(run.into_renewal(), expected);
}

#[test]
fn serial_run_is_silent_in_json_mode() {
    let plan = kept(&["/d".to_string()]);
    let mut run = SerialRun::new(&plan, true);
    let walk = Walk {
        files: vec![PathBuf::from("/d/a")],
        dirs: vec![],
        msg: "ok".to_string(),
    };
    assert_eq!(run.walked(walk), None);
    assert!(matches!(run.step(), SerialStep::Touch(paths) if paths == [PathBuf::from("/d/a")]));
    assert_eq!(
        run.touched(&[failed_touch("/d/a", false)]).as_deref(),
        Some("FAIL touch /d :: touch /d/a: denied")
    );
    assert!(matches!(run.step(), SerialStep::Finish));
    assert!(!run.has_room(usize::MAX));
    assert_eq!(run.finish_dir(), None);
    assert!(matches!(run.step(), SerialStep::Done));
    assert_eq!(run.into_renewal(), Renewal { files: 0, dirs: 0, failures: 1 });
}

// ---- workers ---------------------------------------------------------------------

#[test]
fn default_jobs_within_bounds() {
    for online in -2..2000 {
        let n = default_jobs(online);
        assert!((1..=8).contains(&n));
    }
}

#[test]
fn default_jobs_is_a_quarter_of_the_cpus() {
    assert_eq!(default_jobs(-1), 1);
    assert_eq!(default_jobs(0), 1);
    assert_eq!(default_jobs(4), 1);
    assert_eq!(default_jobs(12), 3);
    assert_eq!(default_jobs(32), 8);
    assert_eq!(default_jobs(128), 8);
    assert_eq!(default_jobs(i64::MAX), 8);
}

#[test]
fn a_pool_needs_two_workers() {
    let plan = kept(&["/d".to_string()]);
    for (jobs_n, pooled) in [(0, false), (1, false), (2, true), (8, true)] {
        match execute(&plan, jobs_n, &QUIET) {
            Execution::Serial(_) => assert!(!pooled),
            Execution::Pool(_, workers) => assert!(pooled && workers == jobs_n),
        }
    }
}
