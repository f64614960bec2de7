use solx::document::{
    is_truncated, plan_json, summary_json, PlanDoc, Planned, Summary, JSON_LIST_CAP,
};
use solx::flagged::CsvFile;
use solx::plan::{CsvDir, Plan};
use solx::renewal::Renewal;
use solx::report::{report_details, report_header, REPORT_LIST_CAP};
use solx::rules::KeepRules;
use solx::session::{cmd_keep, Action, Event, KeepOptions, Out, Output, Session, Step};
use solx::text::{align_left, align_right, decimal_text, has_prefix, join, same_text};

fn rules() -> KeepRules {
    KeepRules::new(&["/keep/**".to_string()], &[])
}

fn options(rules: Option<&KeepRules>) -> KeepOptions<'_> {
    KeepOptions {
        csv_dir: None,
        stage: "all".to_string(),
        jobs_n: 4,
        yes: false,
        dry_run: false,
        verbose: false,
        config_keep: rules,
    }
}

const HUMAN: Out = Out {
    json_mode: false,
    interactive: true,
};

const AGENT: Out = Out {
    json_mode: true,
    interactive: false,
};

/// A warning directory whose pending CSV flags `kept` directories that the rules
/// keep and `skipped` that they do not.
fn csv_dir(kept: usize, skipped: usize) -> CsvDir {
    let mut lines = vec!["Directory".to_string()];
    lines.extend((0..kept).map(|i| format!("/keep/d{i}")));
    lines.extend((0..skipped).map(|i| format!("/drop/d{i}")));
    CsvDir {
        path: "/home/sparky".to_string(),
        files: vec![CsvFile {
            name: "scratch-dirs-pending-removal.csv".to_string(),
            path: "/home/sparky/scratch-dirs-pending-removal.csv".to_string(),
            contents: Ok(lines.join("\n").into_bytes()),
        }],
    }
}

fn error(step: &Step) -> &str {
    match &step.outputs[..] {
        [Output::Error(line)] => line,
        other => panic!("{other:?}"),
    }
}

fn statuses(step: &Step) -> Vec<&str> {
    step.outputs
        .iter()
        .map(|o| match o {
            Output::Status(line) => line.as_str(),
            other => panic!("{other:?}"),
        })
        .collect()
}

fn plan_doc(step: &Step) -> &PlanDoc {
    match &step.outputs[..] {
        [Output::Plan(doc)] => doc,
        other => panic!("{other:?}"),
    }
}

fn summary(step: &Step) -> &Summary {
    match &step.outputs[..] {
        [Output::Summary(doc)] => doc,
        other => panic!("{other:?}"),
    }
}

fn exit_code(step: &Step) -> i32 {
    match step.action {
        Action::Exit(code) => code,
        ref other => panic!("{other:?}"),
    }
}

/// A session that has read a warning directory, and its step.
fn started<'a>(opts: &'a KeepOptions<'a>, out: Out, dir: CsvDir) -> (Session<'a>, Step) {
    let mut session = Session::new(opts, out);
    let step = cmd_keep(&mut session, Event::Begin);
    assert!(step.outputs.is_empty());
    assert!(matches!(step.action, Action::ReadCsvDir));
    let step = cmd_keep(&mut session, Event::CsvDir(true, dir));
    (session, step)
}

#[test]
fn contradicting_options_are_refused() {
    let rules = rules();
    let mut opts = options(Some(&rules));
    opts.yes = true;
    opts.dry_run = true;
    let step = cmd_keep(&mut Session::new(&opts, HUMAN), Event::Begin);
    assert_eq!(
        error(&step),
        "error: --yes and --dry-run are mutually exclusive"
    );
    assert_eq!(exit_code(&step), 2);
}

#[test]
fn missing_rules_are_refused() {
    let opts = options(None);
    let step = cmd_keep(&mut Session::new(&opts, HUMAN), Event::Begin);
    assert_eq!(
        error(&step),
        "error: no [keep] block in config. add one with `solx config edit`."
    );
    assert_eq!(exit_code(&step), 2);
}

#[test]
fn csv_dir_must_be_a_directory() {
    let rules = rules();
    let opts = options(Some(&rules));
    let mut session = Session::new(&opts, HUMAN);
    cmd_keep(&mut session, Event::Begin);
    let step = cmd_keep(&mut session, Event::CsvDir(false, csv_dir(1, 0)));
    assert_eq!(
        error(&step),
        "error: --csv-dir /home/sparky is not a directory (Sol drops the warning CSVs in $HOME)."
    );
    assert_eq!(exit_code(&step), 2);
}

#[test]
fn an_unreadable_csv_fails_the_command() {
    let rules = rules();
    let opts = options(Some(&rules));
    let mut dir = csv_dir(1, 0);
    dir.files[0].contents = Err("denied".to_string());
    let (_, step) = started(&opts, AGENT, dir);
    assert_eq!(
        error(&step),
        "error: unable to read /home/sparky/scratch-dirs-pending-removal.csv: denied"
    );
    assert_eq!(exit_code(&step), 1);
}

#[test]
fn nothing_matched_is_nothing_to_do() {
    let rules = rules();
    let opts = options(Some(&rules));
    let (_, step) = started(&opts, HUMAN, csv_dir(0, 2));
    assert_eq!(
        statuses(&step),
        [
            "csv-dir: /home/sparky  stages: pending, over90, inactive",
            "plan: 0 kept, 2 skipped",
            "no flagged directories matched - nothing to do."
        ]
    );
    assert_eq!(exit_code(&step), 0);

    let (_, step) = started(&opts, AGENT, csv_dir(0, 2));
    let doc = plan_doc(&step);
    assert!(!doc.dry_run);
    assert_eq!((doc.kept_count, doc.skipped_count), (0, 2));
    assert_eq!(doc.stages, ["pending", "over90", "inactive"]);
    assert_eq!(doc.skipped[0], ("pending".to_string(), "/drop/d0".to_string()));
    assert_eq!(exit_code(&step), 0);
}

#[test]
fn dry_run_shows_and_stops() {
    let rules = rules();
    let mut opts = options(Some(&rules));
    opts.dry_run = true;
    opts.stage = "pending".to_string();
    let (session, step) = started(&opts, HUMAN, csv_dir(2, 1));
    assert_eq!(
        statuses(&step),
        [
            "csv-dir: /home/sparky  stages: pending",
            "plan: 2 kept, 1 skipped"
        ]
    );
    assert_eq!(exit_code(&step), 0);
    assert!(session.plan().is_none());

    let (_, step) = started(&opts, AGENT, csv_dir(2, 1));
    let doc = plan_doc(&step);
    assert!(doc.dry_run);
    assert_eq!(doc.csv_dir, "/home/sparky");
    assert_eq!((doc.kept_count, doc.skipped_count), (2, 1));
    assert!(!doc.kept_truncated && !doc.skipped_truncated);
    assert_eq!(doc.full_plan_path, None);
    assert_eq!(exit_code(&step), 0);
}

#[test]
fn long_plans_are_spilled_for_the_document() {
    let rules = rules();
    let mut opts = options(Some(&rules));
    opts.dry_run = true;
    let (mut session, step) = started(&opts, AGENT, csv_dir(101, 3));
    assert!(step.outputs.is_empty());
    match step.action {
        Action::WriteFullPlan(full) => {
            assert_eq!((full.kept.len(), full.skipped.len()), (101, 3));
            assert_eq!(full.csv_dir, "/home/sparky");
            assert_eq!(full.kept[100].1, "/keep/d100");
        }
        other => panic!("{other:?}"),
    }
    let step = cmd_keep(&mut session, Event::FullPlan(Ok("/tmp/plan.json".to_string())));
    let doc = plan_doc(&step);
    assert_eq!((doc.kept_count, doc.kept.len()), (101, 100));
    assert!(doc.kept_truncated && !doc.skipped_truncated);
    assert_eq!(doc.full_plan_path.as_deref(), Some("/tmp/plan.json"));
    assert_eq!(exit_code(&step), 0);

    let (mut session, _) = started(&opts, AGENT, csv_dir(101, 3));
    let step = cmd_keep(&mut session, Event::FullPlan(Err("disk full".to_string())));
    assert_eq!(error(&step), "error: disk full");
    assert_eq!(exit_code(&step), 1);
}

#[test]
fn long_plans_are_spilled_for_the_report() {
    let rules = rules();
    let mut opts = options(Some(&rules));
    opts.yes = true;
    let (mut session, step) = started(&opts, HUMAN, csv_dir(1, 150));
    assert_eq!(statuses(&step).len(), 2);
    assert!(matches!(step.action, Action::WriteFullPlan(_)));
    let step = cmd_keep(&mut session, Event::FullPlan(Ok("/tmp/p".to_string())));
    assert_eq!(statuses(&step), ["full plan (151 dirs): /tmp/p"]);
    assert!(matches!(step.action, Action::Execute));
    assert_eq!(session.plan().unwrap().kept.len(), 1);
}

#[test]
fn non_interactive_sessions_are_not_asked() {
    let rules = rules();
    let opts = options(Some(&rules));
    let (_, step) = started(&opts, AGENT, csv_dir(3, 0));
    assert_eq!(
        error(&step),
        "error: non-interactive session - pass -y to renew 3 directories, or -n to preview."
    );
    assert_eq!(exit_code(&step), 2);
}

#[test]
fn the_user_decides() {
    let rules = rules();
    let opts = options(Some(&rules));
    let (mut session, step) = started(&opts, HUMAN, csv_dir(3, 0));
    match step.action {
        Action::Confirm(question) => assert_eq!(question, "Touch mtimes on 3 directories?"),
        other => panic!("{other:?}"),
    }
    let step = cmd_keep(&mut session, Event::Answer(false));
    assert_eq!(statuses(&step), ["aborted"]);
    assert_eq!(exit_code(&step), 1);

    let (mut session, _) = started(&opts, HUMAN, csv_dir(3, 0));
    let step = cmd_keep(&mut session, Event::Answer(true));
    assert!(matches!(step.action, Action::Execute));
    let step = cmd_keep(&mut session, Event::Renewed(Renewal {
        files: 12,
        dirs: 3,
        failures: 0,
    }));
    assert_eq!(
        statuses(&step),
        ["done 3 flagged dirs · touched 12 files + 3 dirs"]
    );
    assert_eq!(exit_code(&step), 0);
}

#[test]
fn failures_fail_the_command() {
    let rules = rules();
    let mut opts = options(Some(&rules));
    opts.yes = true;
    opts.jobs_n = 1;
    let (mut session, step) = started(&opts, HUMAN, csv_dir(1, 0));
    assert!(matches!(step.action, Action::Execute));
    let step = cmd_keep(&mut session, Event::Renewed(Renewal {
        files: 1,
        dirs: 1,
        failures: 2,
    }));
    assert_eq!(
        statuses(&step),
        ["done 1 flagged dirs · touched 1 files + 1 dirs · 2 failed"]
    );
    assert_eq!(exit_code(&step), 1);
}

#[test]
fn summaries_count_exactly_and_sample() {
    let rules = rules();
    let mut opts = options(Some(&rules));
    opts.yes = true;
    let renewal = || Renewal {
        files: 7,
        dirs: 2,
        failures: 0,
    };
    let (mut session, _) = started(&opts, AGENT, csv_dir(2, 0));
    let step = cmd_keep(&mut session, Event::Renewed(renewal()));
    let doc = summary(&step);
    assert!(doc.renewed);
    assert_eq!(
        (doc.dirs, doc.files_touched, doc.dirs_touched, doc.failures),
        (2, 7, 2, 0)
    );
    assert_eq!(doc.kept, ["/keep/d0", "/keep/d1"]);
    assert_eq!(doc.full_plan_path, None);
    assert_eq!(exit_code(&step), 0);

    let (mut session, _) = started(&opts, AGENT, csv_dir(120, 0));
    let step = cmd_keep(&mut session, Event::Renewed(renewal()));
    assert!(matches!(step.action, Action::WriteFullPlan(_)));
    let step = cmd_keep(&mut session, Event::FullPlan(Ok("/tmp/p".to_string())));
    let doc = summary(&step);
    assert_eq!((doc.dirs, doc.kept.len()), (120, 100));
    assert!(doc.kept_truncated);
    assert_eq!(doc.full_plan_path.as_deref(), Some("/tmp/p"));
    assert_eq!(exit_code(&step), 0);

    // A long skipped list alone does not cut the summary short.
    let (mut session, _) = started(&opts, AGENT, csv_dir(1, 150));
    let step = cmd_keep(&mut session, Event::Renewed(renewal()));
    assert!(!summary(&step).kept_truncated);
}

fn planned(kept: usize, skipped: usize) -> Planned {
    let rows = |n: usize, at: &str| {
        (0..n)
            .map(|i| ("over90".to_string(), format!("{at}/{i}")))
            .collect()
    };
    Planned {
        csv_dir: "/csv".to_string(),
        stages: vec!["over90".to_string()],
        plan: Plan {
            kept: rows(kept, "/k"),
            skipped: rows(skipped, "/s"),
        },
    }
}

#[test]
fn verbose_reports_name_the_first_directories() {
    assert_eq!(REPORT_LIST_CAP, 20);
    let p = planned(22, 21);
    assert_eq!(
        report_header(&p),
        ["csv-dir: /csv  stages: over90", "plan: 22 kept, 21 skipped"]
    );
    let lines = report_details(&p, true, None);
    assert_eq!(lines.len(), 1 + 20 + 1 + 1 + 20);
    assert_eq!(lines[0], "kept:");
    assert_eq!(lines[1], "     over90 /k/0");
    assert_eq!(lines[21], "  ... and 2 more");
    assert_eq!(lines[22], "skipped (flagged by Sol but not in [keep]):");
    assert_eq!(lines[42], "     over90 /s/19");
    assert_eq!(
        report_details(&planned(20, 0), true, None).len(),
        1 + 20
    );
    assert!(report_details(&p, false, None).is_empty());
    assert_eq!(
        report_details(&p, false, Some("/tmp/p")),
        ["full plan (43 dirs): /tmp/p"]
    );
}

#[test]
fn documents_are_capped() {
    assert_eq!(JSON_LIST_CAP, 100);
    assert!(!is_truncated(&planned(100, 100).plan));
    assert!(is_truncated(&planned(0, 101).plan));
    let p = planned(100, 101);
    let doc = plan_json(&p, true, Some("/tmp/p".to_string()));
    assert_eq!((doc.kept.len(), doc.skipped.len()), (100, 100));
    assert!(!doc.kept_truncated && doc.skipped_truncated);
    let sum = summary_json(&p, &Renewal::default(), None);
    assert_eq!((sum.dirs, sum.kept.len()), (100, 100));
    assert!(!sum.kept_truncated);
}

#[test]
fn texts_are_padded_and_joined() {
    assert_eq!(decimal_text(0), "0");
    assert_eq!(decimal_text(9876543210), "9876543210");
    assert_eq!(decimal_text(u128::MAX), u128::MAX.to_string());
    assert_eq!(align_right("é", 3), "  é");
    assert_eq!(align_right("abcd", 3), "abcd");
    assert_eq!(align_left("ok", 4), "ok  ");
    assert_eq!(join(&[], ", "), "");
    assert_eq!(join(&["a".to_string(), "b".to_string()], ", "), "a, b");
    assert!(same_text("a", "a") && !same_text("a", "b"));
    assert!(has_prefix("skipped: x", "skipped") && !has_prefix("skip", "skipped"));
}
