use solx::flagged::{
    find_directory, has_bom, load_csv_dirs, read_column, table_directories, unreadable_text, CsvFile,
};
use solx::plan::{build_plan, dedupe, find_file, flagged_rows, split_rows, CsvDir, Plan};
use solx::rules::{keep_verdict, KeepRules};
use solx::stage::{select_stages, stage_file, STAGES_ALL, STAGE_ORDER};

fn texts(items: &[&str]) -> Vec<String> {
    items.iter().map(|s| s.to_string()).collect()
}

fn keep(include_list: &[&str], exclude_list: &[&str]) -> KeepRules {
    KeepRules::new(&texts(include_list), &texts(exclude_list))
}

fn file(name: &str, bytes: &[u8]) -> CsvFile {
    CsvFile {
        name: name.to_string(),
        path: format!("/home/sparky/{name}"),
        contents: Ok(bytes.to_vec()),
    }
}

fn csv(name: &str, dirs: &[&str]) -> CsvFile {
    let mut lines = vec!["Directory,LastAccess,Size".to_string()];
    lines.extend(dirs.iter().map(|d| format!("{d},2026-01-01,1G")));
    file(name, (lines.join("\n") + "\n").as_bytes())
}

fn csv_dir(files: Vec<CsvFile>) -> CsvDir {
    CsvDir {
        path: "/home/sparky".to_string(),
        files,
    }
}

fn stages_all() -> Vec<String> {
    STAGE_ORDER.iter().map(|s| s.to_string()).collect()
}

fn dirs(rows: &[(String, String)]) -> Vec<&str> {
    rows.iter().map(|(_, d)| d.as_str()).collect()
}

fn rows(items: &[(&str, &str)]) -> Vec<(String, String)> {
    items
        .iter()
        .map(|(s, d)| (s.to_string(), d.to_string()))
        .collect()
}

// ---- stages ----------------------------------------------------------------------

#[test]
fn stage_files_are_those_that_sol_drops() {
    assert_eq!(stage_file("pending"), "scratch-dirs-pending-removal.csv");
    assert_eq!(stage_file("over90"), "scratch-dirs-over-90days.csv");
    assert_eq!(stage_file("inactive"), "scratch-dirs-inactive.csv");
}

#[test]
fn stage_selection() {
    assert_eq!(STAGES_ALL, "all");
    assert_eq!(select_stages("all"), ["pending", "over90", "inactive"]);
    assert_eq!(select_stages("over90"), ["over90"]);
}

// ---- warning CSVs ----------------------------------------------------------------

#[test]
fn load_csv_dirs_reads_directory_column() {
    let f = csv(
        "scratch-dirs-pending-removal.csv",
        &["/scratch/sparky/a", "/scratch/sparky/b"],
    );
    assert_eq!(
        load_csv_dirs(Some(&f)).unwrap(),
        ["/scratch/sparky/a", "/scratch/sparky/b"]
    );
}

#[test]
fn load_csv_dirs_missing_file() {
    let dir = csv_dir(vec![csv("x.csv", &["/scratch/sparky/a"])]);
    assert!(load_csv_dirs(find_file(&dir.files, "absent.csv"))
        .unwrap()
        .is_empty());
}

#[test]
fn load_csv_dirs_directory_not_first_column() {
    let f = file(
        "x.csv",
        b"User,Directory,Size\nsparky,/scratch/sparky/a,12G\n",
    );
    assert_eq!(load_csv_dirs(Some(&f)).unwrap(), ["/scratch/sparky/a"]);
}

#[test]
fn load_csv_dirs_bom_header_yields_no_directories() {
    // A BOM is part of the first header cell's name, so the column lookup misses
    // and the file contributes nothing.
    let f = file(
        "bom.csv",
        b"\xEF\xBB\xBFDirectory,Size\n/scratch/sparky/a,1G\n",
    );
    assert!(load_csv_dirs(Some(&f)).unwrap().is_empty());
    // With the Directory column not first, the BOM lands on another header and the
    // column still resolves.
    let f2 = file(
        "bom2.csv",
        b"\xEF\xBB\xBFSize,Directory\n1G,/scratch/sparky/a\n",
    );
    assert_eq!(load_csv_dirs(Some(&f2)).unwrap(), ["/scratch/sparky/a"]);
}

#[test]
fn load_csv_dirs_invalid_utf8_record_is_error() {
    let f = file(
        "bad.csv",
        b"Directory,Size\n/scratch/sparky/\xFF\xFE,1G\n",
    );
    let err = load_csv_dirs(Some(&f)).unwrap_err();
    assert!(err.contains("unable to read"));
    assert!(err.contains("bad.csv"));
    // The record is counted from the header row on.
    assert!(err.contains("record 1 (line 2"), "{err}");
}

#[test]
fn load_csv_dirs_unreadable_file_is_error() {
    let f = CsvFile {
        name: "locked.csv".to_string(),
        path: "/home/sparky/locked.csv".to_string(),
        contents: Err("Permission denied (os error 13)".to_string()),
    };
    let err = load_csv_dirs(Some(&f)).unwrap_err();
    assert!(err.contains("unable to read"));
    assert!(err.contains("locked.csv"));
    assert_eq!(
        err,
        "unable to read /home/sparky/locked.csv: Permission denied (os error 13)"
    );
}

#[test]
fn csv_fields_are_unquoted_trimmed_and_dropped_when_empty() {
    let f = file(
        "x.csv",
        b"User,Directory\nsparky,\"/scratch/sparky/a,b\"\nsparky\nsparky,   \nsparky,  /scratch/c \n",
    );
    assert_eq!(
        load_csv_dirs(Some(&f)).unwrap(),
        ["/scratch/sparky/a,b", "/scratch/c"]
    );
}

#[test]
fn csv_without_directory_column_is_not_decoded_further() {
    let f = file("x.csv", b"User,Size\nsparky,\xFF\n");
    assert!(load_csv_dirs(Some(&f)).unwrap().is_empty());
    let empty = file("y.csv", b"");
    assert!(load_csv_dirs(Some(&empty)).unwrap().is_empty());
    let bad_header = file("z.csv", b"Dir\xFFectory\nsparky\n");
    assert!(load_csv_dirs(Some(&bad_header))
        .unwrap_err()
        .starts_with("unable to read /home/sparky/z.csv: "));
}

#[test]
fn bom_is_three_bytes_at_the_start() {
    assert!(has_bom(b"\xEF\xBB\xBF"));
    assert!(has_bom(b"\xEF\xBB\xBFx"));
    assert!(!has_bom(b"\xEF\xBB"));
    assert!(!has_bom(b"x\xEF\xBB\xBF"));
}

#[test]
fn directory_column_is_the_first_of_that_name() {
    let names = texts(&["Directory", "User", "Directory"]);
    assert_eq!(find_directory(&names, false), Some(0));
    assert_eq!(find_directory(&names, true), Some(2));
    assert_eq!(find_directory(&texts(&["directory"]), false), None);
}

#[test]
fn table_rows_stop_at_the_first_error() {
    let table = vec![
        Ok(texts(&["/a", "1G"])),
        Err("first".to_string()),
        Ok(texts(&["/b"])),
        Err("second".to_string()),
    ];
    assert_eq!(read_column(&table, 0), Err("first".to_string()));
    assert_eq!(
        table_directories(false, Ok(texts(&["Size"])), &table),
        Ok(vec![])
    );
    assert_eq!(
        table_directories(false, Err("header".to_string()), &table),
        Err("header".to_string())
    );
    let good = vec![Ok(texts(&["/a", "1G"])), Ok(texts(&["/b"]))];
    assert_eq!(
        table_directories(false, Ok(texts(&["Directory"])), &good),
        Ok(texts(&["/a", "/b"]))
    );
}

#[test]
fn unreadable_names_path_and_cause() {
    assert_eq!(unreadable_text("/x.csv", "gone"), "unable to read /x.csv: gone");
}

#[test]
fn white_space_is_trimmed_as_unicode_has_it() {
    for n in 0..=0x10FFFFu32 {
        if let Some(c) = char::from_u32(n) {
            let listed = matches!(
                n,
                0x9..=0xd
                    | 0x20
                    | 0x85
                    | 0xa0
                    | 0x1680
                    | 0x2000..=0x200a
                    | 0x2028
                    | 0x2029
                    | 0x202f
                    | 0x205f
                    | 0x3000
            );
            assert_eq!(c.is_whitespace(), listed, "{n:x}");
        }
    }
    let table = vec![Ok(texts(&["\u{3000}\t/scratch/ x\u{2009}\n"]))];
    assert_eq!(read_column(&table, 0), Ok(texts(&["/scratch/ x"])));
}

// ---- rules -----------------------------------------------------------------------

#[test]
fn verdicts_of_the_two_lists() {
    assert!(keep_verdict(Some(true), None));
    assert!(keep_verdict(Some(true), Some(false)));
    assert!(!keep_verdict(Some(true), Some(true)));
    assert!(!keep_verdict(Some(false), None));
    assert!(!keep_verdict(None, None));
    assert!(!keep_verdict(None, Some(false)));
}

#[test]
fn rules_match_paths_and_their_parents() {
    let rules = keep(&["/scratch/sparky/proj", "# a comment", "", "logs-*"], &[]);
    assert!(rules.matches("/scratch/sparky/proj"));
    assert!(rules.matches("/scratch/sparky/proj/a/b"));
    assert!(rules.matches("/scratch/sparky/logs-1"));
    assert!(!rules.matches("/scratch/sparky/project"));
    assert!(!rules.matches("/scratch/sparky/# a comment"));
    assert!(!keep(&[], &[]).matches("/scratch/sparky/proj"));
    assert!(!keep(&["/scratch/**"], &["sparky"]).matches("/scratch/sparky/proj"));
}

#[test]
fn a_line_that_is_no_glob_is_passed_over() {
    let rules = keep(&["a{b", "/scratch/x"], &["{"]);
    assert!(rules.matches("/scratch/x"));
    assert!(!rules.matches("/scratch/a{b"));
}

#[test]
fn a_path_with_no_place_under_the_root_is_never_kept() {
    let rules = keep(&["**"], &[]);
    assert!(rules.matches("/scratch/x"));
    assert!(rules.matches("//scratch/x"));
    assert!(rules.matches("scratch/x"));
    assert!(!rules.matches("///scratch/x"));
    assert!(!rules.matches(".////scratch/x"));
}

// ---- planning --------------------------------------------------------------------

#[test]
fn build_plan_filters_by_keep() {
    let dir = csv_dir(vec![
        csv(
            "scratch-dirs-pending-removal.csv",
            &["/scratch/sparky/proj-a", "/scratch/sparky/proj-z"],
        ),
        csv("scratch-dirs-over-90days.csv", &["/scratch/sparky/proj-b"]),
    ]);
    let rules = keep(&["/scratch/sparky/proj-a", "/scratch/sparky/proj-b"], &[]);
    let plan = build_plan(&dir, &stages_all(), &rules).unwrap();
    assert_eq!(
        dirs(&plan.kept),
        ["/scratch/sparky/proj-a", "/scratch/sparky/proj-b"]
    );
    assert_eq!(dirs(&plan.skipped), ["/scratch/sparky/proj-z"]);
}

#[test]
fn build_plan_dedupes_across_stages() {
    let dir = csv_dir(vec![
        csv("scratch-dirs-pending-removal.csv", &["/scratch/sparky/a"]),
        csv("scratch-dirs-over-90days.csv", &["/scratch/sparky/a"]),
    ]);
    let rules = keep(&["/scratch/sparky/a"], &[]);
    let plan = build_plan(&dir, &stages_all(), &rules).unwrap();
    assert_eq!(plan.kept.len(), 1);
    assert_eq!(plan.kept[0].0, "pending"); // first stage wins
}

#[test]
fn build_plan_exclude_carve_out() {
    let dir = csv_dir(vec![csv(
        "scratch-dirs-pending-removal.csv",
        &[
            "/scratch/sparky/proj/run-1",
            "/scratch/sparky/proj/__pycache__",
        ],
    )]);
    let rules = keep(&["/scratch/sparky/proj/**"], &["**/__pycache__"]);
    let plan = build_plan(&dir, &["pending".to_string()], &rules).unwrap();
    assert_eq!(dirs(&plan.kept), ["/scratch/sparky/proj/run-1"]);
    assert_eq!(dirs(&plan.skipped), ["/scratch/sparky/proj/__pycache__"]);
}

#[test]
fn build_plan_negation_last_match_wins() {
    // `!` carve-outs within the include list (gitignore last-match-wins).
    let rules = keep(&["/scratch/sparky/proj", "!**/__pycache__"], &[]);
    let dir = csv_dir(vec![csv(
        "scratch-dirs-pending-removal.csv",
        &[
            "/scratch/sparky/proj/run",
            "/scratch/sparky/proj/__pycache__",
            "/scratch/sparky/x",
        ],
    )]);
    let plan = build_plan(&dir, &["pending".to_string()], &rules).unwrap();
    assert_eq!(dirs(&plan.kept), ["/scratch/sparky/proj/run"]);
}

#[test]
fn build_plan_fails_on_the_first_unreadable_csv() {
    let mut over90 = csv("scratch-dirs-over-90days.csv", &[]);
    over90.contents = Err("denied".to_string());
    let mut inactive = csv("scratch-dirs-inactive.csv", &[]);
    inactive.contents = Err("gone".to_string());
    let pending = csv("scratch-dirs-pending-removal.csv", &["/scratch/sparky/a"]);
    let dir = csv_dir(vec![inactive, pending, over90]);
    let rules = keep(&["/scratch/**"], &[]);
    assert_eq!(
        build_plan(&dir, &stages_all(), &rules).unwrap_err(),
        "unable to read /home/sparky/scratch-dirs-over-90days.csv: denied"
    );
    let plan = build_plan(&dir, &texts(&["pending"]), &rules).unwrap();
    assert_eq!(dirs(&plan.kept), ["/scratch/sparky/a"]);
}

#[test]
fn flagged_rows_carry_their_stage() {
    let dir = csv_dir(vec![
        csv("scratch-dirs-inactive.csv", &["/c"]),
        csv("scratch-dirs-pending-removal.csv", &["/a", "/b"]),
    ]);
    assert_eq!(
        flagged_rows(&dir.files, &stages_all()).unwrap(),
        rows(&[("pending", "/a"), ("pending", "/b"), ("inactive", "/c")])
    );
}

#[test]
fn dedupe_keeps_the_first_of_each_directory() {
    assert_eq!(
        dedupe(rows(&[("p", "/a"), ("p", "/b"), ("o", "/a"), ("o", "/c"), ("p", "/b")])),
        rows(&[("p", "/a"), ("p", "/b"), ("o", "/c")])
    );
}

#[test]
fn split_rows_follows_the_verdicts() {
    let plan = split_rows(
        rows(&[("p", "/a"), ("p", "/b"), ("o", "/c")]),
        &[true, false, true],
    );
    assert_eq!(plan.kept, rows(&[("p", "/a"), ("o", "/c")]));
    assert_eq!(plan.skipped, rows(&[("p", "/b")]));
    let none = Plan::default();
    assert!(none.kept.is_empty() && none.skipped.is_empty());
}
