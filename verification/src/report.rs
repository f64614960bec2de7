//! The plan in words, for a human at a terminal.
use crate::document;
use crate::document::{Planned, PlannedView};
use crate::plan::PlanView;
use crate::text;
use vstd::prelude::*;
use vstd::string::*;

verus! {

/// How many directories of each list a verbose report names.
pub const REPORT_LIST_CAP: usize = 20;

/// The lines that open a report: where the plan comes from, and its size.
pub open spec fn header_lines(planned: PlannedView) -> Seq<Seq<char>> {
    seq![
        "csv-dir: "@ + planned.csv_dir + "  stages: "@ + text::joined(planned.stages, ", "@),
        "plan: "@ + text::decimal(planned.plan.kept.len()) + " kept, "@ + text::decimal(
            planned.plan.skipped.len(),
        ) + " skipped"@,
    ]
}

/// The line that says where the complete plan is.
pub open spec fn full_plan_line(plan: PlanView, path: Seq<char>) -> Seq<char> {
    "full plan ("@ + text::decimal(plan.kept.len() + plan.skipped.len()) + " dirs): "@ + path
}

/// The line for one directory.
pub open spec fn row_line(row: (Seq<char>, Seq<char>)) -> Seq<char> {
    "  "@ + text::right_aligned(row.0, 9) + " "@ + row.1
}

/// The lines for the first of the rows.
pub open spec fn row_lines(rows: Seq<(Seq<char>, Seq<char>)>) -> Seq<Seq<char>> {
    document::at_most(rows, REPORT_LIST_CAP as nat).map_values(
        |row: (Seq<char>, Seq<char>)| row_line(row),
    )
}

/// The lines that name the kept directories.
pub open spec fn kept_lines(rows: Seq<(Seq<char>, Seq<char>)>) -> Seq<Seq<char>> {
    if rows.len() == 0 {
        Seq::empty()
    } else {
        let listed = seq!["kept:"@] + row_lines(rows);
        if rows.len() > REPORT_LIST_CAP {
            listed.push(
                "  ... and "@ + text::decimal((rows.len() - REPORT_LIST_CAP) as nat) + " more"@,
            )
        } else {
            listed
        }
    }
}

/// The lines that name the skipped directories.
pub open spec fn skipped_lines(rows: Seq<(Seq<char>, Seq<char>)>) -> Seq<Seq<char>> {
    if rows.len() == 0 {
        Seq::empty()
    } else {
        seq!["skipped (flagged by Sol but not in [keep]):"@] + row_lines(rows)
    }
}

/// The lines that close a report: where the complete plan is, if it was spilled,
/// and the directories, if the report is verbose.
pub open spec fn detail_lines(plan: PlanView, verbose: bool, path: Option<Seq<char>>) -> Seq<
    Seq<char>,
> {
    let pointer = match path {
        Some(p) => seq![full_plan_line(plan, p)],
        None => Seq::empty(),
    };
    if verbose {
        pointer + kept_lines(plan.kept) + skipped_lines(plan.skipped)
    } else {
        pointer
    }
}

/// The lines that open a report.
pub fn report_header(planned: &Planned) -> (lines: Vec<String>)
    ensures
        lines.deep_view() == header_lines(planned@),
{
    let mut source = "csv-dir: ".to_owned();
    source.append(planned.csv_dir.as_str());
    source.append("  stages: ");
    let stages = text::join(planned.stages.as_slice(), ", ");
    source.append(stages.as_str());
    let mut size = "plan: ".to_owned();
    let kept = text::decimal_text(planned.plan.kept.len() as u128);
    size.append(kept.as_str());
    size.append(" kept, ");
    let skipped = text::decimal_text(planned.plan.skipped.len() as u128);
    size.append(skipped.as_str());
    size.append(" skipped");
    let mut lines: Vec<String> = Vec::new();
    lines.push(source);
    lines.push(size);
    assert(lines.deep_view() =~= header_lines(planned@));
    lines
}

/// Puts a line for each of the first rows behind `lines`.
fn push_rows(lines: &mut Vec<String>, rows: &Vec<(String, String)>)
    ensures
        final(lines).deep_view() == old(lines).deep_view() + row_lines(rows.deep_view()),
{
    let ghost all = rows.deep_view();
    let ghost texts = all.map_values(|row: (Seq<char>, Seq<char>)| row_line(row));
    let ghost before = lines.deep_view();
    let mut i: usize = 0;
    assert(lines.deep_view() =~= before + texts.take(0));
    while i < rows.len() && i < REPORT_LIST_CAP
        invariant
            all == rows.deep_view(),
            texts == all.map_values(|row: (Seq<char>, Seq<char>)| row_line(row)),
            i <= all.len(),
            i <= REPORT_LIST_CAP,
            lines.deep_view() == before + texts.take(i as int),
        decreases all.len() - i,
    {
        let ghost so_far = lines.deep_view();
        let mut line = "  ".to_owned();
        let stage = text::align_right(rows[i].0.as_str(), 9);
        line.append(stage.as_str());
        line.append(" ");
        line.append(rows[i].1.as_str());
        assert(line@ == row_line(all[i as int]));
        lines.push(line);
        i = i + 1;
        assert(lines.deep_view() =~= so_far.push(texts[i - 1]));
        assert(lines.deep_view() =~= before + texts.take(i as int));
    }
    assert(texts.take(i as int) =~= row_lines(all));
}

/// Puts one line behind `lines`.
fn push_line(lines: &mut Vec<String>, line: String)
    ensures
        final(lines).deep_view() == old(lines).deep_view().push(line@),
{
    let ghost before = lines.deep_view();
    lines.push(line);
    assert(lines.deep_view() =~= before.push(line@));
}

/// The lines that close a report.
pub fn report_details(
    planned: &Planned,
    verbose: bool,
    full_plan_path: Option<&str>,
) -> (lines: Vec<String>)
    ensures
        lines.deep_view() == detail_lines(
            planned@.plan,
            verbose,
            match full_plan_path {
                Some(p) => Some(p@),
                None => None,
            },
        ),
{
    let kept = &planned.plan.kept;
    let skipped = &planned.plan.skipped;
    let ghost plan = planned@.plan;
    let mut lines: Vec<String> = Vec::new();
    assert(lines.deep_view() =~= Seq::<Seq<char>>::empty());
    if let Some(path) = full_plan_path {
        let mut line = "full plan (".to_owned();
        let count = text::decimal_text(kept.len() as u128 + skipped.len() as u128);
        line.append(count.as_str());
        line.append(" dirs): ");
        line.append(path);
        assert(line@ == full_plan_line(plan, path@));
        push_line(&mut lines, line);
        assert(lines.deep_view() =~= seq![full_plan_line(plan, path@)]);
    }
    let ghost pointer = lines.deep_view();
    if verbose {
        if !kept.is_empty() {
            push_line(&mut lines, "kept:".to_owned());
            push_rows(&mut lines, kept);
            if kept.len() > REPORT_LIST_CAP {
                let mut line = "  ... and ".to_owned();
                let more = text::decimal_text((kept.len() - REPORT_LIST_CAP) as u128);
                line.append(more.as_str());
                line.append(" more");
                push_line(&mut lines, line);
            }
        }
        assert(lines.deep_view() =~= pointer + kept_lines(plan.kept));
        if !skipped.is_empty() {
            push_line(&mut lines, "skipped (flagged by Sol but not in [keep]):".to_owned());
            push_rows(&mut lines, skipped);
        }
        assert(lines.deep_view() =~= pointer + kept_lines(plan.kept) + skipped_lines(
            plan.skipped,
        ));
    }
    lines
}

/// A report opens with two lines: the warning directory and the stages, then the exact
/// sizes of both lists.
pub proof fn reports_open_with_source_and_size(planned: PlannedView)
    ensures
        ({
            let lines = header_lines(planned);
            let stages = text::joined(planned.stages, ", "@);
            &&& lines.len() == 2
            &&& ("csv-dir: "@ + planned.csv_dir + "  stages: "@).is_prefix_of(lines[0])
            &&& stages.is_suffix_of(lines[0])
            &&& lines[0].len() == ("csv-dir: "@ + planned.csv_dir + "  stages: "@).len()
                + stages.len()
            &&& lines[1] == "plan: "@ + text::decimal(planned.plan.kept.len()) + " kept, "@
                + text::decimal(planned.plan.skipped.len()) + " skipped"@
        }),
{
    let lines = header_lines(planned);
    let front = "csv-dir: "@ + planned.csv_dir + "  stages: "@;
    assert(lines[0].take(front.len() as int) =~= front);
    assert(lines[0].skip(front.len() as int) =~= text::joined(planned.stages, ", "@));
}

/// A directory's line ends with the directory, and its stage stands before it, set
/// right in nine columns.
pub proof fn lines_name_stage_and_directory(row: (Seq<char>, Seq<char>))
    ensures
        ("  "@ + text::right_aligned(row.0, 9) + " "@).is_prefix_of(row_line(row)),
        row.1.is_suffix_of(row_line(row)),
        row_line(row).len() == 3 + row.1.len() + if row.0.len() < 9 {
            9
        } else {
            row.0.len()
        },
{
    reveal_strlit("  ");
    reveal_strlit(" ");
    assert("  "@.len() == 2 && " "@.len() == 1);
    text::aligning_only_adds_blanks(row.0, 9);
    let front = "  "@ + text::right_aligned(row.0, 9) + " "@;
    assert(row_line(row).take(front.len() as int) =~= front);
    assert(row_line(row).skip(front.len() as int) =~= row.1);
}

/// The kept directories are named in the plan's order under one title, up to twenty;
/// where there are more, a last line says how many.
pub proof fn kept_directories_are_named(rows: Seq<(Seq<char>, Seq<char>)>)
    ensures
        ({
            let lines = kept_lines(rows);
            let named = if rows.len() < 20 {
                rows.len()
            } else {
                20
            };
            &&& rows.len() == 0 ==> lines.len() == 0
            &&& rows.len() > 0 ==> lines[0] == "kept:"@
            &&& 0 < rows.len() <= 20 ==> lines.len() == 1 + rows.len()
            &&& rows.len() > 20 ==> lines.len() == 22 && lines[21] == "  ... and "@
                + text::decimal((rows.len() - 20) as nat) + " more"@
            &&& forall|i: int|
                #![trigger rows[i]]
                0 <= i < named ==> lines[i + 1] == row_line(rows[i])
        }),
{
    let lines = kept_lines(rows);
    let named = if rows.len() < 20 {
        rows.len()
    } else {
        20
    };
    assert forall|i: int| #![trigger rows[i]] 0 <= i < named implies lines[i + 1] == row_line(
        rows[i],
    ) by {
        assert(row_lines(rows)[i] == row_line(rows[i]));
        assert((seq!["kept:"@] + row_lines(rows))[i + 1] == row_lines(rows)[i]);
    }
}

/// The skipped directories are named in the plan's order under one title, up to
/// twenty.
pub proof fn skipped_directories_are_named(rows: Seq<(Seq<char>, Seq<char>)>)
    ensures
        ({
            let lines = skipped_lines(rows);
            let named = if rows.len() < 20 {
                rows.len()
            } else {
                20
            };
            &&& rows.len() == 0 ==> lines.len() == 0
            &&& rows.len() > 0 ==> lines[0] == "skipped (flagged by Sol but not in [keep]):"@
            &&& rows.len() > 0 ==> lines.len() == 1 + named
            &&& forall|i: int|
                #![trigger rows[i]]
                0 <= i < named ==> lines[i + 1] == row_line(rows[i])
        }),
{
    let lines = skipped_lines(rows);
    let named = if rows.len() < 20 {
        rows.len()
    } else {
        20
    };
    assert forall|i: int| #![trigger rows[i]] 0 <= i < named implies lines[i + 1] == row_line(
        rows[i],
    ) by {
        assert(row_lines(rows)[i] == row_line(rows[i]));
    }
}

/// A report closes with the place of the complete plan, and how many directories it
/// holds, exactly where there is such a place; then, if it is verbose and only then,
/// with the kept directories and after them the skipped ones.
pub proof fn reports_close_with_place_and_directories(
    plan: PlanView,
    verbose: bool,
    path: Option<Seq<char>>,
)
    ensures
        ({
            let lines = detail_lines(plan, verbose, path);
            let named = kept_lines(plan.kept) + skipped_lines(plan.skipped);
            let n: int = if path is Some {
                1
            } else {
                0
            };
            &&& path matches Some(p) ==> lines[0] == "full plan ("@ + text::decimal(
                plan.kept.len() + plan.skipped.len(),
            ) + " dirs): "@ + p
            &&& !verbose ==> lines.len() == n
            &&& verbose ==> lines.len() == n + named.len() && lines.skip(n) == named
        }),
{
    let lines = detail_lines(plan, verbose, path);
    let named = kept_lines(plan.kept) + skipped_lines(plan.skipped);
    if verbose {
        assert(lines.skip(
            if path is Some {
                1
            } else {
                0
            },
        ) =~= named);
    }
}

} // verus!
