//! The documents of the JSON mode: exact counts, and lists that stay small.
use crate::plan::{Plan, PlanView};
use crate::renewal::{Renewal, Tally};
use vstd::prelude::*;
use vstd::string::*;

verus! {

/// Cap on how many directories are inlined into a JSON payload. Sol's warning CSVs
/// can list thousands; a document that holds them all blows an agent's context.
/// The inlined lists are samples, capped; the counts are always exact.
pub const JSON_LIST_CAP: usize = 100;

/// A plan, and what it was made from.
#[derive(Debug)]
pub struct Planned {
    /// The warning directory's path, as it is shown.
    pub csv_dir: String,
    pub stages: Vec<String>,
    pub plan: Plan,
}

/// What a `Planned` holds.
#[verifier::ext_equal]
pub struct PlannedView {
    pub csv_dir: Seq<char>,
    pub stages: Seq<Seq<char>>,
    pub plan: PlanView,
}

impl View for Planned {
    type V = PlannedView;

    open spec fn view(&self) -> PlannedView {
        PlannedView {
            csv_dir: self.csv_dir@,
            stages: self.stages.deep_view(),
            plan: self.plan@,
        }
    }
}

/// The complete plan, for the file that it is spilled to.
#[derive(Debug)]
pub struct FullPlan {
    pub csv_dir: String,
    pub stages: Vec<String>,
    pub kept: Vec<(String, String)>,
    pub skipped: Vec<(String, String)>,
}

/// What a `FullPlan` holds.
#[verifier::ext_equal]
pub struct FullPlanView {
    pub csv_dir: Seq<char>,
    pub stages: Seq<Seq<char>>,
    pub kept: Seq<(Seq<char>, Seq<char>)>,
    pub skipped: Seq<(Seq<char>, Seq<char>)>,
}

impl View for FullPlan {
    type V = FullPlanView;

    open spec fn view(&self) -> FullPlanView {
        FullPlanView {
            csv_dir: self.csv_dir@,
            stages: self.stages.deep_view(),
            kept: self.kept.deep_view(),
            skipped: self.skipped.deep_view(),
        }
    }
}

/// The plan document: exact counts, a capped sample of each list, and the path of
/// the complete plan where a list is cut short.
#[derive(Debug)]
pub struct PlanDoc {
    pub dry_run: bool,
    pub csv_dir: String,
    pub stages: Vec<String>,
    pub kept_count: usize,
    pub skipped_count: usize,
    pub kept_truncated: bool,
    pub skipped_truncated: bool,
    pub kept: Vec<(String, String)>,
    pub skipped: Vec<(String, String)>,
    pub full_plan_path: Option<String>,
}

/// What a `PlanDoc` holds.
#[verifier::ext_equal]
pub struct PlanDocView {
    pub dry_run: bool,
    pub csv_dir: Seq<char>,
    pub stages: Seq<Seq<char>>,
    pub kept_count: nat,
    pub skipped_count: nat,
    pub kept_truncated: bool,
    pub skipped_truncated: bool,
    pub kept: Seq<(Seq<char>, Seq<char>)>,
    pub skipped: Seq<(Seq<char>, Seq<char>)>,
    pub full_plan_path: Option<Seq<char>>,
}

impl View for PlanDoc {
    type V = PlanDocView;

    open spec fn view(&self) -> PlanDocView {
        PlanDocView {
            dry_run: self.dry_run,
            csv_dir: self.csv_dir@,
            stages: self.stages.deep_view(),
            kept_count: self.kept_count as nat,
            skipped_count: self.skipped_count as nat,
            kept_truncated: self.kept_truncated,
            skipped_truncated: self.skipped_truncated,
            kept: self.kept.deep_view(),
            skipped: self.skipped.deep_view(),
            full_plan_path: self.full_plan_path.deep_view(),
        }
    }
}

/// The summary of a renewal: what was renewed, and a capped sample of the kept
/// directories.
#[derive(Debug)]
pub struct Summary {
    pub renewed: bool,
    pub dirs: usize,
    pub files_touched: usize,
    pub dirs_touched: usize,
    pub failures: usize,
    pub kept_truncated: bool,
    pub kept: Vec<String>,
    pub full_plan_path: Option<String>,
}

/// What a `Summary` holds.
#[verifier::ext_equal]
pub struct SummaryView {
    pub renewed: bool,
    pub dirs: nat,
    pub files_touched: nat,
    pub dirs_touched: nat,
    pub failures: nat,
    pub kept_truncated: bool,
    pub kept: Seq<Seq<char>>,
    pub full_plan_path: Option<Seq<char>>,
}

impl View for Summary {
    type V = SummaryView;

    open spec fn view(&self) -> SummaryView {
        SummaryView {
            renewed: self.renewed,
            dirs: self.dirs as nat,
            files_touched: self.files_touched as nat,
            dirs_touched: self.dirs_touched as nat,
            failures: self.failures as nat,
            kept_truncated: self.kept_truncated,
            kept: self.kept.deep_view(),
            full_plan_path: self.full_plan_path.deep_view(),
        }
    }
}

/// The first `n` of them, or all where there are fewer.
pub open spec fn at_most<T>(items: Seq<T>, n: nat) -> Seq<T> {
    if items.len() <= n {
        items
    } else {
        items.take(n as int)
    }
}

impl PlanView {
    /// The kept list is longer than a document holds.
    pub open spec fn kept_truncated(self) -> bool {
        self.kept.len() > JSON_LIST_CAP
    }

    /// The skipped list is longer than a document holds.
    pub open spec fn skipped_truncated(self) -> bool {
        self.skipped.len() > JSON_LIST_CAP
    }

    /// One of the lists is longer than a document holds.
    pub open spec fn truncated(self) -> bool {
        self.kept_truncated() || self.skipped_truncated()
    }
}

impl PlannedView {
    /// The complete plan.
    pub open spec fn full(self) -> FullPlanView {
        FullPlanView {
            csv_dir: self.csv_dir,
            stages: self.stages,
            kept: self.plan.kept,
            skipped: self.plan.skipped,
        }
    }

    /// The plan document.
    pub open spec fn document(
        self,
        dry_run: bool,
        full_plan_path: Option<Seq<char>>,
    ) -> PlanDocView {
        PlanDocView {
            dry_run,
            csv_dir: self.csv_dir,
            stages: self.stages,
            kept_count: self.plan.kept.len(),
            skipped_count: self.plan.skipped.len(),
            kept_truncated: self.plan.kept_truncated(),
            skipped_truncated: self.plan.skipped_truncated(),
            kept: at_most(self.plan.kept, JSON_LIST_CAP as nat),
            skipped: at_most(self.plan.skipped, JSON_LIST_CAP as nat),
            full_plan_path,
        }
    }

    /// The summary of a renewal of the plan.
    pub open spec fn summary(
        self,
        renewal: Tally,
        full_plan_path: Option<Seq<char>>,
    ) -> SummaryView {
        SummaryView {
            renewed: true,
            dirs: self.plan.kept.len(),
            files_touched: renewal.files,
            dirs_touched: renewal.dirs,
            failures: renewal.failures,
            kept_truncated: self.plan.kept_truncated(),
            kept: at_most(self.plan.kept, JSON_LIST_CAP as nat).map_values(
                |row: (Seq<char>, Seq<char>)| row.1,
            ),
            full_plan_path,
        }
    }
}

/// Copies the texts.
fn copy_texts(texts: &Vec<String>) -> (r: Vec<String>)
    ensures
        r.deep_view() == texts.deep_view(),
{
    let ghost all = texts.deep_view();
    let mut out: Vec<String> = Vec::new();
    let mut i: usize = 0;
    assert(out.deep_view() =~= all.take(0));
    while i < texts.len()
        invariant
            all == texts.deep_view(),
            i <= all.len(),
            out.deep_view() == all.take(i as int),
        decreases all.len() - i,
    {
        let ghost before = out.deep_view();
        out.push(texts[i].clone());
        i = i + 1;
        assert(out.deep_view() =~= before.push(all[i - 1]));
        assert(out.deep_view() =~= all.take(i as int));
    }
    assert(all.take(all.len() as int) =~= all);
    out
}

/// Copies the first `n` rows, or all where there are fewer.
fn copy_rows(rows: &Vec<(String, String)>, n: usize) -> (r: Vec<(String, String)>)
    ensures
        r.deep_view() == at_most(rows.deep_view(), n as nat),
{
    let ghost all = rows.deep_view();
    let mut out: Vec<(String, String)> = Vec::new();
    let mut i: usize = 0;
    assert(out.deep_view() =~= all.take(0));
    while i < rows.len() && i < n
        invariant
            all == rows.deep_view(),
            i <= all.len(),
            i <= n,
            out.deep_view() == all.take(i as int),
        decreases all.len() - i,
    {
        let ghost before = out.deep_view();
        out.push((rows[i].0.clone(), rows[i].1.clone()));
        i = i + 1;
        assert(out.deep_view() =~= before.push(all[i - 1]));
        assert(out.deep_view() =~= all.take(i as int));
    }
    assert(all.take(all.len() as int) =~= all);
    out
}

/// Copies the directories of the first `n` rows, or of all where there are fewer.
fn copy_dirs(rows: &Vec<(String, String)>, n: usize) -> (r: Vec<String>)
    ensures
        r.deep_view() == at_most(rows.deep_view(), n as nat).map_values(
            |row: (Seq<char>, Seq<char>)| row.1,
        ),
{
    let ghost all = rows.deep_view();
    let ghost dirs = all.map_values(|row: (Seq<char>, Seq<char>)| row.1);
    let mut out: Vec<String> = Vec::new();
    let mut i: usize = 0;
    assert(out.deep_view() =~= dirs.take(0));
    while i < rows.len() && i < n
        invariant
            all == rows.deep_view(),
            dirs == all.map_values(|row: (Seq<char>, Seq<char>)| row.1),
            i <= all.len(),
            i <= n,
            out.deep_view() == dirs.take(i as int),
        decreases all.len() - i,
    {
        let ghost before = out.deep_view();
        out.push(rows[i].1.clone());
        i = i + 1;
        assert(out.deep_view() =~= before.push(dirs[i - 1]));
        assert(out.deep_view() =~= dirs.take(i as int));
    }
    assert(out.deep_view() =~= at_most(all, n as nat).map_values(
        |row: (Seq<char>, Seq<char>)| row.1,
    ));
    out
}

/// Whether one of the plan's lists is longer than a document holds.
pub fn is_truncated(plan: &Plan) -> (r: bool)
    ensures
        r == plan@.truncated(),
        r <==> plan.kept@.len() > 100 || plan.skipped@.len() > 100,
{
    plan.kept.len() > JSON_LIST_CAP || plan.skipped.len() > JSON_LIST_CAP
}

/// The bounded plan document. `full_plan_path` is where the complete plan was
/// spilled to, when one of the lists is cut short.
pub fn plan_json(planned: &Planned, dry_run: bool, full_plan_path: Option<String>) -> (doc: PlanDoc)
    ensures
        doc@ == planned@.document(dry_run, full_plan_path.deep_view()),
        doc.dry_run == dry_run,
        doc.csv_dir@ == planned.csv_dir@,
        doc.stages.deep_view() == planned.stages.deep_view(),
        doc.kept_count == planned.plan.kept@.len(),
        doc.skipped_count == planned.plan.skipped@.len(),
        doc.full_plan_path == full_plan_path,
{
    PlanDoc {
        dry_run,
        csv_dir: planned.csv_dir.clone(),
        stages: copy_texts(&planned.stages),
        kept_count: planned.plan.kept.len(),
        skipped_count: planned.plan.skipped.len(),
        kept_truncated: planned.plan.kept.len() > JSON_LIST_CAP,
        skipped_truncated: planned.plan.skipped.len() > JSON_LIST_CAP,
        kept: copy_rows(&planned.plan.kept, JSON_LIST_CAP),
        skipped: copy_rows(&planned.plan.skipped, JSON_LIST_CAP),
        full_plan_path,
    }
}

/// The complete, untruncated plan, for the file that it is spilled to.
pub fn dump_full_plan(planned: &Planned) -> (doc: FullPlan)
    ensures
        doc@ == planned@.full(),
        doc.csv_dir@ == planned.csv_dir@,
        doc.stages.deep_view() == planned.stages.deep_view(),
        doc.kept.deep_view() == planned.plan.kept.deep_view(),
        doc.skipped.deep_view() == planned.plan.skipped.deep_view(),
{
    let kept = &planned.plan.kept;
    let skipped = &planned.plan.skipped;
    FullPlan {
        csv_dir: planned.csv_dir.clone(),
        stages: copy_texts(&planned.stages),
        kept: copy_rows(kept, kept.len()),
        skipped: copy_rows(skipped, skipped.len()),
    }
}

/// The summary document of a renewal. `full_plan_path` is where the complete plan
/// was spilled to, when the kept list is cut short.
pub fn summary_json(planned: &Planned, renewal: &Renewal, full_plan_path: Option<String>) -> (doc:
    Summary)
    ensures
        doc@ == planned@.summary(renewal@, full_plan_path.deep_view()),
        doc.renewed,
        doc.files_touched == renewal.files,
        doc.dirs_touched == renewal.dirs,
        doc.failures == renewal.failures,
        doc.dirs == planned.plan.kept@.len(),
        doc.full_plan_path == full_plan_path,
{
    Summary {
        renewed: true,
        dirs: planned.plan.kept.len(),
        files_touched: renewal.files,
        dirs_touched: renewal.dirs,
        failures: renewal.failures,
        kept_truncated: planned.plan.kept.len() > JSON_LIST_CAP,
        kept: copy_dirs(&planned.plan.kept, JSON_LIST_CAP),
        full_plan_path,
    }
}

/// A plan document is bounded whatever the plan, its counts are exact, and it is
/// marked where a list is only a sample: then, and only then, it holds fewer than
/// it counts.
pub proof fn document_is_bounded_and_exact(
    planned: PlannedView,
    dry_run: bool,
    path: Option<Seq<char>>,
)
    ensures
        ({
            let doc = planned.document(dry_run, path);
            &&& doc.kept.len() <= JSON_LIST_CAP && doc.skipped.len() <= JSON_LIST_CAP
            &&& doc.kept_count == planned.plan.kept.len()
            &&& doc.skipped_count == planned.plan.skipped.len()
            &&& doc.kept_truncated <==> doc.kept.len() < doc.kept_count
            &&& doc.skipped_truncated <==> doc.skipped.len() < doc.skipped_count
            &&& doc.kept.is_prefix_of(planned.plan.kept)
            &&& doc.skipped.is_prefix_of(planned.plan.skipped)
        }),
{
}

/// A summary is bounded whatever the plan, its counts are exact, and it is marked
/// where its list is only a sample.
pub proof fn summary_is_bounded_and_exact(
    planned: PlannedView,
    renewal: Tally,
    path: Option<Seq<char>>,
)
    ensures
        ({
            let doc = planned.summary(renewal, path);
            &&& doc.kept.len() <= JSON_LIST_CAP
            &&& doc.dirs == planned.plan.kept.len()
            &&& doc.kept_truncated <==> doc.kept.len() < doc.dirs
        }),
{
}

/// The counters of a summary are those of the renewal, and its list names the kept
/// directories in the plan's order, up to a hundred of them.
pub proof fn summaries_carry_the_renewal(
    planned: PlannedView,
    renewal: Tally,
    path: Option<Seq<char>>,
)
    ensures
        ({
            let doc = planned.summary(renewal, path);
            &&& doc.renewed
            &&& doc.files_touched == renewal.files
            &&& doc.dirs_touched == renewal.dirs
            &&& doc.failures == renewal.failures
            &&& doc.full_plan_path == path
            &&& doc.kept.len() == if planned.plan.kept.len() < 100 {
                planned.plan.kept.len()
            } else {
                100
            }
            &&& forall|k: int|
                0 <= k < doc.kept.len() ==> #[trigger] doc.kept[k] == planned.plan.kept[k].1
        }),
{
}

/// A plan document says where its plan comes from and how it was asked for, and its
/// lists hold the first of each of the plan's, stage and directory, up to a hundred.
pub proof fn documents_carry_the_plan(
    planned: PlannedView,
    dry_run: bool,
    path: Option<Seq<char>>,
)
    ensures
        ({
            let doc = planned.document(dry_run, path);
            &&& doc.dry_run == dry_run
            &&& doc.csv_dir == planned.csv_dir
            &&& doc.stages == planned.stages
            &&& doc.full_plan_path == path
            &&& doc.kept_truncated <==> planned.plan.kept.len() > 100
            &&& doc.skipped_truncated <==> planned.plan.skipped.len() > 100
            &&& doc.kept.len() == if planned.plan.kept.len() < 100 {
                planned.plan.kept.len()
            } else {
                100
            }
            &&& doc.skipped.len() == if planned.plan.skipped.len() < 100 {
                planned.plan.skipped.len()
            } else {
                100
            }
            &&& forall|k: int|
                0 <= k < doc.kept.len() ==> #[trigger] doc.kept[k] == planned.plan.kept[k]
            &&& forall|k: int|
                0 <= k < doc.skipped.len() ==> #[trigger] doc.skipped[k]
                    == planned.plan.skipped[k]
        }),
{
}

/// The complete plan holds every kept and every skipped directory, and where they come
/// from.
pub proof fn full_plans_hold_everything(planned: PlannedView)
    ensures
        planned.full().csv_dir == planned.csv_dir,
        planned.full().stages == planned.stages,
        planned.full().kept == planned.plan.kept,
        planned.full().skipped == planned.plan.skipped,
{
}

/// A sample is cut at its end only.
pub proof fn samples_are_cut_at_the_end<T>(items: Seq<T>, n: nat)
    ensures
        at_most(items, n).is_prefix_of(items),
        at_most(items, n).len() == if items.len() < n {
            items.len()
        } else {
            n
        },
{
}

/// A plan is cut short in its document exactly where one of its lists holds more than
/// a hundred directories.
pub proof fn long_plans_are_cut(plan: PlanView)
    ensures
        plan.truncated() <==> plan.kept.len() > 100 || plan.skipped.len() > 100,
        plan.kept_truncated() <==> plan.kept.len() > 100,
        plan.skipped_truncated() <==> plan.skipped.len() > 100,
{
}

/// A plan and its source are seen as they are, stage by stage and row by row.
pub proof fn plans_are_seen_as_they_are(planned: Planned)
    ensures
        planned@.csv_dir == planned.csv_dir@,
        planned@.stages.len() == planned.stages@.len(),
        forall|i: int|
            0 <= i < planned.stages@.len() ==> #[trigger] planned@.stages[i]
                == planned.stages@[i]@,
        planned@.plan.kept.len() == planned.plan.kept@.len(),
        forall|i: int|
            0 <= i < planned.plan.kept@.len() ==> #[trigger] planned@.plan.kept[i] == (
                planned.plan.kept@[i].0@,
                planned.plan.kept@[i].1@,
            ),
        planned@.plan.skipped.len() == planned.plan.skipped@.len(),
        forall|i: int|
            0 <= i < planned.plan.skipped@.len() ==> #[trigger] planned@.plan.skipped[i] == (
                planned.plan.skipped@[i].0@,
                planned.plan.skipped@[i].1@,
            ),
{
}

/// A plan document is seen as it is.
pub proof fn documents_are_seen_as_they_are(doc: PlanDoc)
    ensures
        doc@.dry_run == doc.dry_run,
        doc@.csv_dir == doc.csv_dir@,
        doc@.stages == doc.stages.deep_view(),
        doc@.kept_count == doc.kept_count,
        doc@.skipped_count == doc.skipped_count,
        doc@.kept_truncated == doc.kept_truncated,
        doc@.skipped_truncated == doc.skipped_truncated,
        doc@.kept == doc.kept.deep_view(),
        doc@.skipped == doc.skipped.deep_view(),
        doc@.full_plan_path == doc.full_plan_path.deep_view(),
{
}

/// A summary is seen as it is.
pub proof fn summaries_are_seen_as_they_are(doc: Summary)
    ensures
        doc@.renewed == doc.renewed,
        doc@.dirs == doc.dirs,
        doc@.files_touched == doc.files_touched,
        doc@.dirs_touched == doc.dirs_touched,
        doc@.failures == doc.failures,
        doc@.kept_truncated == doc.kept_truncated,
        doc@.kept == doc.kept.deep_view(),
        doc@.full_plan_path == doc.full_plan_path.deep_view(),
{
}

/// A complete plan is seen as it is.
pub proof fn full_plans_are_seen_as_they_are(doc: FullPlan)
    ensures
        doc@.csv_dir == doc.csv_dir@,
        doc@.stages == doc.stages.deep_view(),
        doc@.kept == doc.kept.deep_view(),
        doc@.skipped == doc.skipped.deep_view(),
{
}

} // verus!
