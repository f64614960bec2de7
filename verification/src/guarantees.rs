//! What holds of every run of the command, whatever the program reports back.
use crate::document::PlannedView;
use crate::flagged::CsvFile;
use crate::plan;
use crate::renewal::Tally;
use crate::report;
use crate::session;
use crate::session::{
    ActionView, EventView, KeepOptions, Out, OutputView, PhaseView, Settings, StepView,
};
use crate::stage;
use crate::text;
use vstd::prelude::*;

verus! {

impl Settings {
    /// A run of the command: the events that the program reports, and the phases
    /// before and after each.
    pub open spec fn is_run(self, phases: Seq<PhaseView>, events: Seq<EventView>) -> bool {
        &&& phases.len() == events.len() + 1
        &&& phases[0] == PhaseView::Start
        &&& forall|i: int|
            0 <= i < events.len() ==> self.expects(phases[i], #[trigger] events[i]) && phases[i
                + 1] == self.response(phases[i], events[i]).0
    }

    /// What the command does on the event at `i`.
    pub open spec fn step_at(
        self,
        phases: Seq<PhaseView>,
        events: Seq<EventView>,
        i: int,
    ) -> StepView {
        self.response(phases[i], events[i]).1
    }

    /// What the command has made sure of by the time it is in a phase.
    spec fn sound(self, phase: PhaseView) -> bool {
        match phase {
            PhaseView::Start => true,
            PhaseView::Reading => !(self.yes && self.dry_run) && self.keep is Some,
            PhaseView::Reporting(p) => !(self.yes && self.dry_run) && !self.json_mode
                && p.plan.truncated(),
            PhaseView::Documenting(p) => self.json_mode && p.plan.truncated() && (self.dry_run
                || p.plan.kept.len() == 0),
            PhaseView::Asking(p) => !self.yes && !self.dry_run && self.interactive
                && p.plan.kept.len() > 0,
            PhaseView::Renewing(p) => !self.dry_run && (self.yes || self.interactive)
                && p.plan.kept.len() > 0,
            PhaseView::Summarizing(p, _) => !self.dry_run && (self.yes || self.interactive)
                && self.json_mode && p.plan.kept_truncated(),
            PhaseView::Over => true,
        }
    }
}

/// Whether an output is a document.
pub open spec fn is_document(output: OutputView) -> bool {
    output is Plan || output is Summary
}

/// Every phase of a run is sound.
proof fn lemma_run_is_sound(
    s: Settings,
    phases: Seq<PhaseView>,
    events: Seq<EventView>,
    i: int,
)
    requires
        s.is_run(phases, events),
        0 <= i < phases.len(),
    ensures
        s.sound(phases[i]),
    decreases i,
{
    if i > 0 {
        lemma_run_is_sound(s, phases, events, i - 1);
        assert(s.expects(phases[i - 1], events[i - 1]));
    }
}

/// A dry run never renews anything, and never asks.
pub proof fn dry_run_never_renews(
    s: Settings,
    phases: Seq<PhaseView>,
    events: Seq<EventView>,
    i: int,
)
    requires
        s.is_run(phases, events),
        0 <= i < events.len(),
        s.dry_run,
    ensures
        !(s.step_at(phases, events, i).action is Execute),
        !(s.step_at(phases, events, i).action is Confirm),
{
    lemma_run_is_sound(s, phases, events, i);
    assert(s.expects(phases[i], events[i]));
}

/// Nothing is renewed but a plan that keeps something, and only where `--yes` was
/// given or the user has just agreed.
pub proof fn renewal_needs_consent(
    s: Settings,
    phases: Seq<PhaseView>,
    events: Seq<EventView>,
    i: int,
)
    requires
        s.is_run(phases, events),
        0 <= i < events.len(),
        s.step_at(phases, events, i).action is Execute,
    ensures
        phases[i + 1] is Renewing,
        phases[i + 1]->Renewing_0.plan.kept.len() > 0,
        s.yes || (s.interactive && events[i] == EventView::Answer(true)),
{
    lemma_run_is_sound(s, phases, events, i);
    assert(s.expects(phases[i], events[i]));
}

/// The user is asked only where there is one, and where the answer matters.
pub proof fn prompts_only_when_interactive(
    s: Settings,
    phases: Seq<PhaseView>,
    events: Seq<EventView>,
    i: int,
)
    requires
        s.is_run(phases, events),
        0 <= i < events.len(),
        s.step_at(phases, events, i).action is Confirm,
    ensures
        s.interactive && !s.yes && !s.dry_run,
        phases[i + 1] is Asking,
{
    lemma_run_is_sound(s, phases, events, i);
    assert(s.expects(phases[i], events[i]));
}

/// In JSON mode there are no status lines but the one that a refusal brings, and
/// otherwise there are no documents.
pub proof fn channels_do_not_mix(
    s: Settings,
    phases: Seq<PhaseView>,
    events: Seq<EventView>,
    i: int,
    k: int,
)
    requires
        s.is_run(phases, events),
        0 <= i < events.len(),
        0 <= k < s.step_at(phases, events, i).outputs.len(),
    ensures
        s.json_mode && s.step_at(phases, events, i).outputs[k] is Status ==> events[i]
            == EventView::Answer(false),
        !s.json_mode ==> !is_document(s.step_at(phases, events, i).outputs[k]),
{
    lemma_run_is_sound(s, phases, events, i);
    assert(s.expects(phases[i], events[i]));
}

/// In JSON mode a run that ends well ends with exactly one document.
pub proof fn json_success_is_one_document(
    s: Settings,
    phases: Seq<PhaseView>,
    events: Seq<EventView>,
    i: int,
)
    requires
        s.is_run(phases, events),
        0 <= i < events.len(),
        s.json_mode,
        s.step_at(phases, events, i).action == ActionView::Exit(0),
    ensures
        s.step_at(phases, events, i).outputs.len() == 1,
        is_document(s.step_at(phases, events, i).outputs[0]),
{
    lemma_run_is_sound(s, phases, events, i);
    assert(s.expects(phases[i], events[i]));
}

/// A document names the file of the complete plan exactly where it is cut short.
pub proof fn cut_documents_name_the_full_plan(
    s: Settings,
    phases: Seq<PhaseView>,
    events: Seq<EventView>,
    i: int,
    k: int,
)
    requires
        s.is_run(phases, events),
        0 <= i < events.len(),
        0 <= k < s.step_at(phases, events, i).outputs.len(),
    ensures
        match s.step_at(phases, events, i).outputs[k] {
            OutputView::Plan(doc) => doc.full_plan_path is Some <==> doc.kept_truncated
                || doc.skipped_truncated,
            OutputView::Summary(doc) => doc.full_plan_path is Some <==> doc.kept_truncated,
            _ => true,
        },
{
    lemma_run_is_sound(s, phases, events, i);
    assert(s.expects(phases[i], events[i]));
}

/// The command ends with 0, 1 or 2; with 2 only on an error that it reports; and
/// once it has ended, it expects nothing more.
pub proof fn ends_are_final(
    s: Settings,
    phases: Seq<PhaseView>,
    events: Seq<EventView>,
    i: int,
)
    requires
        s.is_run(phases, events),
        0 <= i < events.len(),
        s.step_at(phases, events, i).action is Exit,
    ensures
        0 <= s.step_at(phases, events, i).action->Exit_0 <= 2,
        s.step_at(phases, events, i).action == ActionView::Exit(2) ==> s.step_at(
            phases,
            events,
            i,
        ).outputs.last() is Error,
        phases[i + 1] == PhaseView::Over,
        i == events.len() - 1,
{
    assert(s.expects(phases[i], events[i]));
    if i < events.len() - 1 {
        assert(s.expects(phases[i + 1], events[i + 1]));
    }
}

/// A renewal ends with 0 exactly where nothing failed, unless the complete plan
/// could not be spilled.
pub proof fn renewal_exit_code(
    s: Settings,
    phases: Seq<PhaseView>,
    events: Seq<EventView>,
    i: int,
)
    requires
        s.is_run(phases, events),
        0 <= i < events.len(),
        s.step_at(phases, events, i).action is Exit,
        phases[i] is Renewing || phases[i] is Summarizing,
    ensures
        ({
            let code = s.step_at(phases, events, i).action->Exit_0;
            match (phases[i], events[i]) {
                (_, EventView::FullPlan(Err(_))) => code == 1,
                (PhaseView::Summarizing(_, r), _) => code == 0 <==> r.failures == 0,
                (_, EventView::Renewed(r)) => code == 0 <==> r.failures == 0,
                _ => false,
            }
        }),
{
    assert(s.expects(phases[i], events[i]));
}

/// The plan that a phase carries.
pub open spec fn planned_in(phase: PhaseView) -> Option<PlannedView> {
    match phase {
        PhaseView::Reporting(p) => Some(p),
        PhaseView::Documenting(p) => Some(p),
        PhaseView::Asking(p) => Some(p),
        PhaseView::Renewing(p) => Some(p),
        PhaseView::Summarizing(p, _) => Some(p),
        _ => None,
    }
}

/// Whether the plan is the one that the rules make of the CSVs that were read.
pub open spec fn planned_from(s: Settings, event: EventView, planned: PlannedView) -> bool {
    &&& event matches EventView::CsvDir(is_dir, path, files)
    &&& is_dir
    &&& planned.csv_dir == path
    &&& planned.stages == stage::selected(s.stage)
    &&& s.keep is Some
    &&& plan::plan_for(files, planned.stages, s.keep->0) matches Ok(plan)
    &&& planned.plan == plan
}

/// A plan is never changed: the one that is shown, asked about, renewed and summed
/// up is the one that was made of the CSVs.
pub proof fn plan_is_never_changed(
    s: Settings,
    phases: Seq<PhaseView>,
    events: Seq<EventView>,
    i: int,
)
    requires
        s.is_run(phases, events),
        0 <= i < phases.len(),
        planned_in(phases[i]) is Some,
    ensures
        exists|j: int|
            0 <= j < i && planned_from(s, #[trigger] events[j], planned_in(phases[i])->0),
    decreases i,
{
    if i > 0 {
        let before = phases[i - 1];
        let event = events[i - 1];
        assert(s.expects(before, event));
        if planned_in(before) is Some {
            plan_is_never_changed(s, phases, events, i - 1);
            let j = choose|j: int|
                0 <= j < i - 1 && planned_from(s, #[trigger] events[j], planned_in(before)->0);
            assert(planned_from(s, events[j], planned_in(phases[i])->0));
        } else {
            assert(planned_from(s, event, planned_in(phases[i])->0));
        }
    }
}

/// Whatever is renewed has been flagged by Sol under one of the chosen stages and
/// is kept by the rules, and no directory is renewed twice.
pub proof fn only_flagged_and_kept_is_renewed(
    s: Settings,
    phases: Seq<PhaseView>,
    events: Seq<EventView>,
    i: int,
)
    requires
        s.is_run(phases, events),
        0 <= i < phases.len(),
        phases[i] is Renewing,
    ensures
        ({
            let planned = phases[i]->Renewing_0;
            &&& s.keep is Some
            &&& plan::distinct_dirs(planned.plan.kept)
            &&& forall|k: int|
                0 <= k < planned.plan.kept.len() ==> s.keep->0.keeps(
                    (#[trigger] planned.plan.kept[k]).1,
                )
            &&& exists|j: int|
                0 <= j < i && (#[trigger] events[j]) is CsvDir && forall|k: int|
                    0 <= k < planned.plan.kept.len() ==> plan::flagged_under(
                        events[j]->CsvDir_2,
                        stage::selected(s.stage),
                        #[trigger] planned.plan.kept[k],
                    )
        }),
{
    plan_is_never_changed(s, phases, events, i);
    let planned = phases[i]->Renewing_0;
    let j = choose|j: int| 0 <= j < i && planned_from(s, #[trigger] events[j], planned);
    plan::plan_is_sound(events[j]->CsvDir_2, planned.stages, s.keep->0);
}

/// The settings of a run are the options and the output that it was given.
pub proof fn settings_are_the_options(opts: KeepOptions<'_>, out: Out)
    ensures
        opts.settings(out).stage == opts.stage@,
        opts.settings(out).yes == opts.yes,
        opts.settings(out).dry_run == opts.dry_run,
        opts.settings(out).verbose == opts.verbose,
        opts.settings(out).json_mode == out.json_mode,
        opts.settings(out).interactive == out.interactive,
        opts.config_keep is None <==> opts.settings(out).keep is None,
        opts.config_keep matches Some(rules) ==> opts.settings(out).keep == Some(*rules),
{
}

/// A stage can be asked for exactly where it is one of the three, or all of them.
pub proof fn stages_that_can_be_asked_for(s: Settings)
    ensures
        s.valid_stage() <==> s.stage == "pending"@ || s.stage == "over90"@ || s.stage
            == "inactive"@ || s.stage == "all"@,
{
    stage::stages_are_three(s.stage);
}

/// The exit code of a renewal is 0 where nothing failed, and else 1.
pub proof fn exit_codes_tell_failure(renewal: Tally)
    ensures
        session::exit_code(renewal) == 0 <==> renewal.failures == 0,
        session::exit_code(renewal) == 1 <==> renewal.failures > 0,
{
}

/// The line that closes a renewal tells how many directories the plan keeps, both
/// counters, and, where anything failed, how much.
pub proof fn closing_lines_tell_the_counts(planned: PlannedView, renewal: Tally)
    ensures
        ({
            let counts = "done "@ + text::decimal(planned.plan.kept.len())
                + " flagged dirs · touched "@ + text::decimal(renewal.files) + " files + "@
                + text::decimal(renewal.dirs) + " dirs"@;
            let line = session::done_line(planned, renewal);
            &&& counts.is_prefix_of(line)
            &&& renewal.failures == 0 ==> line == counts
            &&& renewal.failures > 0 ==> line == counts + (" · "@ + text::decimal(
                renewal.failures,
            ) + " failed"@)
        }),
{
    let counts = "done "@ + text::decimal(planned.plan.kept.len()) + " flagged dirs · touched "@
        + text::decimal(renewal.files) + " files + "@ + text::decimal(renewal.dirs) + " dirs"@;
    let line = session::done_line(planned, renewal);
    assert(line.take(counts.len() as int) =~= counts);
    if renewal.failures == 0 {
        assert(line =~= counts);
    } else {
        assert(line =~= counts + (" · "@ + text::decimal(renewal.failures) + " failed"@));
    }
}

/// Contradicting options and missing rules are refused before anything is read, with
/// code 2; all other runs read the warning directory, without a word.
pub proof fn runs_begin_by_reading(s: Settings)
    ensures
        ({
            let (phase, step) = s.response(PhaseView::Start, EventView::Begin);
            &&& s.yes && s.dry_run ==> step.action == ActionView::Exit(2) && step.outputs == seq![
                OutputView::Error("error: --yes and --dry-run are mutually exclusive"@),
            ]
            &&& !(s.yes && s.dry_run) && s.keep is None ==> step.action == ActionView::Exit(2)
                && step.outputs == seq![
                OutputView::Error(
                    "error: no [keep] block in config. add one with `solx config edit`."@,
                ),
            ]
            &&& !(s.yes && s.dry_run) && s.keep is Some ==> step.action == ActionView::ReadCsvDir
                && step.outputs.len() == 0 && phase == PhaseView::Reading
        }),
{
    reveal_strlit("error: ");
    reveal_strlit("--yes and --dry-run are mutually exclusive");
    reveal_strlit("error: --yes and --dry-run are mutually exclusive");
    reveal_strlit("no [keep] block in config. add one with `solx config edit`.");
    reveal_strlit("error: no [keep] block in config. add one with `solx config edit`.");
    assert("error: "@ + "--yes and --dry-run are mutually exclusive"@
        =~= "error: --yes and --dry-run are mutually exclusive"@);
    assert("error: "@ + "no [keep] block in config. add one with `solx config edit`."@
        =~= "error: no [keep] block in config. add one with `solx config edit`."@);
}

/// A warning directory that is none ends the run with code 2 and an error that names
/// it; a CSV that cannot be read ends it with code 1 and the error's words.
pub proof fn unreadable_warnings_end_the_run(
    s: Settings,
    is_dir: bool,
    path: Seq<char>,
    files: Seq<CsvFile>,
)
    requires
        s.keep is Some,
    ensures
        ({
            let step = s.response(
                PhaseView::Reading,
                EventView::CsvDir(is_dir, path, files),
            ).1;
            &&& !is_dir ==> step.action == ActionView::Exit(2) && step.outputs.len() == 1
                && step.outputs[0] == OutputView::Error(
                "error: --csv-dir "@ + path
                    + " is not a directory (Sol drops the warning CSVs in $HOME)."@,
            )
            &&& is_dir ==> (plan::plan_for(files, stage::selected(s.stage), s.keep->0) matches Err(
                e,
            ) ==> step.action == ActionView::Exit(1) && step.outputs.len() == 1 && step.outputs[0]
                == OutputView::Error("error: "@ + e))
        }),
{
    reveal_strlit("error: ");
    reveal_strlit("--csv-dir ");
    reveal_strlit("error: --csv-dir ");
    let rest = " is not a directory (Sol drops the warning CSVs in $HOME)."@;
    assert("error: "@ + "--csv-dir "@ =~= "error: --csv-dir "@);
    assert("error: "@ + ("--csv-dir "@ + path + rest) =~= "error: --csv-dir "@ + path + rest);
}

/// The plan that the command makes of CSVs.
pub open spec fn is_planned(
    s: Settings,
    path: Seq<char>,
    files: Seq<CsvFile>,
    planned: PlannedView,
) -> bool {
    &&& s.keep is Some
    &&& planned.csv_dir == path
    &&& planned.stages == stage::selected(s.stage)
    &&& plan::plan_for(files, stage::selected(s.stage), s.keep->0) == Ok::<
        plan::PlanView,
        Seq<char>,
    >(planned.plan)
}

/// The event after which the command decides on a plan: the CSVs have been read and
/// the plan need not be spilled for the report, or it has been spilled.
pub open spec fn settles(
    s: Settings,
    phase: PhaseView,
    event: EventView,
    planned: PlannedView,
) -> bool {
    ||| {
        &&& phase == PhaseView::Reading
        &&& event matches EventView::CsvDir(is_dir, path, files)
        &&& is_dir
        &&& is_planned(s, path, files, planned)
        &&& s.json_mode || (planned.plan.kept.len() <= 100 && planned.plan.skipped.len() <= 100)
    }
    ||| {
        &&& phase == PhaseView::Reporting(planned)
        &&& event matches EventView::FullPlan(Ok(_))
        &&& !s.json_mode
    }
}

/// With `--yes`, a plan that keeps anything is renewed at once, and the plan that is
/// renewed is the one that was made.
pub proof fn yes_renews(s: Settings, phase: PhaseView, event: EventView, planned: PlannedView)
    requires
        settles(s, phase, event, planned),
        planned.plan.kept.len() > 0,
        s.yes,
        !s.dry_run,
    ensures
        s.response(phase, event).1.action is Execute,
        s.response(phase, event).0 == PhaseView::Renewing(planned),
        s.json_mode ==> s.response(phase, event).1.outputs.len() == 0,
{
    crate::document::long_plans_are_cut(planned.plan);
}

/// Without `--yes`, a user who is there is asked, with the number of directories, and
/// nothing is renewed yet.
pub proof fn users_are_asked(s: Settings, phase: PhaseView, event: EventView, planned: PlannedView)
    requires
        settles(s, phase, event, planned),
        planned.plan.kept.len() > 0,
        !s.yes,
        !s.dry_run,
        s.interactive,
    ensures
        s.response(phase, event).1.action == ActionView::Confirm(
            "Touch mtimes on "@ + text::decimal(planned.plan.kept.len()) + " directories?"@,
        ),
        s.response(phase, event).0 == PhaseView::Asking(planned),
        s.json_mode ==> s.response(phase, event).1.outputs.len() == 0,
{
    crate::document::long_plans_are_cut(planned.plan);
}

/// Without `--yes` and without a user to be asked, a plan that keeps anything is
/// refused with code 2 and an error that says what to pass.
pub proof fn unattended_runs_are_refused(
    s: Settings,
    phase: PhaseView,
    event: EventView,
    planned: PlannedView,
)
    requires
        settles(s, phase, event, planned),
        planned.plan.kept.len() > 0,
        !s.yes,
        !s.dry_run,
        !s.interactive,
    ensures
        s.response(phase, event).1.action == ActionView::Exit(2),
        s.response(phase, event).1.outputs.last() == OutputView::Error(
            "error: non-interactive session - pass -y to renew "@ + text::decimal(
                planned.plan.kept.len(),
            ) + " directories, or -n to preview."@,
        ),
        s.json_mode ==> s.response(phase, event).1.outputs.len() == 1,
{
    crate::document::long_plans_are_cut(planned.plan);
    reveal_strlit("error: ");
    reveal_strlit("non-interactive session - pass -y to renew ");
    reveal_strlit("error: non-interactive session - pass -y to renew ");
    let count = text::decimal(planned.plan.kept.len());
    assert("error: "@ + "non-interactive session - pass -y to renew "@
        =~= "error: non-interactive session - pass -y to renew "@);
    assert("error: "@ + ("non-interactive session - pass -y to renew "@ + count
        + " directories, or -n to preview."@)
        =~= "error: non-interactive session - pass -y to renew "@ + count
        + " directories, or -n to preview."@);
}

/// A plan that keeps nothing ends the run well: in words for a human, and for an agent
/// with the plan document.
pub proof fn empty_plans_end_well(
    s: Settings,
    phase: PhaseView,
    event: EventView,
    planned: PlannedView,
)
    requires
        settles(s, phase, event, planned),
        planned.plan.kept.len() == 0,
    ensures
        !s.json_mode ==> s.response(phase, event).1.action == ActionView::Exit(0) && s.response(
            phase,
            event,
        ).1.outputs.last() == OutputView::Status(
            "no flagged directories matched - nothing to do."@,
        ),
        s.json_mode && planned.plan.skipped.len() <= 100 ==> s.response(phase, event).1.action
            == ActionView::Exit(0) && s.response(phase, event).1.outputs == seq![
            OutputView::Plan(planned.document(s.dry_run, None)),
        ],
        s.json_mode && planned.plan.skipped.len() > 100 ==> s.response(phase, event).1.action
            == ActionView::WriteFullPlan(planned.full()) && s.response(phase, event).0
            == PhaseView::Documenting(planned) && s.response(phase, event).1.outputs.len() == 0,
{
    crate::document::long_plans_are_cut(planned.plan);
}

/// A dry run of a plan that keeps anything ends well once the plan has been shown: to
/// an agent with the plan document, to a human with the report alone.
pub proof fn dry_runs_end_well(
    s: Settings,
    phase: PhaseView,
    event: EventView,
    planned: PlannedView,
)
    requires
        settles(s, phase, event, planned),
        planned.plan.kept.len() > 0,
        s.dry_run,
    ensures
        !s.json_mode ==> s.response(phase, event).1.action == ActionView::Exit(0),
        s.json_mode && planned.plan.kept.len() <= 100 && planned.plan.skipped.len() <= 100
            ==> s.response(phase, event).1.action == ActionView::Exit(0) && s.response(
            phase,
            event,
        ).1.outputs == seq![OutputView::Plan(planned.document(true, None))],
        s.json_mode && (planned.plan.kept.len() > 100 || planned.plan.skipped.len() > 100)
            ==> s.response(phase, event).1.action == ActionView::WriteFullPlan(planned.full())
            && s.response(phase, event).0 == PhaseView::Documenting(planned) && s.response(
            phase,
            event,
        ).1.outputs.len() == 0,
{
    crate::document::long_plans_are_cut(planned.plan);
}

/// The user's word is final: agreement renews the plan that was asked about, and a
/// refusal renews nothing and ends with code 1.
pub proof fn answers_are_obeyed(s: Settings, planned: PlannedView)
    ensures
        s.response(PhaseView::Asking(planned), EventView::Answer(true)).1.action is Execute,
        s.response(PhaseView::Asking(planned), EventView::Answer(true)).0 == PhaseView::Renewing(
            planned,
        ),
        s.response(PhaseView::Asking(planned), EventView::Answer(true)).1.outputs.len() == 0,
        s.response(PhaseView::Asking(planned), EventView::Answer(false)).1.action
            == ActionView::Exit(1),
        s.response(PhaseView::Asking(planned), EventView::Answer(false)).1.outputs == seq![
            OutputView::Status("aborted"@),
        ],
{
}

/// Whether the decision on a plan comes with words of its own: where there is nothing
/// to do, and where the run is refused.
pub open spec fn has_last_word(s: Settings, planned: PlannedView) -> bool {
    planned.plan.kept.len() == 0 || (!s.dry_run && !s.yes && !s.interactive)
}

/// A human sees the whole report before anything is decided: the header, and, where
/// nothing has to be spilled first, the rest; otherwise the complete plan is spilled
/// right after the header.
pub proof fn reports_come_first(
    s: Settings,
    path: Seq<char>,
    files: Seq<CsvFile>,
    planned: PlannedView,
)
    requires
        !s.json_mode,
        is_planned(s, path, files, planned),
    ensures
        ({
            let (phase, step) = s.response(
                PhaseView::Reading,
                EventView::CsvDir(true, path, files),
            );
            let header = report::header_lines(planned);
            let details = report::detail_lines(planned.plan, s.verbose, None);
            let long = planned.plan.kept.len() > 100 || planned.plan.skipped.len() > 100;
            &&& header.len() <= step.outputs.len()
            &&& forall|k: int|
                0 <= k < header.len() ==> #[trigger] step.outputs[k] == OutputView::Status(
                    header[k],
                )
            &&& long ==> step.action == ActionView::WriteFullPlan(planned.full()) && phase
                == PhaseView::Reporting(planned) && step.outputs.len() == header.len()
            &&& !long ==> step.outputs.len() == header.len() + details.len() + (if has_last_word(
                s,
                planned,
            ) {
                1int
            } else {
                0int
            }) && forall|k: int|
                #![trigger details[k]]
                0 <= k < details.len() ==> step.outputs[header.len() + k] == OutputView::Status(
                    details[k],
                )
        }),
{
    crate::document::long_plans_are_cut(planned.plan);
    let step = s.response(PhaseView::Reading, EventView::CsvDir(true, path, files)).1;
    let header = report::header_lines(planned);
    let details = report::detail_lines(planned.plan, s.verbose, None);
    if planned.plan.kept.len() <= 100 && planned.plan.skipped.len() <= 100 {
        assert forall|k: int| #![trigger details[k]] 0 <= k < details.len() implies step.outputs[
        header.len() + k] == OutputView::Status(details[k]) by {}
    }
}

/// Once a long plan has been spilled, the report goes on with its place, and the run
/// with the decision.
pub proof fn reports_go_on_with_the_place(s: Settings, planned: PlannedView, path: Seq<char>)
    requires
        !s.json_mode,
    ensures
        ({
            let step = s.response(
                PhaseView::Reporting(planned),
                EventView::FullPlan(Ok(path)),
            ).1;
            let details = report::detail_lines(planned.plan, s.verbose, Some(path));
            &&& step.outputs.len() == details.len() + (if has_last_word(s, planned) {
                1int
            } else {
                0int
            })
            &&& forall|k: int|
                #![trigger details[k]]
                0 <= k < details.len() ==> step.outputs[k] == OutputView::Status(details[k])
        }),
{
    let step = s.response(PhaseView::Reporting(planned), EventView::FullPlan(Ok(path))).1;
    let details = report::detail_lines(planned.plan, s.verbose, Some(path));
    assert forall|k: int| #![trigger details[k]] 0 <= k < details.len() implies step.outputs[k]
        == OutputView::Status(details[k]) by {}
}

/// A plan that cannot be spilled ends the run with code 1 and the error's words.
pub proof fn failed_spills_end_the_run(s: Settings, phase: PhaseView, error: Seq<char>)
    requires
        s.expects(phase, EventView::FullPlan(Err(error))),
    ensures
        s.response(phase, EventView::FullPlan(Err(error))).1.action == ActionView::Exit(1),
        s.response(phase, EventView::FullPlan(Err(error))).1.outputs == seq![
            OutputView::Error("error: "@ + error),
        ],
{
}

/// A renewal ends the run with its own counts. A human gets the closing line. An agent
/// gets the summary; where the kept list is too long for it, the complete plan is
/// spilled first, and the counts wait.
pub proof fn renewals_are_summed_up(s: Settings, planned: PlannedView, renewal: Tally)
    ensures
        ({
            let (phase, step) = s.response(
                PhaseView::Renewing(planned),
                EventView::Renewed(renewal),
            );
            let code: i32 = if renewal.failures == 0 {
                0
            } else {
                1
            };
            &&& !s.json_mode ==> step.action == ActionView::Exit(code) && step.outputs == seq![
                OutputView::Status(session::done_line(planned, renewal)),
            ]
            &&& s.json_mode && planned.plan.kept.len() <= 100 ==> step.action == ActionView::Exit(
                code,
            ) && step.outputs == seq![OutputView::Summary(planned.summary(renewal, None))]
            &&& s.json_mode && planned.plan.kept.len() > 100 ==> step.action
                == ActionView::WriteFullPlan(planned.full()) && step.outputs.len() == 0 && phase
                == PhaseView::Summarizing(planned, renewal)
        }),
{
    crate::document::long_plans_are_cut(planned.plan);
}

/// Once a long plan has been spilled for a document, the document is printed, names
/// the place, and ends the run: with the code of the renewal where there was one, and
/// else with 0.
pub proof fn spilled_plans_are_documented(
    s: Settings,
    planned: PlannedView,
    renewal: Tally,
    path: Seq<char>,
)
    ensures
        ({
            let step = s.response(
                PhaseView::Summarizing(planned, renewal),
                EventView::FullPlan(Ok(path)),
            ).1;
            &&& step.outputs == seq![OutputView::Summary(planned.summary(renewal, Some(path)))]
            &&& step.action is Exit
            &&& step.action->Exit_0 == 0 <==> renewal.failures == 0
            &&& step.action->Exit_0 == 1 <==> renewal.failures > 0
        }),
        ({
            let step = s.response(
                PhaseView::Documenting(planned),
                EventView::FullPlan(Ok(path)),
            ).1;
            &&& step.outputs == seq![OutputView::Plan(planned.document(s.dry_run, Some(path)))]
            &&& step.action == ActionView::Exit(0)
        }),
{
}

/// The counts in a phase are those that the renewal reported.
proof fn lemma_counts_are_reported(
    s: Settings,
    phases: Seq<PhaseView>,
    events: Seq<EventView>,
    i: int,
)
    requires
        s.is_run(phases, events),
        0 <= i < phases.len(),
        phases[i] is Summarizing,
    ensures
        i > 0,
        events[i - 1] == EventView::Renewed(phases[i]->Summarizing_1),
{
    if i > 0 {
        assert(s.expects(phases[i - 1], events[i - 1]));
    }
}

/// A summary tells the truth of the renewal, in every run: its counters are those that
/// the renewal reported, it ends the run, and it shows no failure exactly where the
/// exit code is 0.
pub proof fn summaries_agree_with_the_exit_code(
    s: Settings,
    phases: Seq<PhaseView>,
    events: Seq<EventView>,
    i: int,
    k: int,
)
    requires
        s.is_run(phases, events),
        0 <= i < events.len(),
        0 <= k < s.step_at(phases, events, i).outputs.len(),
        s.step_at(phases, events, i).outputs[k] is Summary,
    ensures
        ({
            let doc = s.step_at(phases, events, i).outputs[k]->Summary_0;
            &&& s.step_at(phases, events, i).action is Exit
            &&& doc.failures == 0 <==> s.step_at(phases, events, i).action->Exit_0 == 0
            &&& exists|j: int|
                0 <= j <= i && (#[trigger] events[j] matches EventView::Renewed(r)
                    && doc.files_touched == r.files && doc.dirs_touched == r.dirs && doc.failures
                    == r.failures)
        }),
{
    lemma_run_is_sound(s, phases, events, i);
    assert(s.expects(phases[i], events[i]));
    let doc = s.step_at(phases, events, i).outputs[k]->Summary_0;
    match phases[i] {
        PhaseView::Renewing(p) => {
            let r = events[i]->Renewed_0;
            assert(events[i] == EventView::Renewed(r));
            assert(doc == p.summary(r, None));
        },
        PhaseView::Summarizing(p, r) => {
            lemma_counts_are_reported(s, phases, events, i);
            assert(events[i - 1] == EventView::Renewed(r));
            assert(doc.failures == r.failures);
        },
        _ => {
            assert(false);
        },
    }
}

/// Whatever the command asks of the program, it takes the answer; and it asks for
/// something until it ends.
pub proof fn answers_are_taken(
    s: Settings,
    phases: Seq<PhaseView>,
    events: Seq<EventView>,
    i: int,
    answer: EventView,
)
    requires
        s.is_run(phases, events),
        0 <= i < events.len(),
        s.valid_stage(),
        match s.step_at(phases, events, i).action {
            ActionView::Exit(_) => false,
            ActionView::ReadCsvDir => answer is CsvDir,
            ActionView::WriteFullPlan(_) => answer is FullPlan,
            ActionView::Confirm(_) => answer is Answer,
            ActionView::Execute => answer is Renewed,
        },
    ensures
        s.expects(phases[i + 1], answer),
{
    lemma_run_is_sound(s, phases, events, i + 1);
    assert(s.expects(phases[i], events[i]));
    assert(phases[i + 1] == s.response(phases[i], events[i]).0);
}

/// Whatever is spilled is the whole of the plan that was made of the CSVs, with the
/// directory and the stages that it comes from.
pub proof fn the_whole_plan_is_spilled(
    s: Settings,
    phases: Seq<PhaseView>,
    events: Seq<EventView>,
    i: int,
)
    requires
        s.is_run(phases, events),
        0 <= i < events.len(),
        s.step_at(phases, events, i).action is WriteFullPlan,
    ensures
        ({
            let full = s.step_at(phases, events, i).action->WriteFullPlan_0;
            exists|j: int|
                0 <= j <= i && (#[trigger] events[j] matches EventView::CsvDir(_, path, files)
                    && full.csv_dir == path && full.stages == stage::selected(s.stage)
                    && s.keep is Some && (plan::plan_for(
                    files,
                    stage::selected(s.stage),
                    s.keep->0,
                ) matches Ok(plan) && full.kept == plan.kept && full.skipped == plan.skipped))
        }),
{
    lemma_run_is_sound(s, phases, events, i);
    assert(s.expects(phases[i], events[i]));
    assert(phases[i + 1] == s.response(phases[i], events[i]).0);
    plan_is_never_changed(s, phases, events, i + 1);
    let planned = planned_in(phases[i + 1])->0;
    let j = choose|j: int| 0 <= j < i + 1 && planned_from(s, #[trigger] events[j], planned);
    assert(events[j] is CsvDir);
}

} // verus!
