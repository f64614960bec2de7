//! The `keep` command: what it prints, what it asks for, and how it ends.
//!
//! The command alternates decisions with work outside: reading the warning CSVs,
//! spilling the complete plan to a file, asking the user, renewing. A `Session`
//! makes the decisions. It says what to print and what to do; the program does it
//! and reports back with an event.
use crate::document;
use crate::document::{
    FullPlan, FullPlanView, PlanDoc, PlanDocView, Planned, PlannedView, Summary, SummaryView,
};
use crate::flagged::CsvFile;
use crate::plan;
use crate::plan::CsvDir;
use crate::renewal::{Renewal, Tally};
use crate::report;
use crate::rules::KeepRules;
use crate::stage;
use crate::text;
use std::path::PathBuf;
use vstd::prelude::*;
use vstd::string::*;

verus! {

/// Where the output goes.
#[derive(Debug, Clone, Copy)]
pub struct Out {
    /// Documents on stdout, for an agent.
    pub json_mode: bool,
    /// A user is there to be asked.
    pub interactive: bool,
}

/// The options of the command.
pub struct KeepOptions<'a> {
    pub csv_dir: Option<PathBuf>,
    pub stage: String,
    pub jobs_n: u64,
    pub yes: bool,
    pub dry_run: bool,
    pub verbose: bool,
    pub config_keep: Option<&'a KeepRules>,
}

/// Something to print.
#[derive(Debug)]
pub enum Output {
    Error(String),
    Status(String),
    Plan(PlanDoc),
    Summary(Summary),
}

/// What an `Output` holds.
pub enum OutputView {
    Error(Seq<char>),
    Status(Seq<char>),
    Plan(PlanDocView),
    Summary(SummaryView),
}

impl View for Output {
    type V = OutputView;

    open spec fn view(&self) -> OutputView {
        match self {
            Output::Error(s) => OutputView::Error(s@),
            Output::Status(s) => OutputView::Status(s@),
            Output::Plan(doc) => OutputView::Plan(doc@),
            Output::Summary(doc) => OutputView::Summary(doc@),
        }
    }
}

/// The outputs by their views.
pub open spec fn output_views(outputs: Seq<Output>) -> Seq<OutputView> {
    outputs.map_values(|o: Output| o@)
}

/// What the program does next.
#[derive(Debug)]
pub enum Action {
    /// End with this exit code.
    Exit(i32),
    /// Read the warning directory; report back with `Event::CsvDir`.
    ReadCsvDir,
    /// Spill the complete plan to a file; report back with `Event::FullPlan`.
    WriteFullPlan(FullPlan),
    /// Ask the user, where no is the default; report back with `Event::Answer`.
    Confirm(String),
    /// Renew the kept directories; report back with `Event::Renewed`.
    Execute,
}

/// What an `Action` holds.
pub enum ActionView {
    Exit(i32),
    ReadCsvDir,
    WriteFullPlan(FullPlanView),
    Confirm(Seq<char>),
    Execute,
}

impl View for Action {
    type V = ActionView;

    open spec fn view(&self) -> ActionView {
        match self {
            Action::Exit(code) => ActionView::Exit(*code),
            Action::ReadCsvDir => ActionView::ReadCsvDir,
            Action::WriteFullPlan(doc) => ActionView::WriteFullPlan(doc@),
            Action::Confirm(s) => ActionView::Confirm(s@),
            Action::Execute => ActionView::Execute,
        }
    }
}

/// What the command does on an event: print, then act.
#[derive(Debug)]
pub struct Step {
    pub outputs: Vec<Output>,
    pub action: Action,
}

/// What a `Step` holds.
#[verifier::ext_equal]
pub struct StepView {
    pub outputs: Seq<OutputView>,
    pub action: ActionView,
}

impl View for Step {
    type V = StepView;

    open spec fn view(&self) -> StepView {
        StepView { outputs: output_views(self.outputs@), action: self.action@ }
    }
}

/// What the program reports back.
#[derive(Debug)]
pub enum Event {
    /// The command starts.
    Begin,
    /// Whether the warning directory is a directory, and what it holds.
    CsvDir(bool, CsvDir),
    /// Where the complete plan was spilled to, or why it could not be.
    FullPlan(Result<String, String>),
    /// What the user said.
    Answer(bool),
    /// What was renewed.
    Renewed(Renewal),
}

/// What an `Event` holds.
pub enum EventView {
    Begin,
    CsvDir(bool, Seq<char>, Seq<CsvFile>),
    FullPlan(Result<Seq<char>, Seq<char>>),
    Answer(bool),
    Renewed(Tally),
}

impl View for Event {
    type V = EventView;

    open spec fn view(&self) -> EventView {
        match self {
            Event::Begin => EventView::Begin,
            Event::CsvDir(is_dir, dir) => EventView::CsvDir(*is_dir, dir.path@, dir.files@),
            Event::FullPlan(r) => EventView::FullPlan(
                match *r {
                    Ok(path) => Ok(path@),
                    Err(e) => Err(e@),
                },
            ),
            Event::Answer(yes) => EventView::Answer(*yes),
            Event::Renewed(r) => EventView::Renewed(r@),
        }
    }
}

/// Where the command is.
enum Phase {
    Start,
    Reading,
    Reporting(Planned),
    Documenting(Planned),
    Asking(Planned),
    Renewing(Planned),
    Summarizing(Planned, Renewal),
    Over,
}

/// Where the command is, and the plan that it has made.
pub enum PhaseView {
    /// Nothing has happened.
    Start,
    /// The warning directory is being read.
    Reading,
    /// The complete plan is being spilled for the report.
    Reporting(PlannedView),
    /// The complete plan is being spilled for the plan document.
    Documenting(PlannedView),
    /// The user is being asked.
    Asking(PlannedView),
    /// The kept directories are being renewed.
    Renewing(PlannedView),
    /// The complete plan is being spilled for the summary.
    Summarizing(PlannedView, Tally),
    /// The command has ended.
    Over,
}

impl Phase {
    spec fn view(self) -> PhaseView {
        match self {
            Phase::Start => PhaseView::Start,
            Phase::Reading => PhaseView::Reading,
            Phase::Reporting(p) => PhaseView::Reporting(p@),
            Phase::Documenting(p) => PhaseView::Documenting(p@),
            Phase::Asking(p) => PhaseView::Asking(p@),
            Phase::Renewing(p) => PhaseView::Renewing(p@),
            Phase::Summarizing(p, r) => PhaseView::Summarizing(p@, r@),
            Phase::Over => PhaseView::Over,
        }
    }
}

/// A run of the command.
pub struct Session<'a> {
    opts: &'a KeepOptions<'a>,
    out: Out,
    phase: Phase,
}

/// What the command was asked to do.
pub struct Settings {
    pub stage: Seq<char>,
    pub yes: bool,
    pub dry_run: bool,
    pub verbose: bool,
    pub keep: Option<KeepRules>,
    pub json_mode: bool,
    pub interactive: bool,
}

impl<'a> KeepOptions<'a> {
    /// The settings that these options make, with this output.
    pub open spec fn settings(self, out: Out) -> Settings {
        Settings {
            stage: self.stage@,
            yes: self.yes,
            dry_run: self.dry_run,
            verbose: self.verbose,
            keep: match self.config_keep {
                Some(rules) => Some(*rules),
                None => None,
            },
            json_mode: out.json_mode,
            interactive: out.interactive,
        }
    }
}

/// The command ends with this output and exit code.
pub open spec fn ends(output: OutputView, code: i32) -> (PhaseView, StepView) {
    (PhaseView::Over, StepView { outputs: seq![output], action: ActionView::Exit(code) })
}

/// The command fails.
pub open spec fn fails(message: Seq<char>, code: i32) -> (PhaseView, StepView) {
    ends(OutputView::Error("error: "@ + message), code)
}

/// The command goes on without a word.
pub open spec fn goes_on(phase: PhaseView, action: ActionView) -> (PhaseView, StepView) {
    (phase, StepView { outputs: Seq::empty(), action })
}

/// Status lines come first.
pub open spec fn after_lines(lines: Seq<Seq<char>>, r: (PhaseView, StepView)) -> (
    PhaseView,
    StepView,
) {
    let statuses = lines.map_values(|line: Seq<char>| OutputView::Status(line));
    (r.0, StepView { outputs: statuses + r.1.outputs, action: r.1.action })
}

/// The exit code of a renewal: failure where anything failed.
pub open spec fn exit_code(renewal: Tally) -> i32 {
    if renewal.failures > 0 {
        1
    } else {
        0
    }
}

/// The line that closes a renewal.
pub open spec fn done_line(planned: PlannedView, renewal: Tally) -> Seq<char> {
    "done "@ + text::decimal(planned.plan.kept.len()) + " flagged dirs · touched "@
        + text::decimal(renewal.files) + " files + "@ + text::decimal(renewal.dirs) + " dirs"@
        + if renewal.failures > 0 {
        " · "@ + text::decimal(renewal.failures) + " failed"@
    } else {
        Seq::empty()
    }
}

impl Settings {
    /// The stage is one that a CSV is known for, or stands for all of them.
    pub open spec fn valid_stage(self) -> bool {
        stage::is_stage(self.stage) || self.stage == "all"@
    }

    /// The command starts: it refuses options that contradict each other, and a
    /// configuration without rules.
    pub open spec fn begin(self) -> (PhaseView, StepView) {
        if self.yes && self.dry_run {
            fails("--yes and --dry-run are mutually exclusive"@, 2)
        } else if self.keep is None {
            fails("no [keep] block in config. add one with `solx config edit`."@, 2)
        } else {
            goes_on(PhaseView::Reading, ActionView::ReadCsvDir)
        }
    }

    /// The warning directory has been read: the command plans and reports.
    pub open spec fn plan(self, is_dir: bool, path: Seq<char>, files: Seq<CsvFile>) -> (
        PhaseView,
        StepView,
    ) {
        let stages = stage::selected(self.stage);
        if !is_dir {
            fails(
                "--csv-dir "@ + path
                    + " is not a directory (Sol drops the warning CSVs in $HOME)."@,
                2,
            )
        } else {
            match plan::plan_for(files, stages, self.keep->0) {
                Err(e) => fails(e, 1),
                Ok(plan) => self.report(PlannedView { csv_dir: path, stages, plan }),
            }
        }
    }

    /// The plan is reported to a human; a long one is spilled first.
    pub open spec fn report(self, planned: PlannedView) -> (PhaseView, StepView) {
        if self.json_mode {
            self.decide(planned)
        } else if planned.plan.truncated() {
            after_lines(
                report::header_lines(planned),
                goes_on(
                    PhaseView::Reporting(planned),
                    ActionView::WriteFullPlan(planned.full()),
                ),
            )
        } else {
            after_lines(report::header_lines(planned), self.detail(planned, None))
        }
    }

    /// The rest of the report, then the decision.
    pub open spec fn detail(self, planned: PlannedView, path: Option<Seq<char>>) -> (
        PhaseView,
        StepView,
    ) {
        after_lines(
            report::detail_lines(planned.plan, self.verbose, path),
            self.decide(planned),
        )
    }

    /// The plan stands: there is nothing to do, or it is only shown, or the user
    /// is asked, or it is carried out.
    pub open spec fn decide(self, planned: PlannedView) -> (PhaseView, StepView) {
        let kept = planned.plan.kept.len();
        if kept == 0 && !self.json_mode {
            ends(OutputView::Status("no flagged directories matched - nothing to do."@), 0)
        } else if kept == 0 || (self.dry_run && self.json_mode) {
            self.document(planned)
        } else if self.dry_run {
            goes_on(PhaseView::Over, ActionView::Exit(0))
        } else if self.yes {
            goes_on(PhaseView::Renewing(planned), ActionView::Execute)
        } else if !self.interactive {
            fails(
                "non-interactive session - pass -y to renew "@ + text::decimal(kept)
                    + " directories, or -n to preview."@,
                2,
            )
        } else {
            goes_on(
                PhaseView::Asking(planned),
                ActionView::Confirm("Touch mtimes on "@ + text::decimal(kept) + " directories?"@),
            )
        }
    }

    /// The plan document is printed; a long plan is spilled first.
    pub open spec fn document(self, planned: PlannedView) -> (PhaseView, StepView) {
        if planned.plan.truncated() {
            goes_on(
                PhaseView::Documenting(planned),
                ActionView::WriteFullPlan(planned.full()),
            )
        } else {
            ends(OutputView::Plan(planned.document(self.dry_run, None)), 0)
        }
    }

    /// The renewal is summed up; a long plan is spilled first.
    pub open spec fn sum_up(self, planned: PlannedView, renewal: Tally) -> (PhaseView, StepView) {
        if !self.json_mode {
            ends(OutputView::Status(done_line(planned, renewal)), exit_code(renewal))
        } else if planned.plan.kept_truncated() {
            goes_on(
                PhaseView::Summarizing(planned, renewal),
                ActionView::WriteFullPlan(planned.full()),
            )
        } else {
            ends(OutputView::Summary(planned.summary(renewal, None)), exit_code(renewal))
        }
    }

    /// Whether the event answers what the command asked for.
    pub open spec fn expects(self, phase: PhaseView, event: EventView) -> bool {
        match (phase, event) {
            (PhaseView::Start, EventView::Begin) => true,
            (PhaseView::Reading, EventView::CsvDir(is_dir, _, _)) => self.keep is Some && (is_dir
                ==> self.valid_stage()),
            (PhaseView::Reporting(_), EventView::FullPlan(_)) => true,
            (PhaseView::Documenting(_), EventView::FullPlan(_)) => true,
            (PhaseView::Summarizing(_, _), EventView::FullPlan(_)) => true,
            (PhaseView::Asking(_), EventView::Answer(_)) => true,
            (PhaseView::Renewing(_), EventView::Renewed(_)) => true,
            _ => false,
        }
    }

    /// What the command does on an event that it expects.
    pub open spec fn response(self, phase: PhaseView, event: EventView) -> (PhaseView, StepView) {
        match (phase, event) {
            (PhaseView::Start, EventView::Begin) => self.begin(),
            (PhaseView::Reading, EventView::CsvDir(is_dir, path, files)) => self.plan(
                is_dir,
                path,
                files,
            ),
            (_, EventView::FullPlan(Err(e))) => fails(e, 1),
            (PhaseView::Reporting(p), EventView::FullPlan(Ok(path))) => self.detail(p, Some(path)),
            (PhaseView::Documenting(p), EventView::FullPlan(Ok(path))) => ends(
                OutputView::Plan(p.document(self.dry_run, Some(path))),
                0,
            ),
            (PhaseView::Summarizing(p, r), EventView::FullPlan(Ok(path))) => ends(
                OutputView::Summary(p.summary(r, Some(path))),
                exit_code(r),
            ),
            (PhaseView::Asking(p), EventView::Answer(true)) => goes_on(
                PhaseView::Renewing(p),
                ActionView::Execute,
            ),
            (PhaseView::Asking(p), EventView::Answer(false)) => ends(
                OutputView::Status("aborted"@),
                1,
            ),
            (PhaseView::Renewing(p), EventView::Renewed(r)) => self.sum_up(p, r),
            _ => goes_on(phase, ActionView::Exit(2)),
        }
    }
}

/// A phase and the step that leads there.
struct Turn {
    phase: Phase,
    step: Step,
}

impl Turn {
    spec fn view(self) -> (PhaseView, StepView) {
        (self.phase.view(), self.step@)
    }
}

/// Ends the command with this output and exit code.
fn end(output: Output, code: i32) -> (turn: Turn)
    ensures
        turn.view() == ends(output@, code),
{
    let mut outputs: Vec<Output> = Vec::new();
    outputs.push(output);
    assert(output_views(outputs@) =~= seq![output@]);
    Turn { phase: Phase::Over, step: Step { outputs, action: Action::Exit(code) } }
}

/// Fails the command.
fn fail(message: &str, code: i32) -> (turn: Turn)
    ensures
        turn.view() == fails(message@, code),
{
    let mut line = "error: ".to_owned();
    line.append(message);
    end(Output::Error(line), code)
}

/// Goes on without a word.
fn go_on(phase: Phase, action: Action) -> (turn: Turn)
    ensures
        turn.view() == goes_on(phase.view(), action@),
{
    let outputs: Vec<Output> = Vec::new();
    assert(output_views(outputs@) =~= Seq::<OutputView>::empty());
    Turn { phase, step: Step { outputs, action } }
}

/// Puts status lines in front.
fn with_lines(lines: Vec<String>, turn: Turn) -> (r: Turn)
    ensures
        r.view() == after_lines(lines.deep_view(), turn.view()),
{
    let ghost statuses = lines.deep_view().map_values(
        |line: Seq<char>| OutputView::Status(line),
    );
    let mut outputs: Vec<Output> = Vec::new();
    assert(output_views(outputs@) =~= statuses.take(0));
    for line in iter: lines
        invariant
            iter.seq() == lines@,
            statuses == lines.deep_view().map_values(|line: Seq<char>| OutputView::Status(line)),
            output_views(outputs@) == statuses.take(iter.index() as int),
    {
        let ghost i = iter.index() as int;
        let ghost before = output_views(outputs@);
        let ghost view = OutputView::Status(line@);
        outputs.push(Output::Status(line));
        assert(output_views(outputs@) =~= before.push(view));
        assert(statuses[i] == view);
        assert(output_views(outputs@) =~= statuses.take(i + 1));
    }
    assert(statuses.take(lines@.len() as int) =~= statuses);
    let Turn { phase, step } = turn;
    let Step { outputs: rest, action } = step;
    let ghost all = statuses + output_views(rest@);
    let ghost front = outputs@;
    let mut rest = rest;
    outputs.append(&mut rest);
    assert(output_views(outputs@) =~= all);
    Turn { phase, step: Step { outputs, action } }
}

/// The exit code of a renewal.
fn code_of(renewal: &Renewal) -> (code: i32)
    ensures
        code == exit_code(renewal@),
{
    if renewal.failures > 0 {
        1
    } else {
        0
    }
}

/// The line that closes a renewal.
fn closing_line(planned: &Planned, renewal: &Renewal) -> (line: String)
    ensures
        line@ == done_line(planned@, renewal@),
{
    let mut line = "done ".to_owned();
    let kept = text::decimal_text(planned.plan.kept.len() as u128);
    line.append(kept.as_str());
    line.append(" flagged dirs · touched ");
    let files = text::decimal_text(renewal.files as u128);
    line.append(files.as_str());
    line.append(" files + ");
    let dirs = text::decimal_text(renewal.dirs as u128);
    line.append(dirs.as_str());
    line.append(" dirs");
    let ghost before = line@;
    if renewal.failures > 0 {
        let mut failed = " · ".to_owned();
        let failures = text::decimal_text(renewal.failures as u128);
        failed.append(failures.as_str());
        failed.append(" failed");
        line.append(failed.as_str());
    } else {
        assert(before + Seq::<char>::empty() =~= before);
    }
    line
}

impl<'a> Session<'a> {
    /// What the command was asked to do.
    pub closed spec fn settings(self) -> Settings {
        self.opts.settings(self.out)
    }

    /// Where the command is.
    pub closed spec fn phase(self) -> PhaseView {
        self.phase.view()
    }

    /// A run of the command that has not started.
    pub fn new(opts: &'a KeepOptions<'a>, out: Out) -> (r: Session<'a>)
        ensures
            r.settings() == opts.settings(out),
            r.phase() == PhaseView::Start,
    {
        Session { opts, out, phase: Phase::Start }
    }

    /// The kept directories that are being renewed.
    pub fn plan(&self) -> (r: Option<&plan::Plan>)
        ensures
            match self.phase() {
                PhaseView::Renewing(p) => r is Some && r->0@ == p.plan,
                _ => r is None,
            },
    {
        match &self.phase {
            Phase::Renewing(p) => Some(&p.plan),
            _ => None,
        }
    }

    /// Refuses options that contradict each other, and a configuration without
    /// rules.
    fn begin(&self) -> (turn: Turn)
        ensures
            turn.view() == self.settings().begin(),
    {
        if self.opts.yes && self.opts.dry_run {
            fail("--yes and --dry-run are mutually exclusive", 2)
        } else if self.opts.config_keep.is_none() {
            fail("no [keep] block in config. add one with `solx config edit`.", 2)
        } else {
            go_on(Phase::Reading, Action::ReadCsvDir)
        }
    }

    /// Plans, and reports the plan.
    fn make_plan(&self, is_dir: bool, dir: CsvDir) -> (turn: Turn)
        requires
            self.settings().keep is Some,
            is_dir ==> self.settings().valid_stage(),
        ensures
            turn.view() == self.settings().plan(is_dir, dir.path@, dir.files@),
    {
        if !is_dir {
            let mut message = "--csv-dir ".to_owned();
            message.append(dir.path.as_str());
            message.append(" is not a directory (Sol drops the warning CSVs in $HOME).");
            return fail(message.as_str(), 2);
        }
        let stages = stage::select_stages(self.opts.stage.as_str());
        proof {
            stage::selected_stages_are_valid(self.settings().stage);
            assert forall|i: int| 0 <= i < stages@.len() implies stage::is_stage(
                (#[trigger] stages@[i])@,
            ) by {
                assert(stages.deep_view()[i] == stages@[i]@);
            }
        }
        match self.opts.config_keep {
            Some(keep) => match plan::build_plan(&dir, stages.as_slice(), keep) {
                Err(e) => fail(e.as_str(), 1),
                Ok(plan) => self.report_plan(Planned { csv_dir: dir.path, stages, plan }),
            },
            None => fail("no [keep] block in config. add one with `solx config edit`.", 2),
        }
    }

    /// Reports the plan to a human, and spills a long one.
    fn report_plan(&self, planned: Planned) -> (turn: Turn)
        ensures
            turn.view() == self.settings().report(planned@),
    {
        if self.out.json_mode {
            self.decide(planned)
        } else {
            let lines = report::report_header(&planned);
            if document::is_truncated(&planned.plan) {
                let full = document::dump_full_plan(&planned);
                with_lines(lines, go_on(Phase::Reporting(planned), Action::WriteFullPlan(full)))
            } else {
                with_lines(lines, self.detail(planned, None))
            }
        }
    }

    /// Closes the report, and decides.
    fn detail(&self, planned: Planned, path: Option<&str>) -> (turn: Turn)
        ensures
            turn.view() == self.settings().detail(
                planned@,
                match path {
                    Some(p) => Some(p@),
                    None => None,
                },
            ),
    {
        let lines = report::report_details(&planned, self.opts.verbose, path);
        with_lines(lines, self.decide(planned))
    }

    /// Decides what becomes of the plan.
    fn decide(&self, planned: Planned) -> (turn: Turn)
        ensures
            turn.view() == self.settings().decide(planned@),
    {
        let kept: usize = planned.plan.kept.len();
        if kept == 0 {
            if self.out.json_mode {
                return self.show_document(planned);
            }
            return end(
                Output::Status("no flagged directories matched - nothing to do.".to_owned()),
                0,
            );
        }
        if self.opts.dry_run {
            if self.out.json_mode {
                return self.show_document(planned);
            }
            return go_on(Phase::Over, Action::Exit(0));
        }
        if self.opts.yes {
            return go_on(Phase::Renewing(planned), Action::Execute);
        }
        let count = text::decimal_text(kept as u128);
        if !self.out.interactive {
            let mut message = "non-interactive session - pass -y to renew ".to_owned();
            message.append(count.as_str());
            message.append(" directories, or -n to preview.");
            return fail(message.as_str(), 2);
        }
        let mut question = "Touch mtimes on ".to_owned();
        question.append(count.as_str());
        question.append(" directories?");
        go_on(Phase::Asking(planned), Action::Confirm(question))
    }

    /// Shows the plan document, and spills a long plan.
    fn show_document(&self, planned: Planned) -> (turn: Turn)
        ensures
            turn.view() == self.settings().document(planned@),
    {
        if document::is_truncated(&planned.plan) {
            let full = document::dump_full_plan(&planned);
            go_on(Phase::Documenting(planned), Action::WriteFullPlan(full))
        } else {
            end(Output::Plan(document::plan_json(&planned, self.opts.dry_run, None)), 0)
        }
    }

    /// Sums a renewal up, and spills a long plan.
    fn sum_up(&self, planned: Planned, renewal: Renewal) -> (turn: Turn)
        ensures
            turn.view() == self.settings().sum_up(planned@, renewal@),
    {
        if !self.out.json_mode {
            end(Output::Status(closing_line(&planned, &renewal)), code_of(&renewal))
        } else if planned.plan.kept.len() > document::JSON_LIST_CAP {
            let full = document::dump_full_plan(&planned);
            go_on(Phase::Summarizing(planned, renewal), Action::WriteFullPlan(full))
        } else {
            end(
                Output::Summary(document::summary_json(&planned, &renewal, None)),
                code_of(&renewal),
            )
        }
    }
}

/// Takes in an event: says what to print and what to do next.
pub fn cmd_keep(session: &mut Session<'_>, event: Event) -> (step: Step)
    requires
        old(session).settings().expects(old(session).phase(), event@),
    ensures
        final(session).settings() == old(session).settings(),
        (final(session).phase(), step@) == old(session).settings().response(
            old(session).phase(),
            event@,
        ),
{
    let mut phase = Phase::Over;
    std::mem::swap(&mut phase, &mut session.phase);
    let turn = match (phase, event) {
        (Phase::Start, Event::Begin) => session.begin(),
        (Phase::Reading, Event::CsvDir(is_dir, dir)) => session.make_plan(is_dir, dir),
        (Phase::Reporting(p), Event::FullPlan(Ok(path))) => session.detail(p, Some(path.as_str())),
        (Phase::Documenting(p), Event::FullPlan(Ok(path))) => end(
            Output::Plan(document::plan_json(&p, session.opts.dry_run, Some(path))),
            0,
        ),
        (Phase::Summarizing(p, r), Event::FullPlan(Ok(path))) => end(
            Output::Summary(document::summary_json(&p, &r, Some(path))),
            code_of(&r),
        ),
        (_, Event::FullPlan(Err(e))) => fail(e.as_str(), 1),
        (Phase::Asking(p), Event::Answer(yes)) => {
            if yes {
                go_on(Phase::Renewing(p), Action::Execute)
            } else {
                end(Output::Status("aborted".to_owned()), 1)
            }
        },
        (Phase::Renewing(p), Event::Renewed(r)) => session.sum_up(p, r),
        (other, _) => go_on(other, Action::Exit(2)),
    };
    session.phase = turn.phase;
    turn.step
}

/// Outputs are shown one by one, in their order, each as it is.
pub proof fn outputs_are_shown_as_they_are(outputs: Seq<Output>, i: int)
    requires
        0 <= i < outputs.len(),
    ensures
        output_views(outputs).len() == outputs.len(),
        match outputs[i] {
            Output::Error(s) => output_views(outputs)[i] == OutputView::Error(s@),
            Output::Status(s) => output_views(outputs)[i] == OutputView::Status(s@),
            Output::Plan(doc) => output_views(outputs)[i] == OutputView::Plan(doc@),
            Output::Summary(doc) => output_views(outputs)[i] == OutputView::Summary(doc@),
        },
{
}

/// A step is shown with all of its outputs and its action.
pub proof fn steps_are_shown_as_they_are(step: Step)
    ensures
        step@.outputs == output_views(step.outputs@),
        match step.action {
            Action::Exit(code) => step@.action == ActionView::Exit(code),
            Action::ReadCsvDir => step@.action == ActionView::ReadCsvDir,
            Action::WriteFullPlan(doc) => step@.action == ActionView::WriteFullPlan(doc@),
            Action::Confirm(s) => step@.action == ActionView::Confirm(s@),
            Action::Execute => step@.action == ActionView::Execute,
        },
{
}

/// An event is seen with all that it reports.
pub proof fn events_are_seen_as_they_are(event: Event)
    ensures
        match event {
            Event::Begin => event@ == EventView::Begin,
            Event::CsvDir(is_dir, dir) => event@ == EventView::CsvDir(
                is_dir,
                dir.path@,
                dir.files@,
            ),
            Event::FullPlan(Ok(path)) => event@ == EventView::FullPlan(Ok(path@)),
            Event::FullPlan(Err(e)) => event@ == EventView::FullPlan(Err(e@)),
            Event::Answer(yes) => event@ == EventView::Answer(yes),
            Event::Renewed(r) => event@ is Renewed && event@->Renewed_0.files == r.files
                && event@->Renewed_0.dirs == r.dirs && event@->Renewed_0.failures == r.failures,
        },
{
}

} // verus!
