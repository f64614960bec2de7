//! The plan: which flagged directories to renew, and which to leave.
use crate::flagged;
use crate::flagged::CsvFile;
use crate::rules::KeepRules;
use crate::stage;
use crate::text;
use vstd::hash_set::StringHashSet;
use vstd::prelude::*;
use vstd::string::*;

verus! {

/// The directory that Sol drops its warning CSVs in, as it was read.
#[derive(Debug)]
pub struct CsvDir {
    /// The directory's path, as it is shown.
    pub path: String,
    /// The CSVs that are there.
    pub files: Vec<CsvFile>,
}

/// The directories that `solx keep` would touch (`kept`) and those that it
/// filters out (`skipped`), each tagged with the warning stage that flagged it.
#[derive(Debug, Clone)]
pub struct Plan {
    pub kept: Vec<(String, String)>,
    pub skipped: Vec<(String, String)>,
}

/// What a `Plan` holds: pairs of a stage and a directory.
#[verifier::ext_equal]
pub struct PlanView {
    pub kept: Seq<(Seq<char>, Seq<char>)>,
    pub skipped: Seq<(Seq<char>, Seq<char>)>,
}

impl View for Plan {
    type V = PlanView;

    open spec fn view(&self) -> PlanView {
        PlanView { kept: self.kept.deep_view(), skipped: self.skipped.deep_view() }
    }
}

impl Default for Plan {
    fn default() -> (r: Self)
        ensures
            r.kept@.len() == 0,
            r.skipped@.len() == 0,
    {
        Plan { kept: Vec::new(), skipped: Vec::new() }
    }
}

/// The first file of that name.
pub open spec fn file_named(files: Seq<CsvFile>, name: Seq<char>) -> Option<CsvFile>
    decreases files.len(),
{
    if files.len() == 0 {
        None
    } else if files.first().name@ == name {
        Some(files.first())
    } else {
        file_named(files.drop_first(), name)
    }
}

/// The directories, each tagged with `stage`.
pub open spec fn tagged(stage: Seq<char>, dirs: Seq<Seq<char>>) -> Seq<(Seq<char>, Seq<char>)> {
    dirs.map_values(|d: Seq<char>| (stage, d))
}

/// Everything that the CSVs of `stages` flag, stage by stage, or the error of
/// the first of them that cannot be read.
pub open spec fn flagged_by(files: Seq<CsvFile>, stages: Seq<Seq<char>>) -> Result<
    Seq<(Seq<char>, Seq<char>)>,
    Seq<char>,
>
    decreases stages.len(),
{
    if stages.len() == 0 {
        Ok(Seq::empty())
    } else {
        let stage = stages.last();
        match (
            flagged_by(files, stages.drop_last()),
            flagged::flagged_in(file_named(files, stage::csv_of(stage))),
        ) {
            (Err(e), _) => Err(e),
            (Ok(_), Err(e)) => Err(e),
            (Ok(rows), Ok(dirs)) => Ok(rows + tagged(stage, dirs)),
        }
    }
}

/// Whether a row flags `dir`.
pub open spec fn flags(rows: Seq<(Seq<char>, Seq<char>)>, dir: Seq<char>) -> bool {
    exists|i: int| 0 <= i < rows.len() && (#[trigger] rows[i]).1 == dir
}

/// The rows without those whose directory an earlier row flags.
pub open spec fn first_flags(rows: Seq<(Seq<char>, Seq<char>)>) -> Seq<(Seq<char>, Seq<char>)>
    decreases rows.len(),
{
    if rows.len() == 0 {
        Seq::empty()
    } else {
        let before = first_flags(rows.drop_last());
        if flags(rows.drop_last(), rows.last().1) {
            before
        } else {
            before.push(rows.last())
        }
    }
}

/// The rows whose verdict is `verdict`.
pub open spec fn with_verdict(
    rows: Seq<(Seq<char>, Seq<char>)>,
    verdicts: Seq<bool>,
    verdict: bool,
) -> Seq<(Seq<char>, Seq<char>)>
    decreases rows.len(),
{
    if rows.len() == 0 {
        Seq::empty()
    } else {
        let n = rows.len() - 1;
        let before = with_verdict(rows.drop_last(), verdicts.take(n), verdict);
        if verdicts[n] == verdict {
            before.push(rows[n])
        } else {
            before
        }
    }
}

/// The rows split by their verdicts.
pub open spec fn split(rows: Seq<(Seq<char>, Seq<char>)>, verdicts: Seq<bool>) -> PlanView {
    PlanView {
        kept: with_verdict(rows, verdicts, true),
        skipped: with_verdict(rows, verdicts, false),
    }
}

/// What the rules say of each row's directory.
pub open spec fn verdicts_of(keep: KeepRules, rows: Seq<(Seq<char>, Seq<char>)>) -> Seq<bool> {
    rows.map_values(|row: (Seq<char>, Seq<char>)| keep.keeps(row.1))
}

/// The plan for what the CSVs of `stages` flag.
pub open spec fn plan_for(files: Seq<CsvFile>, stages: Seq<Seq<char>>, keep: KeepRules) -> Result<
    PlanView,
    Seq<char>,
> {
    match flagged_by(files, stages) {
        Err(e) => Err(e),
        Ok(rows) => Ok(split(first_flags(rows), verdicts_of(keep, first_flags(rows)))),
    }
}

/// Finds the file of that name.
pub fn find_file<'a>(files: &'a [CsvFile], name: &str) -> (r: Option<&'a CsvFile>)
    ensures
        match r {
            Some(f) => file_named(files@, name@) == Some(*f),
            None => file_named(files@, name@) is None,
        },
{
    let ghost all = files@;
    let mut i: usize = 0;
    assert(all.skip(0) =~= all);
    while i < files.len()
        invariant
            all == files@,
            i <= all.len(),
            file_named(all, name@) == file_named(all.skip(i as int), name@),
        decreases all.len() - i,
    {
        if text::same_text(files[i].name.as_str(), name) {
            return Some(&files[i]);
        }
        assert(all.skip(i as int).drop_first() =~= all.skip(i + 1));
        i = i + 1;
    }
    None
}

/// Once a stage's CSV cannot be read, further stages do not matter.
proof fn lemma_first_stage_error_stays(files: Seq<CsvFile>, stages: Seq<Seq<char>>, n: int)
    requires
        0 <= n <= stages.len(),
        flagged_by(files, stages.take(n)) is Err,
    ensures
        flagged_by(files, stages) == flagged_by(files, stages.take(n)),
    decreases stages.len() - n,
{
    if n < stages.len() {
        assert(stages.take(n + 1).drop_last() =~= stages.take(n));
        lemma_first_stage_error_stays(files, stages, n + 1);
    } else {
        assert(stages.take(n) =~= stages);
    }
}

/// Everything that the CSVs of `stages` flag, each directory tagged with its
/// stage.
pub fn flagged_rows(files: &[CsvFile], stages: &[String]) -> (r: Result<
    Vec<(String, String)>,
    String,
>)
    requires
        forall|i: int| 0 <= i < stages@.len() ==> stage::is_stage((#[trigger] stages@[i])@),
    ensures
        match r {
            Ok(rows) => flagged_by(files@, stages.deep_view()) == Ok::<
                Seq<(Seq<char>, Seq<char>)>,
                Seq<char>,
            >(rows.deep_view()),
            Err(e) => flagged_by(files@, stages.deep_view()) == Err::<
                Seq<(Seq<char>, Seq<char>)>,
                Seq<char>,
            >(e@),
        },
{
    let ghost all = stages.deep_view();
    let mut rows: Vec<(String, String)> = Vec::new();
    let mut i: usize = 0;
    assert(rows.deep_view() =~= Seq::<(Seq<char>, Seq<char>)>::empty());
    while i < stages.len()
        invariant
            all == stages.deep_view(),
            i <= all.len(),
            forall|j: int| 0 <= j < stages@.len() ==> stage::is_stage((#[trigger] stages@[j])@),
            flagged_by(files@, all.take(i as int)) == Ok::<
                Seq<(Seq<char>, Seq<char>)>,
                Seq<char>,
            >(rows.deep_view()),
        decreases all.len() - i,
    {
        assert(all.take(i + 1).drop_last() =~= all.take(i as int));
        assert(all.take(i + 1).last() == stages@[i as int]@);
        let name = stage::stage_file(stages[i].as_str());
        match flagged::load_csv_dirs(find_file(files, name)) {
            Err(e) => {
                proof {
                    lemma_first_stage_error_stays(files@, all, i + 1);
                }
                return Err(e);
            },
            Ok(dirs) => {
                let ghost before = rows.deep_view();
                let ghost found = dirs.deep_view();
                let mut j: usize = 0;
                assert(rows.deep_view() =~= before + tagged(stages@[i as int]@, found.take(0)));
                while j < dirs.len()
                    invariant
                        i < stages@.len(),
                        found == dirs.deep_view(),
                        j <= dirs@.len(),
                        rows.deep_view() == before + tagged(
                            stages@[i as int]@,
                            found.take(j as int),
                        ),
                    decreases dirs@.len() - j,
                {
                    let ghost so_far = rows.deep_view();
                    rows.push((stages[i].clone(), dirs[j].clone()));
                    j = j + 1;
                    assert(rows.deep_view() =~= so_far.push((stages@[i as int]@, found[j - 1])));
                    assert(rows.deep_view() =~= before + tagged(
                        stages@[i as int]@,
                        found.take(j as int),
                    ));
                }
                assert(found.take(found.len() as int) =~= found);
            },
        }
        i = i + 1;
    }
    assert(all.take(all.len() as int) =~= all);
    Ok(rows)
}

/// Drops every row whose directory an earlier row flags.
pub fn dedupe(rows: Vec<(String, String)>) -> (r: Vec<(String, String)>)
    ensures
        r.deep_view() == first_flags(rows.deep_view()),
{
    let ghost all = rows.deep_view();
    let mut seen = StringHashSet::new();
    let mut unique: Vec<(String, String)> = Vec::new();
    assert(unique.deep_view() =~= first_flags(all.take(0)));
    for row in iter: rows
        invariant
            all == rows.deep_view(),
            iter.seq() == rows@,
            unique.deep_view() == first_flags(all.take(iter.index() as int)),
            forall|d: Seq<char>|
                seen@.contains(d) <==> #[trigger] flags(all.take(iter.index() as int), d),
    {
        let ghost i = iter.index() as int;
        let ghost before = unique.deep_view();
        proof {
            let next = all.take(i + 1);
            assert(next.drop_last() =~= all.take(i));
            assert(next.last() == (row.0@, row.1@));
            assert forall|d: Seq<char>| #[trigger] flags(next, d) <==> (flags(all.take(i), d) || d
                == row.1@) by {
                if flags(all.take(i), d) {
                    let k = choose|k: int|
                        0 <= k < all.take(i).len() && (#[trigger] all.take(i)[k]).1 == d;
                    assert(next[k].1 == d);
                }
                if d == row.1@ {
                    assert(next[i].1 == d);
                }
                if flags(next, d) {
                    let k = choose|k: int| 0 <= k < next.len() && (#[trigger] next[k]).1 == d;
                    if k < i {
                        assert(all.take(i)[k].1 == d);
                    }
                }
            }
        }
        if seen.insert(row.1.clone()) {
            let ghost pair = (row.0@, row.1@);
            unique.push(row);
            assert(unique.deep_view() =~= before.push(pair));
        }
    }
    assert(all.take(all.len() as int) =~= all);
    unique
}

/// Splits the rows by their verdicts: kept where it is `true`, else skipped.
pub fn split_rows(rows: Vec<(String, String)>, verdicts: &[bool]) -> (plan: Plan)
    requires
        rows@.len() == verdicts@.len(),
    ensures
        plan@ == split(rows.deep_view(), verdicts@),
{
    let ghost all = rows.deep_view();
    let mut plan = Plan::default();
    let mut i: usize = 0;
    assert(plan@ =~= split(all.take(0), verdicts@.take(0)));
    for row in iter: rows
        invariant
            all == rows.deep_view(),
            iter.seq() == rows@,
            i == iter.index(),
            rows@.len() == verdicts@.len(),
            plan@ == split(all.take(i as int), verdicts@.take(i as int)),
    {
        let ghost kept = plan.kept.deep_view();
        let ghost skipped = plan.skipped.deep_view();
        proof {
            assert(all.take(i + 1).drop_last() =~= all.take(i as int));
            assert(verdicts@.take(i + 1).take(i as int) =~= verdicts@.take(i as int));
        }
        let ghost pair = (row.0@, row.1@);
        if verdicts[i] {
            plan.kept.push(row);
            assert(plan.kept.deep_view() =~= kept.push(pair));
        } else {
            plan.skipped.push(row);
            assert(plan.skipped.deep_view() =~= skipped.push(pair));
        }
        i = i + 1;
    }
    assert(all.take(all.len() as int) =~= all);
    assert(verdicts@.take(verdicts@.len() as int) =~= verdicts@);
    plan
}

/// Walks the chosen stages' CSVs and splits what they flag into kept and skipped.
pub fn build_plan(csv_dir: &CsvDir, stages: &[String], keep: &KeepRules) -> (r: Result<
    Plan,
    String,
>)
    requires
        forall|i: int| 0 <= i < stages@.len() ==> stage::is_stage((#[trigger] stages@[i])@),
    ensures
        match r {
            Ok(plan) => plan_for(csv_dir.files@, stages.deep_view(), *keep) == Ok::<
                PlanView,
                Seq<char>,
            >(plan@),
            Err(e) => plan_for(csv_dir.files@, stages.deep_view(), *keep) == Err::<
                PlanView,
                Seq<char>,
            >(e@),
        },
{
    match flagged_rows(csv_dir.files.as_slice(), stages) {
        Err(e) => Err(e),
        Ok(rows) => {
            let unique = dedupe(rows);
            let ghost all = unique.deep_view();
            let mut verdicts: Vec<bool> = Vec::new();
            let mut i: usize = 0;
            while i < unique.len()
                invariant
                    all == unique.deep_view(),
                    i <= all.len(),
                    verdicts@ == verdicts_of(*keep, all).take(i as int),
                decreases all.len() - i,
            {
                verdicts.push(keep.matches(unique[i].1.as_str()));
                i = i + 1;
                assert(verdicts@ =~= verdicts_of(*keep, all).take(i as int));
            }
            assert(verdicts@ =~= verdicts_of(*keep, all));
            Ok(split_rows(unique, verdicts.as_slice()))
        },
    }
}

/// No two rows flag the same directory.
pub open spec fn distinct_dirs(rows: Seq<(Seq<char>, Seq<char>)>) -> bool {
    forall|i: int, j: int|
        0 <= i < j < rows.len() ==> (#[trigger] rows[i]).1 != (#[trigger] rows[j]).1
}

/// Whether `row` is the first of `rows` to flag its directory.
pub open spec fn is_first_flag(
    rows: Seq<(Seq<char>, Seq<char>)>,
    row: (Seq<char>, Seq<char>),
) -> bool {
    exists|i: int|
        0 <= i < rows.len() && #[trigger] rows[i] == row && !flags(rows.take(i), row.1)
}

/// A directory that several rows flag is taken up once, under the row that comes
/// first: the most urgent stage wins.
pub proof fn first_stage_wins(rows: Seq<(Seq<char>, Seq<char>)>)
    ensures
        distinct_dirs(first_flags(rows)),
        forall|d: Seq<char>| #[trigger] flags(first_flags(rows), d) <==> flags(rows, d),
        forall|k: int|
            0 <= k < first_flags(rows).len() ==> is_first_flag(
                rows,
                #[trigger] first_flags(rows)[k],
            ),
    decreases rows.len(),
{
    if rows.len() > 0 {
        let init = rows.drop_last();
        let before = first_flags(init);
        let all = first_flags(rows);
        first_stage_wins(init);
        assert forall|d: Seq<char>| #[trigger] flags(rows, d) <==> (flags(init, d) || d
            == rows.last().1) by {
            if flags(init, d) {
                let i = choose|i: int| 0 <= i < init.len() && (#[trigger] init[i]).1 == d;
                assert(rows[i].1 == d);
            }
            if d == rows.last().1 {
                assert(rows[rows.len() - 1].1 == d);
            }
            if flags(rows, d) {
                let i = choose|i: int| 0 <= i < rows.len() && (#[trigger] rows[i]).1 == d;
                if i < init.len() {
                    assert(init[i].1 == d);
                }
            }
        }
        assert forall|d: Seq<char>| #[trigger] flags(all, d) <==> flags(rows, d) by {
            assert(flags(before, d) <==> flags(init, d));
            if flags(before, d) {
                let i = choose|i: int| 0 <= i < before.len() && (#[trigger] before[i]).1 == d;
                assert(all[i].1 == d);
            }
            if d == rows.last().1 && !flags(init, d) {
                assert(all[all.len() - 1].1 == d);
            }
            if flags(all, d) {
                let i = choose|i: int| 0 <= i < all.len() && (#[trigger] all[i]).1 == d;
                if i < before.len() {
                    assert(before[i].1 == d);
                }
            }
        }
        assert forall|i: int, j: int| 0 <= i < j < all.len() implies (#[trigger] all[i]).1 != (
        #[trigger] all[j]).1 by {
            if j == before.len() {
                assert(before[i].1 == all[i].1);
                assert(flags(before, all[i].1));
                assert(flags(init, all[i].1));
            } else {
                assert(before[i].1 != before[j].1);
            }
        }
        assert forall|k: int| 0 <= k < all.len() implies is_first_flag(
            rows,
            #[trigger] all[k],
        ) by {
            if k < before.len() {
                assert(is_first_flag(init, before[k]));
                let i = choose|i: int|
                    0 <= i < init.len() && #[trigger] init[i] == before[k] && !flags(
                        init.take(i),
                        before[k].1,
                    );
                assert(rows[i] == all[k]);
                assert(rows.take(i) =~= init.take(i));
            } else {
                let i = rows.len() - 1;
                assert(rows[i] == all[k]);
                assert(rows.take(i) =~= init);
            }
        }
    }
}

/// Whether `row` stands among `rows` with the verdict `v`.
pub open spec fn has_verdict(
    rows: Seq<(Seq<char>, Seq<char>)>,
    verdicts: Seq<bool>,
    v: bool,
    row: (Seq<char>, Seq<char>),
) -> bool {
    exists|i: int| 0 <= i < rows.len() && verdicts[i] == v && #[trigger] rows[i] == row
}

/// Every row goes to the list that its verdict names, and nothing else does.
pub proof fn split_follows_verdicts(rows: Seq<(Seq<char>, Seq<char>)>, verdicts: Seq<bool>, v: bool)
    requires
        rows.len() == verdicts.len(),
    ensures
        forall|i: int|
            0 <= i < rows.len() && verdicts[i] == v ==> with_verdict(rows, verdicts, v).contains(
                #[trigger] rows[i],
            ),
        forall|k: int|
            0 <= k < with_verdict(rows, verdicts, v).len() ==> has_verdict(
                rows,
                verdicts,
                v,
                #[trigger] with_verdict(rows, verdicts, v)[k],
            ),
    decreases rows.len(),
{
    if rows.len() > 0 {
        let n = rows.len() - 1;
        let init = rows.drop_last();
        let before = with_verdict(init, verdicts.take(n), v);
        let all = with_verdict(rows, verdicts, v);
        split_follows_verdicts(init, verdicts.take(n), v);
        assert forall|i: int| 0 <= i < rows.len() && verdicts[i] == v implies all.contains(
            #[trigger] rows[i],
        ) by {
            if i < n {
                assert(init[i] == rows[i] && verdicts.take(n)[i] == v);
                assert(before.contains(init[i]));
                let k = choose|k: int| 0 <= k < before.len() && before[k] == init[i];
                assert(all[k] == rows[i]);
            } else {
                assert(all[all.len() - 1] == rows[i]);
            }
        }
        assert forall|k: int| 0 <= k < all.len() implies has_verdict(
            rows,
            verdicts,
            v,
            #[trigger] all[k],
        ) by {
            if k < before.len() {
                assert(has_verdict(init, verdicts.take(n), v, before[k]));
                let i = choose|i: int|
                    0 <= i < init.len() && verdicts.take(n)[i] == v && #[trigger] init[i]
                        == before[k];
                assert(rows[i] == all[k] && verdicts[i] == v);
            } else {
                assert(rows[n] == all[k]);
            }
        }
    }
}

/// Every row goes to exactly one of the two lists.
pub proof fn split_loses_nothing(rows: Seq<(Seq<char>, Seq<char>)>, verdicts: Seq<bool>)
    requires
        rows.len() == verdicts.len(),
    ensures
        split(rows, verdicts).kept.len() + split(rows, verdicts).skipped.len() == rows.len(),
    decreases rows.len(),
{
    if rows.len() > 0 {
        split_loses_nothing(rows.drop_last(), verdicts.take(rows.len() - 1));
    }
}

/// A list taken out of rows with distinct directories has distinct directories.
proof fn lemma_with_verdict_distinct(
    rows: Seq<(Seq<char>, Seq<char>)>,
    verdicts: Seq<bool>,
    v: bool,
)
    requires
        rows.len() == verdicts.len(),
        distinct_dirs(rows),
    ensures
        distinct_dirs(with_verdict(rows, verdicts, v)),
    decreases rows.len(),
{
    if rows.len() > 0 {
        let n = rows.len() - 1;
        let init = rows.drop_last();
        let before = with_verdict(init, verdicts.take(n), v);
        let all = with_verdict(rows, verdicts, v);
        assert forall|i: int, j: int| 0 <= i < j < init.len() implies (#[trigger] init[i]).1 != (
        #[trigger] init[j]).1 by {
            assert(rows[i].1 != rows[j].1);
        }
        lemma_with_verdict_distinct(init, verdicts.take(n), v);
        split_follows_verdicts(init, verdicts.take(n), v);
        assert forall|i: int, j: int| 0 <= i < j < all.len() implies (#[trigger] all[i]).1 != (
        #[trigger] all[j]).1 by {
            assert(all[i] == before[i]);
            if j == before.len() {
                assert(has_verdict(init, verdicts.take(n), v, before[i]));
                let k = choose|k: int|
                    0 <= k < init.len() && verdicts.take(n)[k] == v && #[trigger] init[k]
                        == before[i];
                assert(rows[k].1 != rows[n].1);
            } else {
                assert(before[i].1 != before[j].1);
            }
        }
    }
}

/// The CSV of one of the stages flags the row's directory, under that stage.
pub open spec fn flagged_under(
    files: Seq<CsvFile>,
    stages: Seq<Seq<char>>,
    row: (Seq<char>, Seq<char>),
) -> bool {
    &&& stages.contains(row.0)
    &&& flagged::flagged_in(file_named(files, stage::csv_of(row.0))) matches Ok(dirs)
    &&& dirs.contains(row.1)
}

/// Every row stands in the CSV of its stage.
proof fn lemma_rows_are_flagged(files: Seq<CsvFile>, stages: Seq<Seq<char>>)
    requires
        flagged_by(files, stages) is Ok,
    ensures
        forall|i: int|
            0 <= i < flagged_by(files, stages)->Ok_0.len() ==> flagged_under(
                files,
                stages,
                #[trigger] flagged_by(files, stages)->Ok_0[i],
            ),
    decreases stages.len(),
{
    if stages.len() > 0 {
        let init = stages.drop_last();
        let stage = stages.last();
        let before = flagged_by(files, init)->Ok_0;
        let dirs = flagged::flagged_in(file_named(files, stage::csv_of(stage)))->Ok_0;
        let rows = flagged_by(files, stages)->Ok_0;
        lemma_rows_are_flagged(files, init);
        assert forall|i: int| 0 <= i < rows.len() implies flagged_under(
            files,
            stages,
            #[trigger] rows[i],
        ) by {
            if i < before.len() {
                assert(flagged_under(files, init, before[i]));
                assert(rows[i] == before[i]);
                let k = choose|k: int| 0 <= k < init.len() && init[k] == rows[i].0;
                assert(stages[k] == rows[i].0);
            } else {
                assert(rows[i] == (stage, dirs[i - before.len()]));
                assert(stages[stages.len() - 1] == stage);
            }
        }
    }
}

/// Only what Sol has flagged and the rules keep is renewed; what the rules do not
/// keep is skipped; and no directory is planned twice.
pub proof fn plan_is_sound(files: Seq<CsvFile>, stages: Seq<Seq<char>>, keep: KeepRules)
    requires
        plan_for(files, stages, keep) is Ok,
    ensures
        ({
            let plan = plan_for(files, stages, keep)->Ok_0;
            &&& forall|k: int|
                0 <= k < plan.kept.len() ==> flagged_under(files, stages, #[trigger] plan.kept[k])
                    && keep.keeps(plan.kept[k].1)
            &&& forall|k: int|
                0 <= k < plan.skipped.len() ==> flagged_under(
                    files,
                    stages,
                    #[trigger] plan.skipped[k],
                ) && !keep.keeps(plan.skipped[k].1)
            &&& distinct_dirs(plan.kept)
            &&& distinct_dirs(plan.skipped)
        }),
{
    let rows = flagged_by(files, stages)->Ok_0;
    let unique = first_flags(rows);
    let verdicts = verdicts_of(keep, unique);
    lemma_rows_are_flagged(files, stages);
    first_stage_wins(rows);
    assert forall|i: int| 0 <= i < unique.len() implies flagged_under(
        files,
        stages,
        #[trigger] unique[i],
    ) by {
        assert(is_first_flag(rows, unique[i]));
    }
    split_follows_verdicts(unique, verdicts, true);
    split_follows_verdicts(unique, verdicts, false);
    lemma_with_verdict_distinct(unique, verdicts, true);
    lemma_with_verdict_distinct(unique, verdicts, false);
}

/// Every directory that a chosen stage flags is planned: kept where the rules
/// keep it, else skipped.
pub proof fn plan_is_complete(
    files: Seq<CsvFile>,
    stages: Seq<Seq<char>>,
    keep: KeepRules,
    dir: Seq<char>,
)
    requires
        plan_for(files, stages, keep) is Ok,
        flags(flagged_by(files, stages)->Ok_0, dir),
    ensures
        keep.keeps(dir) ==> flags(plan_for(files, stages, keep)->Ok_0.kept, dir),
        !keep.keeps(dir) ==> flags(plan_for(files, stages, keep)->Ok_0.skipped, dir),
{
    let rows = flagged_by(files, stages)->Ok_0;
    let unique = first_flags(rows);
    let verdicts = verdicts_of(keep, unique);
    let v = keep.keeps(dir);
    first_stage_wins(rows);
    assert(flags(unique, dir));
    let i = choose|i: int| 0 <= i < unique.len() && (#[trigger] unique[i]).1 == dir;
    split_follows_verdicts(unique, verdicts, v);
    let list = with_verdict(unique, verdicts, v);
    assert(verdicts[i] == v);
    assert(list.contains(unique[i]));
    let k = choose|k: int| 0 <= k < list.len() && list[k] == unique[i];
    assert(list[k].1 == dir);
}

/// Planning fails exactly where the CSV of one of the stages cannot be read.
pub proof fn plan_fails_on_unreadable_csv(
    files: Seq<CsvFile>,
    stages: Seq<Seq<char>>,
    keep: KeepRules,
)
    ensures
        plan_for(files, stages, keep) is Err <==> exists|i: int|
            0 <= i < stages.len() && flagged::flagged_in(
                file_named(files, stage::csv_of(#[trigger] stages[i])),
            ) is Err,
    decreases stages.len(),
{
    if stages.len() > 0 {
        let init = stages.drop_last();
        plan_fails_on_unreadable_csv(files, init, keep);
        if plan_for(files, init, keep) is Err {
            let i = choose|i: int|
                0 <= i < init.len() && flagged::flagged_in(
                    file_named(files, stage::csv_of(#[trigger] init[i])),
                ) is Err;
            assert(stages[i] == init[i]);
        }
        assert(stages[stages.len() - 1] == stages.last());
        if exists|i: int|
            0 <= i < stages.len() && flagged::flagged_in(
                file_named(files, stage::csv_of(#[trigger] stages[i])),
            ) is Err {
            let i = choose|i: int|
                0 <= i < stages.len() && flagged::flagged_in(
                    file_named(files, stage::csv_of(#[trigger] stages[i])),
                ) is Err;
            if i < init.len() {
                assert(init[i] == stages[i]);
            }
        }
    }
}

/// A file is found by its name: the first that bears it, and none only where none
/// does.
pub proof fn files_are_found_by_name(files: Seq<CsvFile>, name: Seq<char>)
    ensures
        match file_named(files, name) {
            None => forall|i: int| 0 <= i < files.len() ==> (#[trigger] files[i]).name@ != name,
            Some(f) => exists|i: int|
                0 <= i < files.len() && #[trigger] files[i] == f && f.name@ == name && forall|
                    j: int,
                |
                    0 <= j < i ==> (#[trigger] files[j]).name@ != name,
        },
    decreases files.len(),
{
    if files.len() > 0 {
        let rest = files.drop_first();
        if files.first().name@ == name {
            assert(files[0] == files.first());
        } else {
            files_are_found_by_name(rest, name);
            match file_named(rest, name) {
                None => {
                    assert forall|i: int| 0 <= i < files.len() implies (#[trigger] files[i]).name@
                        != name by {
                        if i > 0 {
                            assert(files[i] == rest[i - 1]);
                        }
                    }
                },
                Some(f) => {
                    let i = choose|i: int|
                        0 <= i < rest.len() && #[trigger] rest[i] == f && f.name@ == name
                            && forall|j: int|
                            0 <= j < i ==> (#[trigger] rest[j]).name@ != name;
                    assert(files[i + 1] == f);
                    assert forall|j: int| 0 <= j < i + 1 implies (#[trigger] files[j]).name@
                        != name by {
                        if j > 0 {
                            assert(files[j] == rest[j - 1]);
                        }
                    }
                },
            }
        }
    }
}

/// What one stage flags is what its CSV lists, in the order of the CSV, each directory
/// under that stage.
pub proof fn a_stage_flags_its_csv(files: Seq<CsvFile>, stage: Seq<char>)
    ensures
        match flagged::flagged_in(file_named(files, stage::csv_of(stage))) {
            Err(e) => flagged_by(files, seq![stage]) == Err::<
                Seq<(Seq<char>, Seq<char>)>,
                Seq<char>,
            >(e),
            Ok(dirs) => flagged_by(files, seq![stage]) matches Ok(rows) && rows.len() == dirs.len()
                && forall|i: int|
                0 <= i < rows.len() ==> (#[trigger] rows[i]).0 == stage && rows[i].1 == dirs[i],
        },
{
    assert(seq![stage].drop_last() =~= Seq::<Seq<char>>::empty());
    assert(seq![stage].last() == stage);
    assert(flagged_by(files, seq![stage].drop_last()) == Ok::<
        Seq<(Seq<char>, Seq<char>)>,
        Seq<char>,
    >(Seq::empty()));
}

/// Stages are read one after the other: those that follow add what they would flag
/// alone, and the first error stands.
pub proof fn stages_are_read_one_by_one(
    files: Seq<CsvFile>,
    a: Seq<Seq<char>>,
    b: Seq<Seq<char>>,
)
    ensures
        match (flagged_by(files, a), flagged_by(files, b)) {
            (Ok(x), Ok(y)) => flagged_by(files, a + b) == Ok::<
                Seq<(Seq<char>, Seq<char>)>,
                Seq<char>,
            >(x + y),
            (Err(e), _) => flagged_by(files, a + b) == Err::<
                Seq<(Seq<char>, Seq<char>)>,
                Seq<char>,
            >(e),
            (Ok(_), Err(e)) => flagged_by(files, a + b) == Err::<
                Seq<(Seq<char>, Seq<char>)>,
                Seq<char>,
            >(e),
        },
    decreases b.len(),
{
    if b.len() == 0 {
        assert(a + b =~= a);
        if let Ok(x) = flagged_by(files, a) {
            assert(x + Seq::<(Seq<char>, Seq<char>)>::empty() =~= x);
        }
    } else {
        stages_are_read_one_by_one(files, a, b.drop_last());
        assert((a + b).drop_last() =~= a + b.drop_last());
        if let (Ok(x), Ok(y)) = (flagged_by(files, a), flagged_by(files, b.drop_last())) {
            if let Ok(dirs) = flagged::flagged_in(file_named(files, stage::csv_of(b.last()))) {
                assert((x + y) + tagged(b.last(), dirs) =~= x + (y + tagged(b.last(), dirs)));
            }
        }
    }
}

/// Whether the CSV of `stage` lists `dir`.
pub open spec fn listed(files: Seq<CsvFile>, stage: Seq<char>, dir: Seq<char>) -> bool {
    flagged::flagged_in(file_named(files, stage::csv_of(stage))) matches Ok(dirs)
        && dirs.contains(dir)
}

/// Whatever the CSV of one of the stages lists is flagged.
proof fn lemma_listed_is_flagged(
    files: Seq<CsvFile>,
    stages: Seq<Seq<char>>,
    s: int,
    dir: Seq<char>,
)
    requires
        flagged_by(files, stages) is Ok,
        0 <= s < stages.len(),
        listed(files, stages[s], dir),
    ensures
        flags(flagged_by(files, stages)->Ok_0, dir),
    decreases stages.len(),
{
    let init = stages.drop_last();
    let before = flagged_by(files, init)->Ok_0;
    let rows = flagged_by(files, stages)->Ok_0;
    if s < init.len() {
        lemma_listed_is_flagged(files, init, s, dir);
        let i = choose|i: int| 0 <= i < before.len() && (#[trigger] before[i]).1 == dir;
        assert(rows[i].1 == dir);
    } else {
        let dirs = flagged::flagged_in(file_named(files, stage::csv_of(stages.last())))->Ok_0;
        let k = choose|k: int| 0 <= k < dirs.len() && dirs[k] == dir;
        assert(rows[before.len() + k].1 == dir);
    }
}

/// Every directory that the CSV of a chosen stage lists is planned, whichever and how
/// many the stages are: it stands in the kept list where the rules keep it, and else
/// in the skipped list.
pub proof fn every_listed_directory_is_planned(
    files: Seq<CsvFile>,
    stages: Seq<Seq<char>>,
    keep: KeepRules,
    s: int,
    dir: Seq<char>,
)
    requires
        plan_for(files, stages, keep) is Ok,
        0 <= s < stages.len(),
        listed(files, stages[s], dir),
    ensures
        keep.keeps(dir) ==> flags(plan_for(files, stages, keep)->Ok_0.kept, dir),
        !keep.keeps(dir) ==> flags(plan_for(files, stages, keep)->Ok_0.skipped, dir),
{
    lemma_listed_is_flagged(files, stages, s, dir);
    plan_is_complete(files, stages, keep, dir);
}

/// Every record of the CSV of a chosen stage whose field in the Directory column is
/// not blank is planned.
pub proof fn every_record_is_planned(
    files: Seq<CsvFile>,
    stages: Seq<Seq<char>>,
    keep: KeepRules,
    s: int,
    f: int,
    column: int,
    record: int,
    dir: Seq<char>,
)
    requires
        plan_for(files, stages, keep) is Ok,
        0 <= s < stages.len(),
        0 <= f < files.len(),
        files[f].name@ == stage::csv_of(stages[s]),
        forall|j: int| 0 <= j < f ==> (#[trigger] files[j]).name@ != stage::csv_of(stages[s]),
        files[f].contents is Ok,
        ({
            let data = files[f].contents->Ok_0@;
            let bom = flagged::begins_with_bom(data);
            let rows = flagged::csv_records(data, true);
            &&& flagged::csv_headers(data, true) matches Ok(names)
            &&& 0 <= column < names.len()
            &&& flagged::names_directory(names, bom, column)
            &&& forall|j: int|
                0 <= j < column ==> !#[trigger] flagged::names_directory(names, bom, j)
            &&& 0 <= record < rows.len()
            &&& flagged::lists(rows[record], column as nat, dir)
        }),
    ensures
        keep.keeps(dir) ==> flags(plan_for(files, stages, keep)->Ok_0.kept, dir),
        !keep.keeps(dir) ==> flags(plan_for(files, stages, keep)->Ok_0.skipped, dir),
{
    let name = stage::csv_of(stages[s]);
    let data = files[f].contents->Ok_0@;
    let bom = flagged::begins_with_bom(data);
    let rows = flagged::csv_records(data, true);
    files_are_found_by_name(files, name);
    assert(file_named(files, name) == Some(files[f])) by {
        match file_named(files, name) {
            None => {
                assert(files[f].name@ != name);
            },
            Some(g) => {
                let i = choose|i: int|
                    0 <= i < files.len() && #[trigger] files[i] == g && g.name@ == name && forall|
                        j: int,
                    |
                        0 <= j < i ==> (#[trigger] files[j]).name@ != name;
                if f < i {
                    assert(files[f].name@ != name);
                }
                if i < f {
                    assert(files[i].name@ != name);
                }
            },
        }
    }
    plan_fails_on_unreadable_csv(files, stages, keep);
    assert(flagged::flagged_in(file_named(files, stage::csv_of(stages[s]))) is Ok);
    flagged::csvs_flag_their_table(files[f]);
    flagged::tables_flag_their_column(bom, flagged::csv_headers(data, true), rows);
    let found = flagged::column(rows, column as nat);
    assert(flagged::flagged_in(Some(files[f])) is Ok);
    assert(flagged::directories_of(bom, flagged::csv_headers(data, true), rows) == found);
    flagged::columns_hold_what_the_rows_list(rows, column as nat, dir);
    assert(found->Ok_0.contains(dir));
    assert(listed(files, stages[s], dir));
    every_listed_directory_is_planned(files, stages, keep, s, dir);
}

/// Whether stage `s` is the first of `stages` whose CSV lists `dir`.
pub open spec fn is_first_stage(
    files: Seq<CsvFile>,
    stages: Seq<Seq<char>>,
    s: int,
    dir: Seq<char>,
) -> bool {
    &&& 0 <= s < stages.len()
    &&& listed(files, stages[s], dir)
    &&& forall|t: int| 0 <= t < s ==> !listed(files, #[trigger] stages[t], dir)
}

/// The first row to flag a directory bears the first stage that lists it.
proof fn lemma_first_flag_bears_first_stage(
    files: Seq<CsvFile>,
    stages: Seq<Seq<char>>,
    row: (Seq<char>, Seq<char>),
) -> (s: int)
    requires
        flagged_by(files, stages) is Ok,
        is_first_flag(flagged_by(files, stages)->Ok_0, row),
    ensures
        is_first_stage(files, stages, s, row.1),
        stages[s] == row.0,
    decreases stages.len(),
{
    let rows = flagged_by(files, stages)->Ok_0;
    let i = choose|i: int|
        0 <= i < rows.len() && #[trigger] rows[i] == row && !flags(rows.take(i), row.1);
    let init = stages.drop_last();
    let before = flagged_by(files, init)->Ok_0;
    let dirs = flagged::flagged_in(file_named(files, stage::csv_of(stages.last())))->Ok_0;
    if i < before.len() {
        assert(rows.take(i) =~= before.take(i));
        assert(before[i] == row);
        let s = lemma_first_flag_bears_first_stage(files, init, row);
        assert(stages[s] == init[s]);
        assert forall|t: int| 0 <= t < s implies !listed(
            files,
            #[trigger] stages[t],
            row.1,
        ) by {
            assert(init[t] == stages[t]);
        }
        s
    } else {
        let s = stages.len() - 1;
        assert(dirs[i - before.len()] == row.1);
        assert(listed(files, stages[s], row.1));
        assert forall|t: int| 0 <= t < s implies !listed(
            files,
            #[trigger] stages[t],
            row.1,
        ) by {
            assert(init[t] == stages[t]);
            if listed(files, stages[t], row.1) {
                lemma_listed_is_flagged(files, init, t, row.1);
                let k = choose|k: int| 0 <= k < before.len() && (#[trigger] before[k]).1 == row.1;
                assert(rows.take(i)[k].1 == row.1);
            }
        }
        s
    }
}

/// A directory is planned under the first of the stages whose CSV lists it, in either
/// list.
pub proof fn directories_are_planned_under_their_first_stage(
    files: Seq<CsvFile>,
    stages: Seq<Seq<char>>,
    keep: KeepRules,
    row: (Seq<char>, Seq<char>),
)
    requires
        plan_for(files, stages, keep) is Ok,
        plan_for(files, stages, keep)->Ok_0.kept.contains(row) || plan_for(
            files,
            stages,
            keep,
        )->Ok_0.skipped.contains(row),
    ensures
        exists|s: int| #[trigger]
            is_first_stage(files, stages, s, row.1) && stages[s] == row.0,
{
    let rows = flagged_by(files, stages)->Ok_0;
    let unique = first_flags(rows);
    let verdicts = verdicts_of(keep, unique);
    let v = plan_for(files, stages, keep)->Ok_0.kept.contains(row);
    let list = with_verdict(unique, verdicts, v);
    first_stage_wins(rows);
    split_follows_verdicts(unique, verdicts, v);
    let k = choose|k: int| 0 <= k < list.len() && list[k] == row;
    assert(has_verdict(unique, verdicts, v, list[k]));
    let i = choose|i: int|
        0 <= i < unique.len() && verdicts[i] == v && #[trigger] unique[i] == list[k];
    assert(is_first_flag(rows, unique[i]));
    let s = lemma_first_flag_bears_first_stage(files, stages, row);
    assert(is_first_stage(files, stages, s, row.1));
}

/// Rows are sorted piece by piece, in their order: a row goes behind those that came
/// before it.
pub proof fn split_keeps_the_order(
    a: Seq<(Seq<char>, Seq<char>)>,
    u: Seq<bool>,
    b: Seq<(Seq<char>, Seq<char>)>,
    v: Seq<bool>,
)
    requires
        a.len() == u.len(),
        b.len() == v.len(),
    ensures
        split(a + b, u + v).kept == split(a, u).kept + split(b, v).kept,
        split(a + b, u + v).skipped == split(a, u).skipped + split(b, v).skipped,
        a.len() == 1 ==> split(a, u).kept == if u[0] {
            a
        } else {
            Seq::empty()
        },
        a.len() == 1 ==> split(a, u).skipped == if u[0] {
            Seq::empty()
        } else {
            a
        },
{
    lemma_with_verdict_add(a, u, b, v, true);
    lemma_with_verdict_add(a, u, b, v, false);
    if a.len() == 1 {
        let none = Seq::<(Seq<char>, Seq<char>)>::empty();
        assert(a.drop_last() =~= none);
        assert(with_verdict(a.drop_last(), u.take(0), true) =~= none);
        assert(with_verdict(a.drop_last(), u.take(0), false) =~= none);
        assert(none.push(a[0]) =~= a);
    }
}

/// The rows with a verdict, piece by piece.
proof fn lemma_with_verdict_add(
    a: Seq<(Seq<char>, Seq<char>)>,
    u: Seq<bool>,
    b: Seq<(Seq<char>, Seq<char>)>,
    v: Seq<bool>,
    verdict: bool,
)
    requires
        a.len() == u.len(),
        b.len() == v.len(),
    ensures
        with_verdict(a + b, u + v, verdict) == with_verdict(a, u, verdict) + with_verdict(
            b,
            v,
            verdict,
        ),
    decreases b.len(),
{
    if b.len() == 0 {
        assert(a + b =~= a);
        assert(u + v =~= u);
        assert(with_verdict(a, u, verdict) + with_verdict(b, v, verdict) =~= with_verdict(
            a,
            u,
            verdict,
        ));
    } else {
        let n = b.len() - 1;
        lemma_with_verdict_add(a, u, b.drop_last(), v.take(n), verdict);
        assert((a + b).drop_last() =~= a + b.drop_last());
        assert((u + v).take(a.len() + n) =~= u + v.take(n));
        assert(with_verdict(a + b, u + v, verdict) =~= with_verdict(a, u, verdict) + with_verdict(
            b,
            v,
            verdict,
        ));
    }
}

/// Dropping repeats keeps the order of what is left, and looks back only: what came
/// before stays as it is, and of what follows only that stays which nothing before it
/// flags.
pub proof fn repeats_are_dropped_in_order(
    a: Seq<(Seq<char>, Seq<char>)>,
    b: Seq<(Seq<char>, Seq<char>)>,
)
    ensures
        first_flags(a + b) == first_flags(a) + first_flags(b).filter(
            |row: (Seq<char>, Seq<char>)| !flags(a, row.1),
        ),
        a.len() == 1 ==> first_flags(a) == a,
    decreases b.len(),
{
    reveal(Seq::filter);
    let fresh = |row: (Seq<char>, Seq<char>)| !flags(a, row.1);
    if a.len() == 1 {
        assert(a.drop_last() =~= Seq::<(Seq<char>, Seq<char>)>::empty());
        assert(first_flags(a.drop_last()) =~= Seq::<(Seq<char>, Seq<char>)>::empty());
        assert(first_flags(a) =~= a);
    }
    if b.len() == 0 {
        assert(a + b =~= a);
        assert(first_flags(b) =~= Seq::<(Seq<char>, Seq<char>)>::empty());
        assert(first_flags(a) + first_flags(b).filter(fresh) =~= first_flags(a));
    } else {
        let init = b.drop_last();
        let row = b.last();
        repeats_are_dropped_in_order(a, init);
        assert((a + b).drop_last() =~= a + init);
        assert(flags(a + init, row.1) <==> flags(a, row.1) || flags(init, row.1)) by {
            if flags(a, row.1) {
                let i = choose|i: int| 0 <= i < a.len() && (#[trigger] a[i]).1 == row.1;
                assert((a + init)[i].1 == row.1);
            }
            if flags(init, row.1) {
                let i = choose|i: int| 0 <= i < init.len() && (#[trigger] init[i]).1 == row.1;
                assert((a + init)[a.len() + i].1 == row.1);
            }
            if flags(a + init, row.1) {
                let i = choose|i: int|
                    0 <= i < (a + init).len() && (#[trigger] (a + init)[i]).1 == row.1;
                if i < a.len() {
                    assert(a[i].1 == row.1);
                } else {
                    assert(init[i - a.len()].1 == row.1);
                }
            }
        }
        if !flags(init, row.1) {
            assert(first_flags(b).drop_last() =~= first_flags(init));
            assert(first_flags(b).last() == row);
        }
        assert(first_flags(a + b) =~= first_flags(a) + first_flags(b).filter(fresh));
    }
}

/// Less urgent stages only add to a plan: what the earlier stages alone would keep or
/// skip stands in front, unchanged.
pub proof fn later_stages_only_add(
    files: Seq<CsvFile>,
    a: Seq<Seq<char>>,
    b: Seq<Seq<char>>,
    keep: KeepRules,
)
    requires
        plan_for(files, a + b, keep) is Ok,
    ensures
        plan_for(files, a, keep) matches Ok(earlier) && earlier.kept.is_prefix_of(
            plan_for(files, a + b, keep)->Ok_0.kept,
        ) && earlier.skipped.is_prefix_of(plan_for(files, a + b, keep)->Ok_0.skipped),
{
    stages_are_read_one_by_one(files, a, b);
    let x = flagged_by(files, a)->Ok_0;
    let y = flagged_by(files, b)->Ok_0;
    repeats_are_dropped_in_order(x, y);
    let front = first_flags(x);
    let back = first_flags(y).filter(|row: (Seq<char>, Seq<char>)| !flags(x, row.1));
    split_keeps_the_order(front, verdicts_of(keep, front), back, verdicts_of(keep, back));
    assert(verdicts_of(keep, front + back) =~= verdicts_of(keep, front) + verdicts_of(keep, back));
    let earlier = plan_for(files, a, keep)->Ok_0;
    let plan = plan_for(files, a + b, keep)->Ok_0;
    assert(plan.kept.take(earlier.kept.len() as int) =~= earlier.kept);
    assert(plan.skipped.take(earlier.skipped.len() as int) =~= earlier.skipped);
}

/// Planning fails with the words for the first of the stages' CSVs that cannot be
/// read.
pub proof fn the_first_unreadable_csv_is_reported(
    files: Seq<CsvFile>,
    stages: Seq<Seq<char>>,
    keep: KeepRules,
    s: int,
)
    requires
        0 <= s < stages.len(),
        flagged::flagged_in(file_named(files, stage::csv_of(stages[s]))) is Err,
        forall|t: int|
            0 <= t < s ==> flagged::flagged_in(
                file_named(files, stage::csv_of(#[trigger] stages[t])),
            ) is Ok,
    ensures
        plan_for(files, stages, keep) == Err::<PlanView, Seq<char>>(
            flagged::flagged_in(file_named(files, stage::csv_of(stages[s])))->Err_0,
        ),
{
    let front = stages.take(s);
    let back = stages.skip(s);
    let one = seq![stages[s]];
    plan_fails_on_unreadable_csv(files, front, keep);
    assert forall|t: int| 0 <= t < front.len() implies flagged::flagged_in(
        file_named(files, stage::csv_of(#[trigger] front[t])),
    ) is Ok by {
        assert(front[t] == stages[t]);
    }
    stages_are_read_one_by_one(files, front, back);
    assert(front + back =~= stages);
    stages_are_read_one_by_one(files, one, stages.skip(s + 1));
    assert(one + stages.skip(s + 1) =~= back);
    a_stage_flags_its_csv(files, stages[s]);
}

} // verus!
