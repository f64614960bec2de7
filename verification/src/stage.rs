//! The warning stages, and the CSV that Sol drops for each.
use crate::text;
use vstd::prelude::*;
use vstd::string::*;

verus! {

/// Every stage, most urgent first.
pub const STAGE_ORDER: [&'static str; 3] = ["pending", "over90", "inactive"];

/// The `--stage` value that stands for every stage.
pub const STAGES_ALL: &'static str = "all";

/// Every stage, most urgent first.
pub open spec fn stage_order() -> Seq<Seq<char>> {
    seq!["pending"@, "over90"@, "inactive"@]
}

/// Whether `stage` is one of Sol's warning stages.
pub open spec fn is_stage(stage: Seq<char>) -> bool {
    stage_order().contains(stage)
}

/// The CSV of a stage.
pub open spec fn csv_of(stage: Seq<char>) -> Seq<char> {
    if stage == "pending"@ {
        "scratch-dirs-pending-removal.csv"@
    } else if stage == "over90"@ {
        "scratch-dirs-over-90days.csv"@
    } else {
        "scratch-dirs-inactive.csv"@
    }
}

/// The stages that a `--stage` value selects.
pub open spec fn selected(stage: Seq<char>) -> Seq<Seq<char>> {
    if stage == "all"@ {
        stage_order()
    } else {
        seq![stage]
    }
}

/// The name of the CSV of a stage.
pub fn stage_file(stage: &str) -> (r: &'static str)
    requires
        is_stage(stage@),
    ensures
        r@ == csv_of(stage@),
{
    if text::same_text(stage, "pending") {
        "scratch-dirs-pending-removal.csv"
    } else if text::same_text(stage, "over90") {
        "scratch-dirs-over-90days.csv"
    } else {
        "scratch-dirs-inactive.csv"
    }
}

/// The stages that a `--stage` value selects.
pub fn select_stages(stage: &str) -> (r: Vec<String>)
    ensures
        r.deep_view() == selected(stage@),
{
    let mut stages: Vec<String> = Vec::new();
    if text::same_text(stage, STAGES_ALL) {
        let mut i: usize = 0;
        while i < 3
            invariant
                i <= 3,
                stages@.len() == i,
                forall|j: int| 0 <= j < i ==> (#[trigger] stages@[j])@ == STAGE_ORDER@[j]@,
            decreases 3 - i,
        {
            stages.push(STAGE_ORDER[i].to_owned());
            i = i + 1;
        }
        assert(stages.deep_view() =~= stage_order());
    } else {
        stages.push(stage.to_owned());
        assert(stages.deep_view() =~= seq![stage@]);
    }
    stages
}

/// No two stages share a CSV.
pub proof fn stages_have_distinct_files(a: Seq<char>, b: Seq<char>)
    requires
        is_stage(a),
        is_stage(b),
        a != b,
    ensures
        csv_of(a) != csv_of(b),
{
    reveal_strlit("scratch-dirs-pending-removal.csv");
    reveal_strlit("scratch-dirs-over-90days.csv");
    reveal_strlit("scratch-dirs-inactive.csv");
    assert("scratch-dirs-pending-removal.csv"@.len() != "scratch-dirs-over-90days.csv"@.len());
    assert("scratch-dirs-pending-removal.csv"@.len() != "scratch-dirs-inactive.csv"@.len());
    assert("scratch-dirs-over-90days.csv"@.len() != "scratch-dirs-inactive.csv"@.len());
}

/// A valid `--stage` value selects valid stages, each once.
pub proof fn selected_stages_are_valid(stage: Seq<char>)
    requires
        is_stage(stage) || stage == "all"@,
    ensures
        forall|i: int| 0 <= i < selected(stage).len() ==> is_stage(#[trigger] selected(stage)[i]),
        selected(stage).no_duplicates(),
{
    reveal_strlit("pending");
    reveal_strlit("over90");
    reveal_strlit("inactive");
    assert("pending"@.len() == 7 && "over90"@.len() == 6 && "inactive"@.len() == 8);
}

/// `all` selects every stage there is, and any other value selects itself alone.
pub proof fn selection_is_all_or_one(stage: Seq<char>)
    ensures
        forall|s: Seq<char>| #[trigger] selected("all"@).contains(s) <==> s == "pending"@ || s
            == "over90"@ || s == "inactive"@,
        selected("all"@)[0] == "pending"@,
        selected("all"@)[1] == "over90"@,
        selected("all"@)[2] == "inactive"@,
        selected("all"@).len() == 3,
        stage != "all"@ ==> selected(stage).len() == 1 && selected(stage)[0] == stage,
{
    let all = selected("all"@);
    assert(all.len() == 3);
    assert forall|s: Seq<char>| s == "pending"@ || s == "over90"@ || s
        == "inactive"@ implies #[trigger] all.contains(s) by {
        assert(all[0] == "pending"@ && all[1] == "over90"@ && all[2] == "inactive"@);
    }
}

/// A value is a stage exactly where it is one of the three.
pub proof fn stages_are_three(stage: Seq<char>)
    ensures
        is_stage(stage) <==> stage == "pending"@ || stage == "over90"@ || stage == "inactive"@,
        csv_of("pending"@) == "scratch-dirs-pending-removal.csv"@,
        csv_of("over90"@) == "scratch-dirs-over-90days.csv"@,
        csv_of("inactive"@) == "scratch-dirs-inactive.csv"@,
{
    selection_is_all_or_one(stage);
    assert(stage_order() == selected("all"@));
    reveal_strlit("pending");
    reveal_strlit("over90");
    reveal_strlit("inactive");
    assert("pending"@.len() == 7 && "over90"@.len() == 6 && "inactive"@.len() == 8);
}

} // verus!
