//! What became of a batch of entries whose timestamps were to be refreshed.
use crate::text;
use vstd::prelude::*;
use vstd::string::*;

verus! {

/// Why an entry got no fresh stamps.
#[derive(Debug)]
pub struct TouchError {
    /// The entry is no longer there.
    pub not_found: bool,
    /// The system's words.
    pub message: String,
}

/// One attempt to set an entry's atime and mtime to now.
#[derive(Debug)]
pub struct Touch {
    /// The entry's path, as it is shown.
    pub path: String,
    pub outcome: Result<(), TouchError>,
}

/// What an attempt comes to.
pub enum Stamp {
    Renewed,
    /// Deleted between enumeration and touch: neither renewed nor an error.
    Vanished,
    Failed,
}

/// What `t` comes to.
pub open spec fn stamp_of(t: Touch) -> Stamp {
    match t.outcome {
        Ok(_) => Stamp::Renewed,
        Err(e) => if e.not_found {
            Stamp::Vanished
        } else {
            Stamp::Failed
        },
    }
}

/// What the attempts come to, one by one.
pub open spec fn stamps_of(touches: Seq<Touch>) -> Seq<Stamp> {
    touches.map_values(|t: Touch| stamp_of(t))
}

/// How often `stamp` occurs.
pub open spec fn occurrences(stamps: Seq<Stamp>, stamp: Stamp) -> nat
    decreases stamps.len(),
{
    if stamps.len() == 0 {
        0
    } else {
        occurrences(stamps.drop_last(), stamp) + if stamps.last() == stamp {
            1nat
        } else {
            0nat
        }
    }
}

/// The first attempt that failed.
pub open spec fn first_failed(touches: Seq<Touch>) -> Option<Touch>
    decreases touches.len(),
{
    if touches.len() == 0 {
        None
    } else if first_failed(touches.drop_last()) is Some {
        first_failed(touches.drop_last())
    } else if stamp_of(touches.last()) is Failed {
        Some(touches.last())
    } else {
        None
    }
}

/// One failed attempt in words.
pub open spec fn failure_text(t: Touch) -> Seq<char> {
    "touch "@ + t.path@ + ": "@ + t.outcome->Err_0.message@
}

/// The batch in words: the first failure, and how many followed it.
pub open spec fn batch_message(touches: Seq<Touch>) -> Seq<char> {
    let failed = occurrences(stamps_of(touches), Stamp::Failed);
    match first_failed(touches) {
        None => "ok"@,
        Some(t) => if failed == 1 {
            failure_text(t)
        } else {
            failure_text(t) + " (and "@ + text::decimal((failed - 1) as nat)
                + " more in this batch)"@
        },
    }
}

/// Something failed exactly where there is a first failure.
proof fn lemma_first_failed_counts(touches: Seq<Touch>)
    ensures
        first_failed(touches) is Some <==> occurrences(stamps_of(touches), Stamp::Failed) > 0,
    decreases touches.len(),
{
    if touches.len() > 0 {
        lemma_first_failed_counts(touches.drop_last());
        assert(stamps_of(touches).drop_last() =~= stamps_of(touches.drop_last()));
    }
}

/// Every attempt comes to exactly one thing: the entry is renewed, has vanished, or
/// has failed.
pub proof fn every_attempt_counts_once(stamps: Seq<Stamp>)
    ensures
        occurrences(stamps, Stamp::Renewed) + occurrences(stamps, Stamp::Vanished) + occurrences(
            stamps,
            Stamp::Failed,
        ) == stamps.len(),
    decreases stamps.len(),
{
    if stamps.len() > 0 {
        every_attempt_counts_once(stamps.drop_last());
    }
}

/// The message is `ok` where nothing failed, and else names the first failure.
pub proof fn failures_are_never_silent(touches: Seq<Touch>)
    ensures
        occurrences(stamps_of(touches), Stamp::Failed) == 0 ==> batch_message(touches) == "ok"@,
        occurrences(stamps_of(touches), Stamp::Failed) > 0 ==> first_failed(touches) is Some
            && failure_text(first_failed(touches)->0).is_prefix_of(batch_message(touches)),
{
    lemma_first_failed_counts(touches);
}

/// Sums up a batch of attempts: `(renewed, errors, message)`.
///
/// `renewed` entries got fresh stamps, `errors` failed, and the message is the
/// first failure, suffixed with the count of the rest: a whole shard can fail,
/// and the summary has to show that without a line for each entry.
pub fn touch_entries(touches: &[Touch]) -> (r: (usize, usize, String))
    ensures
        r.0 == occurrences(stamps_of(touches@), Stamp::Renewed),
        r.1 == occurrences(stamps_of(touches@), Stamp::Failed),
        r.2@ == batch_message(touches@),
        r.0 == touches@.filter(|t: Touch| t.outcome is Ok).len(),
        r.1 == touches@.filter(|t: Touch| t.outcome is Err && !t.outcome->Err_0.not_found).len(),
{
    let mut renewed: usize = 0;
    let mut errors: usize = 0;
    let mut msg = "ok".to_owned();
    let ghost all = touches@;
    let mut i: usize = 0;
    assert(stamps_of(all.take(0)) =~= Seq::<Stamp>::empty());
    while i < touches.len()
        invariant
            all == touches@,
            i <= all.len(),
            renewed <= i,
            errors <= i,
            renewed == occurrences(stamps_of(all.take(i as int)), Stamp::Renewed),
            errors == occurrences(stamps_of(all.take(i as int)), Stamp::Failed),
            match first_failed(all.take(i as int)) {
                None => msg@ == "ok"@,
                Some(t) => msg@ == failure_text(t),
            },
        decreases all.len() - i,
    {
        proof {
            let next = all.take(i + 1);
            assert(next.drop_last() =~= all.take(i as int));
            assert(stamps_of(next).drop_last() =~= stamps_of(all.take(i as int)));
            assert(stamps_of(next).last() == stamp_of(all[i as int]));
            lemma_first_failed_counts(all.take(i as int));
        }
        match &touches[i].outcome {
            Ok(_) => {
                renewed = renewed + 1;
            },
            Err(e) => {
                if !e.not_found {
                    errors = errors + 1;
                    if errors == 1 {
                        let mut line = "touch ".to_owned();
                        line.append(touches[i].path.as_str());
                        line.append(": ");
                        line.append(e.message.as_str());
                        msg = line;
                    }
                }
            },
        }
        i = i + 1;
    }
    proof {
        assert(all.take(all.len() as int) =~= all);
        lemma_first_failed_counts(all);
        counts_are_taken_of_the_outcomes(all);
    }
    if errors > 1 {
        msg.append(" (and ");
        let more = text::decimal_text((errors - 1) as u128);
        msg.append(more.as_str());
        msg.append(" more in this batch)");
    }
    (renewed, errors, msg)
}

/// The counts of a batch are taken of its outcomes: an entry counts as renewed where
/// its attempt succeeded, and as failed where the attempt ended in an error other
/// than that the entry is gone.
pub proof fn counts_are_taken_of_the_outcomes(touches: Seq<Touch>)
    ensures
        occurrences(stamps_of(touches), Stamp::Renewed) == touches.filter(
            |t: Touch| t.outcome is Ok,
        ).len(),
        occurrences(stamps_of(touches), Stamp::Failed) == touches.filter(
            |t: Touch| t.outcome is Err && !t.outcome->Err_0.not_found,
        ).len(),
        occurrences(stamps_of(touches), Stamp::Vanished) == touches.filter(
            |t: Touch| t.outcome is Err && t.outcome->Err_0.not_found,
        ).len(),
    decreases touches.len(),
{
    reveal(Seq::filter);
    if touches.len() > 0 {
        counts_are_taken_of_the_outcomes(touches.drop_last());
        assert(stamps_of(touches).drop_last() =~= stamps_of(touches.drop_last()));
        assert(stamps_of(touches).last() == stamp_of(touches.last()));
    }
}

/// Two batches together count what each of them counts.
pub proof fn batches_count_apart(a: Seq<Stamp>, b: Seq<Stamp>, stamp: Stamp)
    ensures
        occurrences(a + b, stamp) == occurrences(a, stamp) + occurrences(b, stamp),
        occurrences(seq![stamp], stamp) == 1,
    decreases b.len(),
{
    assert(seq![stamp].drop_last() =~= Seq::<Stamp>::empty());
    assert(occurrences(seq![stamp].drop_last(), stamp) == 0);
    assert(seq![stamp].last() == stamp);
    if b.len() == 0 {
        assert(a + b =~= a);
    } else {
        batches_count_apart(a, b.drop_last(), stamp);
        assert((a + b).drop_last() =~= a + b.drop_last());
    }
}

/// The first failure is the earliest attempt that ended in an error other than that
/// the entry is gone.
pub proof fn the_first_failure_is_the_earliest(touches: Seq<Touch>, i: int)
    requires
        0 <= i < touches.len(),
        touches[i].outcome is Err && !touches[i].outcome->Err_0.not_found,
        forall|j: int|
            0 <= j < i ==> (#[trigger] touches[j]).outcome is Ok
                || touches[j].outcome->Err_0.not_found,
    ensures
        first_failed(touches) == Some(touches[i]),
    decreases touches.len(),
{
    let init = touches.drop_last();
    if i < init.len() {
        the_first_failure_is_the_earliest(init, i);
    } else {
        lemma_nothing_failed(init);
    }
}

/// Where nothing failed there is no first failure.
proof fn lemma_nothing_failed(touches: Seq<Touch>)
    requires
        forall|j: int|
            0 <= j < touches.len() ==> (#[trigger] touches[j]).outcome is Ok
                || touches[j].outcome->Err_0.not_found,
    ensures
        first_failed(touches) is None,
    decreases touches.len(),
{
    if touches.len() > 0 {
        let init = touches.drop_last();
        assert forall|j: int| 0 <= j < init.len() implies (#[trigger] init[j]).outcome is Ok
            || init[j].outcome->Err_0.not_found by {
            assert(init[j] == touches[j]);
        }
        lemma_nothing_failed(init);
        assert(touches.last() == touches[touches.len() - 1]);
    }
}

/// A batch in which no attempt failed is `ok`, however many of its entries are gone.
pub proof fn batches_without_failure_are_ok(touches: Seq<Touch>)
    requires
        forall|j: int|
            0 <= j < touches.len() ==> (#[trigger] touches[j]).outcome is Ok
                || touches[j].outcome->Err_0.not_found,
    ensures
        batch_message(touches) == "ok"@,
{
    lemma_nothing_failed(touches);
}

/// The message of a batch with failures: the path and the error of the earliest, and,
/// where there are more, how many more.
pub proof fn batch_messages_tell_the_earliest(touches: Seq<Touch>, i: int)
    requires
        0 <= i < touches.len(),
        touches[i].outcome is Err && !touches[i].outcome->Err_0.not_found,
        forall|j: int|
            0 <= j < i ==> (#[trigger] touches[j]).outcome is Ok
                || touches[j].outcome->Err_0.not_found,
    ensures
        ({
            let failures = touches.filter(
                |t: Touch| t.outcome is Err && !t.outcome->Err_0.not_found,
            ).len();
            let first = "touch "@ + touches[i].path@ + ": "@
                + touches[i].outcome->Err_0.message@;
            &&& failures >= 1
            &&& failures == 1 ==> batch_message(touches) == first
            &&& failures > 1 ==> batch_message(touches) == first + (" (and "@ + text::decimal(
                (failures - 1) as nat,
            ) + " more in this batch)"@)
        }),
{
    the_first_failure_is_the_earliest(touches, i);
    counts_are_taken_of_the_outcomes(touches);
    lemma_first_failed_counts(touches);
    let failures = touches.filter(
        |t: Touch| t.outcome is Err && !t.outcome->Err_0.not_found,
    ).len();
    let first = failure_text(touches[i]);
    assert(failures == occurrences(stamps_of(touches), Stamp::Failed));
    if failures > 1 {
        assert(batch_message(touches) =~= first + (" (and "@ + text::decimal((failures - 1) as nat)
            + " more in this batch)"@));
    }
}

} // verus!
