//! Batches: a flat entry list split evenly for the touch pool.
use std::path::PathBuf;
use vstd::prelude::*;

verus! {

/// Files per touch shard. Big enough that per-batch overhead is negligible,
/// small enough that one huge directory fans out into many batches and keeps
/// every worker busy.
pub const BATCH: usize = 2000;

/// The first `size` items, then the next, until none is left; the last batch
/// may be shorter.
pub open spec fn batches_of<T>(items: Seq<T>, size: nat) -> Seq<Seq<T>>
    decreases items.len(),
{
    if items.len() == 0 {
        Seq::empty()
    } else if size == 0 || items.len() <= size {
        seq![items]
    } else {
        seq![items.take(size as int)] + batches_of(items.skip(size as int), size)
    }
}

/// The contents of the batches.
pub open spec fn contents<T>(batches: Seq<Vec<T>>) -> Seq<Seq<T>> {
    batches.map_values(|b: Vec<T>| b@)
}

/// A full batch in front of the rest is the first batch of the whole.
proof fn lemma_batches_full_first<T>(first: Seq<T>, rest: Seq<T>, size: nat)
    requires
        0 < size,
        first.len() == size,
    ensures
        batches_of(first + rest, size) == seq![first] + batches_of(rest, size),
{
    let all = first + rest;
    if rest.len() == 0 {
        assert(all =~= first);
        assert(batches_of(rest, size) =~= Seq::<Seq<T>>::empty());
        assert(seq![first] + batches_of(rest, size) =~= seq![first]);
    } else {
        assert(all.take(size as int) =~= first);
        assert(all.skip(size as int) =~= rest);
    }
}

/// Splits a flat entry list into evenly-sized batches for the touch pool.
pub fn shard(files: Vec<PathBuf>, batch_size: usize) -> (batches: Vec<Vec<PathBuf>>)
    requires
        files@.len() > 0 ==> batch_size > 0,
    ensures
        contents(batches@) == batches_of(files@, batch_size as nat),
{
    let mut batches: Vec<Vec<PathBuf>> = Vec::new();
    if files.is_empty() {
        assert(contents(batches@) =~= batches_of(files@, batch_size as nat));
        return batches;
    }
    let ghost all = files@;
    let ghost size = batch_size as nat;
    let mut current: Vec<PathBuf> = Vec::new();
    assert(current@ + all.skip(0) =~= all);
    assert(contents(batches@) + batches_of(all, size) =~= batches_of(all, size));
    for f in iter: files
        invariant
            all == files@,
            iter.seq() == all,
            size == batch_size,
            0 < size,
            current@.len() < size,
            contents(batches@) + batches_of(current@ + all.skip(iter.index() as int), size)
                == batches_of(all, size),
    {
        let ghost i = iter.index() as int;
        let ghost before = current@;
        let ghost done = contents(batches@);
        current.push(f);
        assert(before + all.skip(i) =~= current@ + all.skip(i + 1));
        if current.len() == batch_size {
            proof {
                lemma_batches_full_first(current@, all.skip(i + 1), size);
            }
            let ghost full = current@;
            batches.push(current);
            current = Vec::new();
            assert(contents(batches@) =~= done + seq![full]);
            assert(current@ + all.skip(i + 1) =~= all.skip(i + 1));
            assert(done + (seq![full] + batches_of(all.skip(i + 1), size)) =~= (done + seq![full])
                + batches_of(all.skip(i + 1), size));
        }
    }
    assert(current@ + all.skip(all.len() as int) =~= current@);
    let ghost done = contents(batches@);
    if !current.is_empty() {
        let ghost last = current@;
        batches.push(current);
        assert(contents(batches@) =~= done + seq![last]);
    } else {
        assert(done + batches_of(current@, size) =~= done);
    }
    batches
}

/// The batches together hold exactly the items, in order.
pub proof fn batches_hold_every_item<T>(items: Seq<T>, size: nat)
    ensures
        batches_of(items, size).flatten() == items,
    decreases items.len(),
{
    if items.len() == 0 {
    } else if size == 0 || items.len() <= size {
        assert(batches_of(items, size).first() == items);
        seq![items].lemma_flatten_one_element();
    } else {
        let rest = batches_of(items.skip(size as int), size);
        batches_hold_every_item(items.skip(size as int), size);
        assert(batches_of(items, size).first() == items.take(size as int));
        assert(batches_of(items, size).drop_first() =~= rest);
        assert(items.take(size as int) + items.skip(size as int) =~= items);
    }
}

/// Every batch but the last is full, and none is empty.
pub proof fn batches_are_even<T>(items: Seq<T>, size: nat)
    requires
        0 < size,
    ensures
        forall|i: int|
            0 <= i < batches_of(items, size).len() ==> 0 < (
            #[trigger] batches_of(items, size)[i]).len() <= size,
        forall|i: int|
            0 <= i < batches_of(items, size).len() - 1 ==> (
            #[trigger] batches_of(items, size)[i]).len() == size,
    decreases items.len(),
{
    if items.len() > size {
        let rest = batches_of(items.skip(size as int), size);
        batches_are_even(items.skip(size as int), size);
        let all = batches_of(items, size);
        assert forall|i: int| 0 <= i < all.len() implies 0 < (#[trigger] all[i]).len() <= size by {
            if i > 0 {
                assert(all[i] == rest[i - 1]);
            }
        }
        assert forall|i: int| 0 <= i < all.len() - 1 implies (#[trigger] all[i]).len() == size by {
            if i > 0 {
                assert(all[i] == rest[i - 1]);
            }
        }
    }
}

/// A list of `n` items makes `n / size` batches, rounded up.
pub proof fn batch_count<T>(items: Seq<T>, size: nat)
    requires
        0 < size,
    ensures
        batches_of(items, size).len() == (items.len() + size - 1) / size as int,
    decreases items.len(),
{
    if items.len() == 0 {
        vstd::arithmetic::div_mod::lemma_basic_div(size - 1, size as int);
    } else if items.len() <= size {
        vstd::arithmetic::div_mod::lemma_fundamental_div_mod_converse(
            items.len() + size - 1,
            size as int,
            1,
            items.len() - 1,
        );
    } else {
        batch_count(items.skip(size as int), size);
        vstd::arithmetic::div_mod::lemma_div_plus_one(items.len() - 1, size as int);
    }
}

/// Batches are seen as they are, one by one.
pub proof fn batches_are_seen_as_they_are<T>(batches: Seq<Vec<T>>, i: int)
    requires
        0 <= i < batches.len(),
    ensures
        contents(batches).len() == batches.len(),
        contents(batches)[i] == batches[i]@,
{
}

} // verus!
