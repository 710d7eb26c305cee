//! Grouping identifiers into lookup batches.
//!
//! The lookup service takes a bounded number of identifiers per request. The
//! identifiers are cut into consecutive groups of that size, the last one
//! possibly shorter, and each group is written as one comma-separated text.

use vstd::prelude::*;
use crate::text::{join_range, joined, texts_of};

verus! {

/// The number of identifiers that one lookup may carry.
pub const BATCH_LIMIT: usize = 50;

/// The character between the identifiers of a batch.
pub const SEPARATOR: char = ',';

/// The number of batches that `total` identifiers make: `total / limit`,
/// rounded up.
pub open spec fn batch_count(total: nat, limit: nat) -> nat {
    ((total + limit - 1) / (limit as int)) as nat
}

/// The identifiers of batch number `k`, counted from zero.
pub open spec fn batch_members(ids: Seq<Seq<char>>, limit: nat, k: int) -> Seq<Seq<char>> {
    ids.subrange(
        k * limit,
        if (k + 1) * limit <= ids.len() {
            (k + 1) * limit
        } else {
            ids.len() as int
        },
    )
}

/// The identifiers cut into batches.
pub open spec fn grouped(ids: Seq<Seq<char>>, limit: nat) -> Seq<Seq<Seq<char>>> {
    Seq::new(batch_count(ids.len(), limit), |k: int| batch_members(ids, limit, k))
}

/// The text of each batch: its identifiers with commas between them.
pub open spec fn batch_texts(ids: Seq<Seq<char>>, limit: nat) -> Seq<Seq<char>> {
    Seq::new(
        batch_count(ids.len(), limit),
        |k: int| joined(batch_members(ids, limit, k), SEPARATOR),
    )
}

proof fn lemma_batch_count(total: nat, limit: nat, count: nat)
    requires
        limit > 0,
        count * limit >= total,
        count == 0 || (count - 1) * limit < total,
    ensures
        count == batch_count(total, limit),
{
    let sum = (total + limit - 1) as int;
    let d = limit as int;
    assert(sum == d * (sum / d) + sum % d && 0 <= sum % d < d) by {
        vstd::arithmetic::div_mod::lemma_fundamental_div_mod(sum, d);
        vstd::arithmetic::div_mod::lemma_mod_bound(sum, d);
    }
    let q = sum / d;
    assert(count == q) by(nonlinear_arith)
        requires
            d > 0,
            count * d >= total,
            count == 0 || (count - 1) * d < total,
            total + d - 1 == d * q + sum % d,
            0 <= sum % d < d,
            total >= 0,
            count >= 0,
    ;
}

proof fn lemma_batch_bounds(total: nat, limit: nat, k: int)
    requires
        limit > 0,
        0 <= k < batch_count(total, limit),
    ensures
        k * limit < total,
        batch_count(total, limit) * limit >= total,
        k + 1 == batch_count(total, limit) ==> (k + 1) * limit >= total,
        k + 1 < batch_count(total, limit) ==> (k + 1) * limit < total,
{
    let sum = (total + limit - 1) as int;
    let d = limit as int;
    assert(sum == d * (sum / d) + sum % d && 0 <= sum % d < d) by {
        vstd::arithmetic::div_mod::lemma_fundamental_div_mod(sum, d);
        vstd::arithmetic::div_mod::lemma_mod_bound(sum, d);
    }
    let q = sum / d;
    assert(q == batch_count(total, limit));
    assert(k * d < total && q * d >= total && (k + 1 < q ==> (k + 1) * d < total)) by(nonlinear_arith)
        requires
            d > 0,
            0 <= k < q,
            total + d - 1 == d * q + sum % d,
            0 <= sum % d < d,
    ;
}

/// Cuts `ids` into consecutive batches of `limit` identifiers, the last one
/// possibly shorter, and joins each batch with commas.
pub fn batch_identifiers(ids: &Vec<String>, limit: usize) -> (batches: Vec<String>)
    requires
        limit > 0,
    ensures
        texts_of(batches@) == batch_texts(texts_of(ids@), limit as nat),
{
    let total = ids.len();
    let mut batches: Vec<String> = Vec::new();
    let mut start: usize = 0;
    assert(0 * limit == 0) by(nonlinear_arith);
    while start < total
        invariant
            limit > 0,
            total == ids.len(),
            start <= total,
            start == total || start == batches.len() * limit,
            batches.len() * limit >= start,
            batches.len() == 0 || (batches.len() - 1) * limit < total,
            forall|k: int|
                0 <= k < batches@.len() ==> (#[trigger] batches@[k])@ == joined(
                    batch_members(texts_of(ids@), limit as nat, k),
                    SEPARATOR,
                ),
        decreases total - start,
    {
        let ghost k = batches.len() as int;
        let end = if total - start > limit {
            start + limit
        } else {
            total
        };
        proof {
            assert((k + 1) * limit == k * limit + limit) by(nonlinear_arith);
        }
        let batch = join_range(ids, start, end, SEPARATOR);
        batches.push(batch);
        start = end;
    }
    proof {
        lemma_batch_count(total as nat, limit as nat, batches.len() as nat);
        assert(texts_of(batches@) =~= batch_texts(texts_of(ids@), limit as nat));
    }
    batches
}

proof fn lemma_grouped_prefix(ids: Seq<Seq<char>>, limit: nat, k: int)
    requires
        limit > 0,
        0 <= k <= batch_count(ids.len(), limit),
    ensures
        grouped(ids, limit).take(k).flatten() == ids.take(
            if k * limit <= ids.len() {
                k * limit
            } else {
                ids.len() as int
            },
        ),
    decreases k,
{
    let groups = grouped(ids, limit);
    if k == 0 {
        assert(groups.take(0) =~= Seq::<Seq<Seq<char>>>::empty());
        assert(0 * limit == 0) by(nonlinear_arith);
        assert(ids.take(0) =~= Seq::<Seq<char>>::empty());
    } else {
        lemma_grouped_prefix(ids, limit, k - 1);
        lemma_batch_bounds(ids.len(), limit, k - 1);
        assert((k - 1 + 1) * limit == (k - 1) * limit + limit) by(nonlinear_arith);
        assert(groups.take(k) =~= groups.take(k - 1).push(groups[k - 1]));
        groups.take(k - 1).lemma_flatten_push(groups[k - 1]);
        let from = (k - 1) * limit;
        let to = if k * limit <= ids.len() {
            k * limit
        } else {
            ids.len() as int
        };
        assert(groups[k - 1] == ids.subrange(from, to));
        assert(ids.take(from) + ids.subrange(from, to) =~= ids.take(to));
    }
}

/// The batches hold every identifier once, in the order given: there are
/// `total / limit` of them, rounded up, none is empty, none holds more than
/// `limit` identifiers, and written one after another they are `ids`.
pub proof fn lemma_batches_cover(ids: Seq<Seq<char>>, limit: nat)
    requires
        limit > 0,
    ensures
        grouped(ids, limit).len() == batch_count(ids.len(), limit),
        batch_count(ids.len(), limit) * limit >= ids.len(),
        ids.len() > 0 ==> (batch_count(ids.len(), limit) - 1) * limit < ids.len(),
        forall|k: int|
            0 <= k < grouped(ids, limit).len() ==> 1 <= (#[trigger] grouped(ids, limit)[k]).len()
                <= limit,
        grouped(ids, limit).flatten() == ids,
        batch_texts(ids, limit) == grouped(ids, limit).map_values(
            |members: Seq<Seq<char>>| joined(members, SEPARATOR),
        ),
{
    let groups = grouped(ids, limit);
    let count = batch_count(ids.len(), limit) as int;
    assert forall|k: int| 0 <= k < groups.len() implies 1 <= (#[trigger] groups[k]).len()
        <= limit by {
        lemma_batch_bounds(ids.len(), limit, k);
        assert((k + 1) * limit == k * limit + limit) by(nonlinear_arith);
    }
    lemma_grouped_prefix(ids, limit, count);
    assert(groups.take(count) =~= groups);
    assert(batch_texts(ids, limit) =~= groups.map_values(
        |members: Seq<Seq<char>>| joined(members, SEPARATOR),
    ));
    if count > 0 {
        lemma_batch_bounds(ids.len(), limit, count - 1);
    } else {
        lemma_batch_count(0, limit, 0);
        assert(0 * limit == 0) by(nonlinear_arith);
        if ids.len() > 0 {
            let sum = (ids.len() + limit - 1) as int;
            assert(sum / (limit as int) >= 1) by(nonlinear_arith)
                requires
                    sum >= limit,
                    limit > 0,
            ;
        }
    }
    assert(ids.take(ids.len() as int) =~= ids);
}

} // verus!
