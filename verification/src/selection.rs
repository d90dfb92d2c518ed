//! How the hits of two searches become one list of results: interleaved
//! round by round, each index kept where it was first seen, and cut to the
//! result budget.

use vstd::prelude::*;

verus! {

/// What `rounds` rounds of pulling yield: in each round the next item of
/// `first`, where one is left, and then the next item of `second`, where one
/// is left.
pub open spec fn interleaved_rounds(first: Seq<u64>, second: Seq<u64>, rounds: nat) -> Seq<u64>
    decreases rounds,
{
    if rounds == 0 {
        Seq::empty()
    } else {
        let round = (rounds - 1) as nat;
        interleaved_rounds(first, second, round) + round_items(first, second, round)
    }
}

/// The items that round number `round` yields (counting from 0).
pub open spec fn round_items(first: Seq<u64>, second: Seq<u64>, round: nat) -> Seq<u64> {
    let from_first = if round < first.len() {
        seq![first[round as int]]
    } else {
        Seq::empty()
    };
    let from_second = if round < second.len() {
        seq![second[round as int]]
    } else {
        Seq::empty()
    };
    from_first + from_second
}

/// `items` without repeats: each value stands where it first stood.
pub open spec fn first_occurrences(items: Seq<u64>) -> Seq<u64>
    decreases items.len(),
{
    if items.len() == 0 {
        Seq::empty()
    } else if items.drop_last().contains(items.last()) {
        first_occurrences(items.drop_last())
    } else {
        first_occurrences(items.drop_last()).push(items.last())
    }
}

/// The first `budget` items of `items`, or all of them where there are fewer.
pub open spec fn capped(items: Seq<u64>, budget: nat) -> Seq<u64> {
    if budget < items.len() {
        items.take(budget as int)
    } else {
        items
    }
}

/// The word indices that a lookup with result budget `budget` reports, given
/// what its folded and its case-sensitive search hand out.
pub open spec fn selected(folded_hits: Seq<u64>, exact_hits: Seq<u64>, budget: nat) -> Seq<u64> {
    capped(first_occurrences(interleaved_rounds(folded_hits, exact_hits, budget)), budget)
}

/// Rounds after both lists are used up yield nothing.
pub proof fn rounds_stop_when_exhausted(first: Seq<u64>, second: Seq<u64>, done: nat, rounds: nat)
    requires
        first.len() <= done,
        second.len() <= done,
        done <= rounds,
    ensures
        interleaved_rounds(first, second, rounds) == interleaved_rounds(first, second, done),
    decreases rounds,
{
    if rounds > done {
        rounds_stop_when_exhausted(first, second, done, (rounds - 1) as nat);
        assert(round_items(first, second, (rounds - 1) as nat) =~= Seq::<u64>::empty());
        assert(interleaved_rounds(first, second, rounds) =~= interleaved_rounds(
            first,
            second,
            (rounds - 1) as nat,
        ));
    }
}

/// Every interleaved item comes from one of the two lists.
pub proof fn rounds_come_from_inputs(first: Seq<u64>, second: Seq<u64>, rounds: nat)
    ensures
        forall|x: u64| #[trigger]
            interleaved_rounds(first, second, rounds).contains(x) ==> first.contains(x)
                || second.contains(x),
    decreases rounds,
{
    if rounds > 0 {
        let round = (rounds - 1) as nat;
        rounds_come_from_inputs(first, second, round);
        let earlier = interleaved_rounds(first, second, round);
        let now = round_items(first, second, round);
        assert forall|x: u64| #[trigger]
            interleaved_rounds(first, second, rounds).contains(x) implies first.contains(x)
            || second.contains(x) by {
            let all = earlier + now;
            let i = choose|i: int| 0 <= i < all.len() && all[i] == x;
            if i < earlier.len() {
                assert(earlier[i] == x);
                assert(earlier.contains(x));
            } else {
                let j = i - earlier.len();
                assert(now[j] == x);
                if round < first.len() && j == 0 {
                    assert(first[round as int] == x);
                } else {
                    assert(second[round as int] == x);
                }
            }
        }
    }
}

/// The interleaving starts with the first item of `first`, or, where `first`
/// is empty, with the first item of `second`.
pub proof fn rounds_head(first: Seq<u64>, second: Seq<u64>, rounds: nat)
    requires
        rounds >= 1,
        first.len() + second.len() > 0,
    ensures
        interleaved_rounds(first, second, rounds).len() > 0,
        interleaved_rounds(first, second, rounds)[0] == if first.len() > 0 {
            first[0]
        } else {
            second[0]
        },
    decreases rounds,
{
    if rounds == 1 {
        assert(interleaved_rounds(first, second, 0) =~= Seq::<u64>::empty());
        assert(interleaved_rounds(first, second, 1) =~= round_items(first, second, 0));
    } else {
        rounds_head(first, second, (rounds - 1) as nat);
    }
}

/// Removing repeats removes no value and adds none.
pub proof fn first_occurrences_keep_values(items: Seq<u64>)
    ensures
        forall|x: u64| #[trigger] first_occurrences(items).contains(x) <==> items.contains(x),
    decreases items.len(),
{
    if items.len() > 0 {
        let init = items.drop_last();
        let last = items.last();
        first_occurrences_keep_values(init);
        assert forall|x: u64| #[trigger] first_occurrences(items).contains(x) <==> items.contains(
            x,
        ) by {
            if items.contains(x) {
                let i = choose|i: int| 0 <= i < items.len() && items[i] == x;
                if i < init.len() {
                    assert(init[i] == x);
                    assert(init.contains(x));
                    assert(first_occurrences(init).contains(x));
                    let j = choose|j: int|
                        0 <= j < first_occurrences(init).len() && first_occurrences(init)[j] == x;
                    assert(first_occurrences(items)[j] == x);
                } else {
                    assert(x == last);
                    if init.contains(last) {
                        assert(first_occurrences(init).contains(x));
                    } else {
                        assert(first_occurrences(items).last() == x);
                    }
                }
            }
            if first_occurrences(items).contains(x) {
                let j = choose|j: int|
                    0 <= j < first_occurrences(items).len() && first_occurrences(items)[j] == x;
                if j < first_occurrences(init).len() {
                    assert(first_occurrences(init)[j] == x);
                    assert(first_occurrences(init).contains(x));
                    let i = choose|i: int| 0 <= i < init.len() && init[i] == x;
                    assert(items[i] == x);
                } else {
                    assert(x == last);
                    assert(items[items.len() - 1] == x);
                }
            }
        }
    }
}

/// After removing repeats no value stands twice, and the list has not grown.
pub proof fn first_occurrences_are_distinct(items: Seq<u64>)
    ensures
        first_occurrences(items).no_duplicates(),
        first_occurrences(items).len() <= items.len(),
    decreases items.len(),
{
    if items.len() > 0 {
        let init = items.drop_last();
        first_occurrences_are_distinct(init);
        first_occurrences_keep_values(init);
        if !init.contains(items.last()) {
            let kept = first_occurrences(init);
            assert forall|i: int, j: int|
                0 <= i < kept.len() + 1 && 0 <= j < kept.len() + 1 && i != j implies kept.push(
                items.last(),
            )[i] != kept.push(items.last())[j] by {
                if i < kept.len() && j == kept.len() {
                    assert(kept.contains(kept[i]));
                }
                if j < kept.len() && i == kept.len() {
                    assert(kept.contains(kept[j]));
                }
            }
        }
    }
}

/// Removing repeats keeps the first item first.
pub proof fn first_occurrences_head(items: Seq<u64>)
    requires
        items.len() > 0,
    ensures
        first_occurrences(items).len() > 0,
        first_occurrences(items)[0] == items[0],
    decreases items.len(),
{
    let init = items.drop_last();
    if init.len() > 0 {
        first_occurrences_head(init);
    } else {
        assert(first_occurrences(init) =~= Seq::<u64>::empty());
        assert(!init.contains(items.last()));
    }
}

/// Removing repeats keeps the order in which the values were first seen:
/// what is kept of a beginning of the list is a beginning of what is kept of
/// the whole.
pub proof fn first_occurrences_keep_order(items: Seq<u64>, n: int)
    requires
        0 <= n <= items.len(),
    ensures
        first_occurrences(items.take(n)).len() <= first_occurrences(items).len(),
        first_occurrences(items.take(n)) == first_occurrences(items).take(
            first_occurrences(items.take(n)).len() as int,
        ),
    decreases items.len(),
{
    if n == items.len() {
        assert(items.take(n) =~= items);
        assert(first_occurrences(items).take(first_occurrences(items).len() as int)
            =~= first_occurrences(items));
    } else {
        let init = items.drop_last();
        assert(items.take(n) =~= init.take(n));
        first_occurrences_keep_order(init, n);
        let part = first_occurrences(init.take(n));
        assert(first_occurrences(items).take(part.len() as int) =~= first_occurrences(init).take(
            part.len() as int,
        ));
    }
}

/// The reported indices are no more than the budget.
pub proof fn selected_within_budget(folded_hits: Seq<u64>, exact_hits: Seq<u64>, budget: nat)
    ensures
        selected(folded_hits, exact_hits, budget).len() <= budget,
{
}

/// No index is reported twice.
pub proof fn selected_are_distinct(folded_hits: Seq<u64>, exact_hits: Seq<u64>, budget: nat)
    ensures
        selected(folded_hits, exact_hits, budget).no_duplicates(),
{
    first_occurrences_are_distinct(interleaved_rounds(folded_hits, exact_hits, budget));
}

/// Every reported index was handed out by one of the two searches.
pub proof fn selected_come_from_hits(folded_hits: Seq<u64>, exact_hits: Seq<u64>, budget: nat)
    ensures
        forall|x: u64| #[trigger]
            selected(folded_hits, exact_hits, budget).contains(x) ==> folded_hits.contains(x)
                || exact_hits.contains(x),
{
    let attempts = interleaved_rounds(folded_hits, exact_hits, budget);
    rounds_come_from_inputs(folded_hits, exact_hits, budget);
    first_occurrences_keep_values(attempts);
    assert forall|x: u64| #[trigger]
        selected(folded_hits, exact_hits, budget).contains(x) implies folded_hits.contains(x)
        || exact_hits.contains(x) by {
        let chosen = selected(folded_hits, exact_hits, budget);
        let i = choose|i: int| 0 <= i < chosen.len() && chosen[i] == x;
        assert(first_occurrences(attempts)[i] == x);
        assert(first_occurrences(attempts).contains(x));
    }
}

/// With a budget of at least one, the first reported index is the first hit
/// of the folded search, or, where that search finds nothing, the first hit
/// of the case-sensitive one.
pub proof fn selected_head(folded_hits: Seq<u64>, exact_hits: Seq<u64>, budget: nat)
    requires
        budget >= 1,
        folded_hits.len() + exact_hits.len() > 0,
    ensures
        selected(folded_hits, exact_hits, budget).len() > 0,
        selected(folded_hits, exact_hits, budget)[0] == if folded_hits.len() > 0 {
            folded_hits[0]
        } else {
            exact_hits[0]
        },
{
    rounds_head(folded_hits, exact_hits, budget);
    first_occurrences_head(interleaved_rounds(folded_hits, exact_hits, budget));
}

/// A `hashbrown::HashSet` of the word indices seen so far.
#[verifier::external_body]
pub struct SeenSet {
    inner: hashbrown::HashSet<u64>,
}

/// The indices that a [`SeenSet`] holds.
pub uninterp spec fn seen_values(set: SeenSet) -> Set<u64>;

/// `hashbrown::HashSet::new`. Trusted: the new set holds nothing.
#[verifier::external_body]
fn seen_new() -> (r: SeenSet)
    ensures
        seen_values(r) == Set::<u64>::empty(),
{
    SeenSet { inner: hashbrown::HashSet::new() }
}

/// `hashbrown::HashSet::insert`. Trusted: the set afterwards holds `value`
/// besides what it held, and the result says whether `value` was new to it.
#[verifier::external_body]
fn seen_insert(set: &mut SeenSet, value: u64) -> (r: bool)
    ensures
        seen_values(*final(set)) == seen_values(*old(set)).insert(value),
        r == !seen_values(*old(set)).contains(value),
{
    set.inner.insert(value)
}

/// Removes the repeats from `items`, keeping each index where it was first
/// seen.
pub fn dedup_preserving_order(items: &Vec<u64>) -> (r: Vec<u64>)
    ensures
        r@ == first_occurrences(items@),
{
    let mut seen = seen_new();
    let mut out: Vec<u64> = Vec::new();
    let mut i: usize = 0;
    while i < items.len()
        invariant
            i <= items.len(),
            out@ == first_occurrences(items@.take(i as int)),
            forall|x: u64| seen_values(seen).contains(x) <==> items@.take(i as int).contains(x),
        decreases items.len() - i,
    {
        let item = items[i];
        let ghost before = items@.take(i as int);
        let ghost now = items@.take(i + 1);
        let is_new = seen_insert(&mut seen, item);
        proof {
            assert(now.drop_last() =~= before);
            assert(now.last() == item);
            assert forall|x: u64| seen_values(seen).contains(x) <==> now.contains(x) by {
                if now.contains(x) {
                    let j = choose|j: int| 0 <= j < now.len() && now[j] == x;
                    if j < i {
                        assert(before[j] == x);
                    }
                }
                if before.contains(x) {
                    let j = choose|j: int| 0 <= j < before.len() && before[j] == x;
                    assert(now[j] == x);
                }
                if x == item {
                    assert(now[i as int] == x);
                }
            }
        }
        if is_new {
            out.push(item);
        }
        i += 1;
    }
    assert(items@.take(i as int) =~= items@);
    out
}

} // verus!
