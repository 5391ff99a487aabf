//! What holds of every allocation, proved from the definitions.

use vstd::prelude::*;

use crate::operation::allocator::{
    lemma_deposits_capped, lemma_partition_bounds, spec_deposits, spec_remainder, spec_spare_cash,
    spec_total, spec_total_withdrawals, spec_transactions, spec_withdrawals,
};
use crate::pot::Pot;

verus! {

/// The sum of a list is the amount of its first entry plus the sum of the
/// rest.
pub proof fn lemma_total_first(entries: Seq<(Pot, int)>)
    requires
        entries.len() > 0,
    ensures
        spec_total(entries) == entries.first().1 + spec_total(entries.drop_first()),
    decreases entries.len(),
{
    if entries.len() == 1 {
        assert(entries.drop_last() =~= Seq::<(Pot, int)>::empty());
        assert(entries.drop_first() =~= Seq::<(Pot, int)>::empty());
        assert(spec_total(entries.drop_last()) == 0);
    } else {
        lemma_total_first(entries.drop_last());
        assert(entries.drop_last().drop_first() =~= entries.drop_first().drop_last());
        assert(entries.drop_last().first() == entries.first());
        assert(entries.drop_first().last() == entries.last());
    }
}

/// The sum of positive amounts is not negative.
pub proof fn lemma_total_of_positive(entries: Seq<(Pot, int)>)
    requires
        forall|k: int| 0 <= k < entries.len() ==> (#[trigger] entries[k]).1 > 0,
    ensures
        spec_total(entries) >= 0,
    decreases entries.len(),
{
    if entries.len() > 0 {
        assert forall|k: int| 0 <= k < entries.drop_last().len() implies (
        #[trigger] entries.drop_last()[k]).1 > 0 by {
            assert(entries.drop_last()[k] == entries[k]);
        }
        lemma_total_of_positive(entries.drop_last());
    }
}

/// The sum of negative amounts is not positive.
pub proof fn lemma_total_of_negative(entries: Seq<(Pot, int)>)
    requires
        forall|k: int| 0 <= k < entries.len() ==> (#[trigger] entries[k]).1 < 0,
    ensures
        spec_total(entries) <= 0,
    decreases entries.len(),
{
    if entries.len() > 0 {
        assert forall|k: int| 0 <= k < entries.drop_last().len() implies (
        #[trigger] entries.drop_last()[k]).1 < 0 by {
            assert(entries.drop_last()[k] == entries[k]);
        }
        lemma_total_of_negative(entries.drop_last());
    }
}

/// The withdrawals of an allocation are exactly the pots that hold more than
/// their goal, each with what it holds above the goal.
///
/// Every pot with `goal < balance` has an entry with the amount
/// `-(balance - goal)` among the withdrawals, every withdrawal is such an
/// entry, and the entries of an allocation with a negative amount are the
/// withdrawals and nothing else.
pub proof fn lemma_withdrawals_exact(balance: int, goal: int, pots: Seq<Pot>)
    ensures
        forall|i: int|
            0 <= i < pots.len() && (#[trigger] pots[i]).goal_amount->0 < pots[i].balance
                ==> spec_withdrawals(pots).contains(
                (pots[i], -(pots[i].balance - pots[i].goal_amount->0)),
            ),
        forall|k: int|
            0 <= k < spec_withdrawals(pots).len() ==> {
                let (pot, amount) = #[trigger] spec_withdrawals(pots)[k];
                &&& pots.contains(pot)
                &&& pot.goal_amount->0 < pot.balance
                &&& amount == -(pot.balance - pot.goal_amount->0)
            },
        spec_transactions(balance, goal, pots).filter(|entry: (Pot, int)| entry.1 < 0)
            == spec_withdrawals(pots),
{
    let above = |pot: Pot| pot.spec_diff() < 0;
    let entry_of = |pot: Pot| (pot, pot.spec_diff());
    let negative = |entry: (Pot, int)| entry.1 < 0;
    let taken = spec_withdrawals(pots);
    assert forall|i: int|
        0 <= i < pots.len() && (#[trigger] pots[i]).goal_amount->0
            < pots[i].balance implies taken.contains(
        (pots[i], -(pots[i].balance - pots[i].goal_amount->0)),
    ) by {
        pots.lemma_filter_contains(above, i);
        let at = choose|at: int|
            0 <= at < pots.filter(above).len() && pots.filter(above)[at] == pots[i];
        assert(taken[at] == (pots[i], pots[i].spec_diff()));
    }
    assert forall|k: int| 0 <= k < taken.len() implies {
        let (pot, amount) = #[trigger] taken[k];
        &&& pots.contains(pot)
        &&& pot.goal_amount->0 < pot.balance
        &&& amount == -(pot.balance - pot.goal_amount->0)
    } by {
        pots.lemma_filter_pred(above, k);
        assert(pots.filter(above).contains(pots.filter(above)[k]));
        pots.lemma_filter_contains_rev(above, pots.filter(above)[k]);
    }
    let given = spec_deposits(spec_spare_cash(balance, goal, pots), spec_remainder(pots));
    lemma_partition_bounds(pots);
    lemma_deposits_capped(spec_spare_cash(balance, goal, pots), spec_remainder(pots));
    Seq::filter_distributes_over_add(taken, given, negative);
    lemma_filter_keeps_all(taken, negative);
    lemma_filter_drops_all(given, negative);
    assert(taken + Seq::<(Pot, int)>::empty() =~= taken);
}

/// A filter that every entry passes changes nothing.
proof fn lemma_filter_keeps_all(entries: Seq<(Pot, int)>, pred: spec_fn((Pot, int)) -> bool)
    requires
        forall|k: int| 0 <= k < entries.len() ==> pred(#[trigger] entries[k]),
    ensures
        entries.filter(pred) == entries,
    decreases entries.len(),
{
    reveal(Seq::filter);
    if entries.len() > 0 {
        assert forall|k: int| 0 <= k < entries.drop_last().len() implies pred(
            #[trigger] entries.drop_last()[k],
        ) by {
            assert(entries.drop_last()[k] == entries[k]);
        }
        lemma_filter_keeps_all(entries.drop_last(), pred);
        assert(entries.drop_last().push(entries.last()) =~= entries);
    }
}

/// A filter that no entry passes leaves nothing.
proof fn lemma_filter_drops_all(entries: Seq<(Pot, int)>, pred: spec_fn((Pot, int)) -> bool)
    requires
        forall|k: int| 0 <= k < entries.len() ==> !pred(#[trigger] entries[k]),
    ensures
        entries.filter(pred) == Seq::<(Pot, int)>::empty(),
    decreases entries.len(),
{
    reveal(Seq::filter);
    if entries.len() > 0 {
        assert forall|k: int| 0 <= k < entries.drop_last().len() implies !pred(
            #[trigger] entries.drop_last()[k],
        ) by {
            assert(entries.drop_last()[k] == entries[k]);
        }
        lemma_filter_drops_all(entries.drop_last(), pred);
    }
}

/// The deposits add up to the spare cash, or to all that the pots need if
/// that is less, and to nothing where there is no spare cash.
///
/// So the sum never exceeds `max(0, spare)`, and it falls short of it only
/// where the pots in need are exhausted before the spare cash is.
pub proof fn lemma_deposits_total(spare: int, needs: Seq<(Pot, int)>)
    requires
        forall|k: int| 0 <= k < needs.len() ==> (#[trigger] needs[k]).1 > 0,
    ensures
        spec_total(spec_deposits(spare, needs)) == if spare <= 0 {
            0
        } else if spare <= spec_total(needs) {
            spare
        } else {
            spec_total(needs)
        },
    decreases needs.len(),
{
    lemma_total_of_positive(needs);
    if needs.len() > 0 && spare > 0 {
        let (pot, need) = needs.first();
        let deposit = if spare <= need {
            spare
        } else {
            need
        };
        let rest = needs.drop_first();
        assert forall|k: int| 0 <= k < rest.len() implies (#[trigger] rest[k]).1 > 0 by {
            assert(rest[k] == needs[k + 1]);
        }
        lemma_deposits_total(spare - deposit, rest);
        lemma_total_of_positive(rest);
        lemma_total_first(needs);
        let all = spec_deposits(spare, needs);
        assert(all == seq![(pot, deposit)] + spec_deposits(spare - deposit, rest));
        lemma_total_first(all);
        assert(all.drop_first() =~= spec_deposits(spare - deposit, rest));
    }
}

/// The deposits of an allocation add up to no more than the spare cash of
/// the account, `balance - goal` less what the withdrawals bring in, and to
/// nothing where that is negative. They add up to exactly that unless the
/// pots below their goal need less in all.
pub proof fn lemma_deposits_within_spare_cash(balance: int, goal: int, pots: Seq<Pot>)
    ensures
        ({
            let spare = spec_spare_cash(balance, goal, pots);
            let given = spec_deposits(spare, spec_remainder(pots));
            let most = if spare > 0 {
                spare
            } else {
                0
            };
            &&& spare == balance - goal - spec_total_withdrawals(pots)
            &&& spec_total_withdrawals(pots) >= 0
            &&& 0 <= spec_total(given) <= most
            &&& spec_total(given) == most || spec_total(given) == spec_total(
                spec_remainder(pots),
            )
        }),
{
    lemma_partition_bounds(pots);
    lemma_deposits_total(spec_spare_cash(balance, goal, pots), spec_remainder(pots));
    lemma_total_of_positive(spec_remainder(pots));
    lemma_total_of_negative(spec_withdrawals(pots));
}

/// Whether entry `k` of `given` is what the walk down `needs` hands out at
/// that point: something is left of `spare` after the entries before it, and
/// the entry gives pot `k` what is left or what it needs, whichever is less.
pub open spec fn spec_walk_step(
    spare: int,
    needs: Seq<(Pot, int)>,
    given: Seq<(Pot, int)>,
    k: int,
) -> bool {
    let left = spare - spec_total(given.take(k));
    &&& left > 0
    &&& given[k].0 == needs[k].0
    &&& given[k].1 == if left <= needs[k].1 {
        left
    } else {
        needs[k].1
    }
}

/// How the walk down the pots in need goes: the pots get their entries in
/// order, each deposit is made while something is left, and is what is left
/// or what the pot needs, whichever is less; and where a pot in need gets no
/// entry, nothing was left.
pub proof fn lemma_deposits_walk(spare: int, needs: Seq<(Pot, int)>)
    requires
        forall|k: int| 0 <= k < needs.len() ==> (#[trigger] needs[k]).1 > 0,
    ensures
        spec_deposits(spare, needs).len() <= needs.len(),
        forall|k: int|
            0 <= k < spec_deposits(spare, needs).len() ==> #[trigger] spec_walk_step(
                spare,
                needs,
                spec_deposits(spare, needs),
                k,
            ),
        spec_deposits(spare, needs).len() < needs.len() ==> spare - spec_total(
            spec_deposits(spare, needs),
        ) <= 0,
    decreases needs.len(),
{
    let all = spec_deposits(spare, needs);
    if needs.len() > 0 && spare > 0 {
        let (pot, need) = needs.first();
        let deposit = if spare <= need {
            spare
        } else {
            need
        };
        let rest = needs.drop_first();
        assert forall|k: int| 0 <= k < rest.len() implies (#[trigger] rest[k]).1 > 0 by {
            assert(rest[k] == needs[k + 1]);
        }
        lemma_deposits_walk(spare - deposit, rest);
        let later = spec_deposits(spare - deposit, rest);
        assert(all == seq![(pot, deposit)] + later);
        assert(all.drop_first() =~= later);
        lemma_total_first(all);
        assert forall|k: int| 0 <= k < all.len() implies #[trigger] spec_walk_step(
            spare,
            needs,
            all,
            k,
        ) by {
            if k == 0 {
                assert(all.take(0) =~= Seq::<(Pot, int)>::empty());
                assert(spec_total(all.take(0)) == 0);
            } else {
                assert(spec_walk_step(spare - deposit, rest, later, k - 1));
                assert(all[k] == later[k - 1]);
                assert(rest[k - 1] == needs[k]);
                lemma_total_first(all.take(k));
                assert(all.take(k).drop_first() =~= later.take(k - 1));
                assert(all.take(k).first() == (pot, deposit));
            }
        }
    } else {
        assert(all =~= Seq::<(Pot, int)>::empty());
        assert(spec_total(all) == 0);
    }
}

/// The deposits of an allocation are never negative and never more than
/// their pot needs, they go to the pots below their goal in the order of the
/// pots, and once no spare cash is left no further pot gets an entry.
///
/// In full: the entries of an allocation with a positive amount are its
/// deposits and nothing else; deposit `k` goes to the pot of entry `k` of the
/// pots below their goal, while spare cash is left, and is what is left or
/// what the pot needs, whichever is less; and if a pot below its goal gets no
/// entry, the spare cash less the deposits is not positive.
pub proof fn lemma_deposits_in_order(balance: int, goal: int, pots: Seq<Pot>)
    ensures
        ({
            let spare = spec_spare_cash(balance, goal, pots);
            let needs = spec_remainder(pots);
            let given = spec_deposits(spare, needs);
            &&& spec_transactions(balance, goal, pots).filter(|entry: (Pot, int)| entry.1 > 0)
                == given
            &&& given.len() <= needs.len()
            &&& forall|k: int|
                0 <= k < given.len() ==> {
                    &&& 0 < (#[trigger] given[k]).1 <= needs[k].1
                    &&& needs[k].1 == given[k].0.goal_amount->0 - given[k].0.balance
                    &&& spec_walk_step(spare, needs, given, k)
                }
            &&& given.len() < needs.len() ==> spare - spec_total(given) <= 0
        }),
{
    let spare = spec_spare_cash(balance, goal, pots);
    let needs = spec_remainder(pots);
    let given = spec_deposits(spare, needs);
    let taken = spec_withdrawals(pots);
    let positive = |entry: (Pot, int)| entry.1 > 0;
    lemma_partition_bounds(pots);
    lemma_deposits_capped(spare, needs);
    lemma_deposits_walk(spare, needs);
    Seq::filter_distributes_over_add(taken, given, positive);
    lemma_filter_drops_all(taken, positive);
    lemma_filter_keeps_all(given, positive);
    assert(Seq::<(Pot, int)>::empty() + given =~= given);
    assert forall|k: int| 0 <= k < given.len() implies needs[k].1 == (
    #[trigger] given[k]).0.goal_amount->0 - given[k].0.balance by {
        assert(given[k].0 == needs[k].0);
    }
}

/// Where every pot sits on its goal, there is nothing to do.
pub proof fn lemma_balanced_pots_need_nothing(balance: int, goal: int, pots: Seq<Pot>)
    requires
        forall|i: int| 0 <= i < pots.len() ==> (#[trigger] pots[i]).spec_diff() == 0,
    ensures
        spec_transactions(balance, goal, pots) == Seq::<(Pot, int)>::empty(),
{
    let above = |pot: Pot| pot.spec_diff() < 0;
    let below = |pot: Pot| pot.spec_diff() > 0;
    lemma_no_pot_passes(pots, above);
    lemma_no_pot_passes(pots, below);
    assert(spec_withdrawals(pots) =~= Seq::<(Pot, int)>::empty());
    assert(spec_remainder(pots) =~= Seq::<(Pot, int)>::empty());
    assert(spec_transactions(balance, goal, pots) =~= Seq::<(Pot, int)>::empty());
}

/// A filter that no pot passes leaves nothing.
proof fn lemma_no_pot_passes(pots: Seq<Pot>, pred: spec_fn(Pot) -> bool)
    requires
        forall|i: int| 0 <= i < pots.len() ==> !pred(#[trigger] pots[i]),
    ensures
        pots.filter(pred) == Seq::<Pot>::empty(),
    decreases pots.len(),
{
    reveal(Seq::filter);
    if pots.len() > 0 {
        assert forall|i: int| 0 <= i < pots.drop_last().len() implies !pred(
            #[trigger] pots.drop_last()[i],
        ) by {
            assert(pots.drop_last()[i] == pots[i]);
        }
        lemma_no_pot_passes(pots.drop_last(), pred);
    }
}

} // verus!
