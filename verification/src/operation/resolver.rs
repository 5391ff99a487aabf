//! Matching of configured pot names against the live pots of one account.

use vstd::prelude::*;
use vstd::string::StringExecFns;

use crate::names::{normalise, same_chars, spec_normalise};
use crate::operation::error::{Error, ErrorView};
use crate::pot::Pot;

verus! {

/// Whether a pot may be swept for the account `account_id`: it belongs to
/// that account and has not been deleted.
pub open spec fn spec_eligible(pot: Pot, account_id: Seq<char>) -> bool {
    !pot.deleted && pot.current_account_id@ == account_id
}

/// The pots of `pots` that are eligible for `account_id`, in their order.
pub open spec fn spec_candidates(pots: Seq<Pot>, account_id: Seq<char>) -> Seq<Pot> {
    pots.filter(|pot: Pot| spec_eligible(pot, account_id))
}

/// Whether `i` is the position of the first pot of `pool` without a goal.
pub open spec fn spec_first_without_goal(pool: Seq<Pot>, i: int) -> bool {
    &&& 0 <= i < pool.len()
    &&& pool[i].goal_amount is None
    &&& forall|j: int| 0 <= j < i ==> (#[trigger] pool[j]).goal_amount is Some
}

/// Whether `i` is the position of the first pot of `pool` whose normalised
/// name is `key`.
pub open spec fn spec_first_match(pool: Seq<Pot>, key: Seq<char>, i: int) -> bool {
    &&& 0 <= i < pool.len()
    &&& spec_normalise(pool[i].name@) == key
    &&& forall|j: int| 0 <= j < i ==> spec_normalise((#[trigger] pool[j]).name@) != key
}

/// Takes, for each name in turn, the first pot of the pool that matches it
/// out of the pool. Fails at the first name that matches no remaining pot.
pub open spec fn spec_pick(pool: Seq<Pot>, names: Seq<String>) -> Result<Seq<Pot>, ErrorView>
    decreases names.len(),
{
    if names.len() == 0 {
        Ok(Seq::empty())
    } else {
        let key = spec_normalise(names.first()@);
        if exists|i: int| spec_first_match(pool, key, i) {
            let i = choose|i: int| spec_first_match(pool, key, i);
            match spec_pick(pool.remove(i), names.drop_first()) {
                Ok(rest) => Ok(seq![pool[i]] + rest),
                Err(e) => Err(e),
            }
        } else {
            Err(ErrorView::NotFound(names.first()@))
        }
    }
}

/// The pots that the configured `names` select among `pots` for the account
/// `account_id`, or the reason why there is no such selection.
pub open spec fn spec_resolve(account_id: Seq<char>, pots: Seq<Pot>, names: Seq<String>) -> Result<
    Seq<Pot>,
    ErrorView,
> {
    let pool = spec_candidates(pots, account_id);
    if exists|i: int| spec_first_without_goal(pool, i) {
        let i = choose|i: int| spec_first_without_goal(pool, i);
        Err(ErrorView::NoPotGoal(pool[i].name@))
    } else {
        spec_pick(pool, names)
    }
}

/// The pots that a sequence of references points to.
pub open spec fn spec_pots(refs: Seq<&Pot>) -> Seq<Pot> {
    refs.map_values(|pot: &Pot| *pot)
}

/// `picked` put in front of a later selection, if there is one.
pub open spec fn spec_prepend(picked: Seq<Pot>, later: Result<Seq<Pot>, ErrorView>) -> Result<
    Seq<Pot>,
    ErrorView,
> {
    match later {
        Ok(rest) => Ok(picked + rest),
        Err(e) => Err(e),
    }
}

/// The eligible pots of a catalog are those of any prefix followed by those
/// of the rest.
proof fn lemma_candidates_split(pots: Seq<Pot>, account_id: Seq<char>, k: int)
    requires
        0 <= k <= pots.len(),
    ensures
        spec_candidates(pots, account_id) == spec_candidates(pots.take(k), account_id)
            + spec_candidates(pots.skip(k), account_id),
{
    let eligible = |pot: Pot| spec_eligible(pot, account_id);
    Seq::filter_distributes_over_add(pots.take(k), pots.skip(k), eligible);
    assert(pots.take(k) + pots.skip(k) =~= pots);
}

/// Extending a prefix of the catalog by one pot extends the eligible pots by
/// that pot exactly when it is eligible.
proof fn lemma_candidates_step(pots: Seq<Pot>, account_id: Seq<char>, k: int)
    requires
        0 <= k < pots.len(),
    ensures
        spec_candidates(pots.take(k + 1), account_id) == if spec_eligible(pots[k], account_id) {
            spec_candidates(pots.take(k), account_id).push(pots[k])
        } else {
            spec_candidates(pots.take(k), account_id)
        },
{
    let eligible = |pot: Pot| spec_eligible(pot, account_id);
    pots.take(k).lemma_filter_push(pots[k], eligible);
    assert(pots.take(k + 1) =~= pots.take(k).push(pots[k]));
}

/// Finds the first of `keys` that equals `key`.
fn position(keys: &Vec<Vec<char>>, key: &Vec<char>) -> (found: Option<usize>)
    ensures
        match found {
            Some(i) => {
                &&& i < keys.len()
                &&& keys[i as int]@ == key@
                &&& forall|j: int| 0 <= j < i ==> (#[trigger] keys[j])@ != key@
            },
            None => forall|j: int| 0 <= j < keys.len() ==> (#[trigger] keys[j])@ != key@,
        },
{
    let mut i: usize = 0;
    while i < keys.len()
        invariant
            i <= keys.len(),
            forall|j: int| 0 <= j < i ==> (#[trigger] keys[j])@ != key@,
        decreases keys.len() - i,
    {
        if same_chars(&keys[i], key) {
            return Some(i);
        }
        i += 1;
    }
    None
}

/// Collects the pots of `pots` that belong to `account_id` and are not
/// deleted, and fails at the first of them that has no goal.
fn candidates<'a>(account_id: &str, pots: &'a [Pot]) -> (collected: Result<Vec<&'a Pot>, Error>)
    ensures
        match collected {
            Ok(active) => {
                &&& spec_pots(active@) == spec_candidates(pots@, account_id@)
                &&& !exists|i: int|
                    spec_first_without_goal(spec_candidates(pots@, account_id@), i)
            },
            Err(e) => {
                let pool = spec_candidates(pots@, account_id@);
                &&& exists|i: int| spec_first_without_goal(pool, i)
                &&& e@ == ErrorView::NoPotGoal(
                    pool[choose|i: int| spec_first_without_goal(pool, i)].name@,
                )
            },
        },
{
    let account = String::from_str(account_id);
    let mut active: Vec<&'a Pot> = Vec::new();
    let mut i: usize = 0;
    proof {
        reveal(Seq::filter);
        assert(spec_candidates(pots@.take(0), account_id@) =~= Seq::<Pot>::empty());
        assert(spec_pots(active@) =~= Seq::<Pot>::empty());
    }
    while i < pots.len()
        invariant
            i <= pots.len(),
            account@ == account_id@,
            spec_pots(active@) == spec_candidates(pots@.take(i as int), account_id@),
            forall|j: int| 0 <= j < active.len() ==> (#[trigger] active[j]).goal_amount is Some,
        decreases pots.len() - i,
    {
        let pot = &pots[i];
        proof {
            lemma_candidates_step(pots@, account_id@, i as int);
        }
        if !pot.deleted && pot.current_account_id == account {
            if pot.goal_amount.is_none() {
                proof {
                    let pool = spec_candidates(pots@, account_id@);
                    let at = active.len() as int;
                    let head = spec_candidates(pots@.take(i as int + 1), account_id@);
                    lemma_candidates_split(pots@, account_id@, i as int + 1);
                    assert(head == spec_pots(active@).push(*pot));
                    assert(forall|j: int| 0 <= j <= at ==> (#[trigger] pool[j]) == head[j]);
                    assert(forall|j: int|
                        0 <= j < at ==> (#[trigger] pool[j]) == *active[j]);
                    assert(pool[at] == *pot);
                    assert(spec_first_without_goal(pool, at));
                    let chosen = choose|j: int| spec_first_without_goal(pool, j);
                    assert(chosen == at);
                }
                return Err(Error::NoPotGoal(pot.name.clone()));
            }
            active.push(pot);
            proof {
                assert(spec_pots(active@) =~= spec_candidates(pots@.take(i as int), account_id@).push(
                    *pot,
                ));
            }
        }
        i += 1;
    }
    proof {
        assert(pots@.take(pots.len() as int) =~= pots@);
        let pool = spec_candidates(pots@, account_id@);
        assert(forall|j: int| 0 <= j < pool.len() ==> (#[trigger] pool[j]) == *active[j]);
    }
    Ok(active)
}

/// Takes a pot out of `active` for each of `pot_names` in turn.
fn pick<'a>(eligible: Vec<&'a Pot>, pot_names: &[String]) -> (picked: Result<Vec<&'a Pot>, Error>)
    ensures
        match picked {
            Ok(found) => spec_pick(spec_pots(eligible@), pot_names@) == Ok::<Seq<Pot>, ErrorView>(
                spec_pots(found@),
            ),
            Err(e) => spec_pick(spec_pots(eligible@), pot_names@) == Err::<Seq<Pot>, ErrorView>(
                e@,
            ),
        },
{
    let ghost pool = spec_pots(eligible@);
    let mut active = eligible;
    let mut keys: Vec<Vec<char>> = Vec::new();
    let mut k: usize = 0;
    while k < active.len()
        invariant
            k <= active.len(),
            keys.len() == k,
            spec_pots(active@) == pool,
            forall|j: int| 0 <= j < k ==> (#[trigger] keys[j])@ == spec_normalise(active[j].name@),
        decreases active.len() - k,
    {
        keys.push(normalise(active[k].name.as_str()));
        k += 1;
    }
    let mut info: Vec<&'a Pot> = Vec::new();
    let mut n: usize = 0;
    proof {
        assert(pot_names@.skip(0) =~= pot_names@);
        assert(spec_pots(info@) =~= Seq::<Pot>::empty());
        match spec_pick(pool, pot_names@) {
            Ok(rest) => {
                assert(Seq::<Pot>::empty() + rest =~= rest);
            },
            Err(_) => {},
        }
    }
    while n < pot_names.len()
        invariant
            n <= pot_names.len(),
            keys.len() == active.len(),
            pool == spec_pots(eligible@),
            forall|j: int|
                0 <= j < keys.len() ==> (#[trigger] keys[j])@ == spec_normalise(active[j].name@),
            spec_pick(pool, pot_names@) == spec_prepend(
                spec_pots(info@),
                spec_pick(spec_pots(active@), pot_names@.skip(n as int)),
            ),
        decreases pot_names.len() - n,
    {
        let name = &pot_names[n];
        let key = normalise(name.as_str());
        let ghost remaining = spec_pots(active@);
        let ghost later = pot_names@.skip(n as int);
        proof {
            assert(later.len() > 0);
            assert(later.first() == *name);
            assert(later.drop_first() =~= pot_names@.skip(n as int + 1));
            assert(forall|j: int|
                0 <= j < remaining.len() ==> spec_normalise((#[trigger] remaining[j]).name@)
                    == keys[j]@);
        }
        match position(&keys, &key) {
            None => {
                proof {
                    assert(forall|j: int| !spec_first_match(remaining, key@, j));
                }
                return Err(Error::NotFound(name.clone()));
            },
            Some(at) => {
                proof {
                    assert(spec_first_match(remaining, key@, at as int));
                    let chosen = choose|j: int| spec_first_match(remaining, key@, j);
                    assert(spec_first_match(remaining, key@, chosen));
                    assert(chosen == at);
                }
                let ghost before = spec_pots(info@);
                let pot = active.remove(at);
                let _ = keys.remove(at);
                info.push(pot);
                proof {
                    assert(spec_pots(active@) =~= remaining.remove(at as int));
                    assert(spec_pots(info@) =~= before.push(remaining[at as int]));
                    match spec_pick(remaining.remove(at as int), later.drop_first()) {
                        Ok(rest) => {
                            assert(before + (seq![remaining[at as int]] + rest) =~= spec_pots(info@)
                                + rest);
                        },
                        Err(_) => {},
                    }
                }
            },
        }
        n += 1;
    }
    proof {
        assert(pot_names@.skip(n as int).len() == 0);
        assert(spec_pots(info@) + Seq::<Pot>::empty() =~= spec_pots(info@));
    }
    Ok(info)
}

/// Resolves the configured pot names against the live pots of an account.
///
/// Only pots that belong to `account_id` and are not deleted take part, and
/// each of them must have a goal. Every name then takes the first remaining
/// pot with the same normalised name, so the result has one pot per name, in
/// the order of the names, and no pot twice.
pub fn sort_and_filter_pots<'a>(account_id: &str, pots: &'a [Pot], pot_names: &[String]) -> (resolved:
    Result<Vec<&'a Pot>, Error>)
    ensures
        match resolved {
            Ok(found) => spec_resolve(account_id@, pots@, pot_names@) == Ok::<Seq<Pot>, ErrorView>(
                spec_pots(found@),
            ),
            Err(e) => spec_resolve(account_id@, pots@, pot_names@) == Err::<Seq<Pot>, ErrorView>(
                e@,
            ),
        },
{
    match candidates(account_id, pots) {
        Ok(active) => pick(active, pot_names),
        Err(e) => Err(e),
    }
}

/// What a selection is made of: one pot for each name, in the order of the
/// names, each taken from the pool and equal to its name in normal form.
pub proof fn lemma_pick_selects(pool: Seq<Pot>, names: Seq<String>)
    ensures
        match spec_pick(pool, names) {
            Ok(found) => {
                &&& found.len() == names.len()
                &&& forall|k: int|
                    0 <= k < found.len() ==> pool.contains(#[trigger] found[k])
                        && spec_normalise(found[k].name@) == spec_normalise(names[k]@)
            },
            Err(e) => exists|k: int|
                0 <= k < names.len() && e == ErrorView::NotFound((#[trigger] names[k])@),
        },
    decreases names.len(),
{
    if names.len() > 0 {
        let key = spec_normalise(names.first()@);
        if exists|i: int| spec_first_match(pool, key, i) {
            let i = choose|i: int| spec_first_match(pool, key, i);
            let rest_pool = pool.remove(i);
            let rest_names = names.drop_first();
            lemma_pick_selects(rest_pool, rest_names);
            match spec_pick(rest_pool, rest_names) {
                Ok(rest) => {
                    let found = seq![pool[i]] + rest;
                    assert forall|k: int| 0 <= k < found.len() implies pool.contains(
                        #[trigger] found[k],
                    ) && spec_normalise(found[k].name@) == spec_normalise(names[k]@) by {
                        if k == 0 {
                            assert(found[0] == pool[i]);
                        } else {
                            assert(found[k] == rest[k - 1]);
                            assert(rest_names[k - 1] == names[k]);
                            let at = choose|at: int|
                                0 <= at < rest_pool.len() && rest_pool[at] == rest[k - 1];
                            if at < i {
                                assert(pool[at] == rest[k - 1]);
                            } else {
                                assert(pool[at + 1] == rest[k - 1]);
                            }
                        }
                    }
                },
                Err(e) => {
                    let k = choose|k: int|
                        0 <= k < rest_names.len() && e == ErrorView::NotFound(
                            (#[trigger] rest_names[k])@,
                        );
                    assert(names[k + 1] == rest_names[k]);
                },
            }
        } else {
            assert(names[0] == names.first());
        }
    }
}

/// Every pot that the names select belongs to the account, is not deleted
/// and has a goal, whatever else the catalog holds under the same name.
pub proof fn lemma_resolved_are_eligible(account_id: Seq<char>, pots: Seq<Pot>, names: Seq<String>)
    ensures
        match spec_resolve(account_id, pots, names) {
            Ok(found) => {
                &&& found.len() == names.len()
                &&& forall|k: int|
                    0 <= k < found.len() ==> {
                        &&& pots.contains(#[trigger] found[k])
                        &&& !found[k].deleted
                        &&& found[k].current_account_id@ == account_id
                        &&& found[k].goal_amount is Some
                        &&& spec_normalise(found[k].name@) == spec_normalise(names[k]@)
                    }
            },
            Err(_) => true,
        },
{
    let pool = spec_candidates(pots, account_id);
    let eligible = |pot: Pot| spec_eligible(pot, account_id);
    if !exists|i: int| spec_first_without_goal(pool, i) {
        lemma_pick_selects(pool, names);
        match spec_pick(pool, names) {
            Ok(found) => {
                assert forall|k: int| 0 <= k < found.len() implies {
                    &&& pots.contains(#[trigger] found[k])
                    &&& !found[k].deleted
                    &&& found[k].current_account_id@ == account_id
                    &&& found[k].goal_amount is Some
                    &&& spec_normalise(found[k].name@) == spec_normalise(names[k]@)
                } by {
                    let at = choose|at: int| 0 <= at < pool.len() && pool[at] == found[k];
                    assert(pool.contains(found[k]));
                    pots.lemma_filter_pred(eligible, at);
                    pots.lemma_filter_contains_rev(eligible, found[k]);
                    lemma_all_have_goals(pool, at);
                }
            },
            Err(_) => {},
        }
    }
}

/// Where no pot of the pool is the first without a goal, each has one.
proof fn lemma_all_have_goals(pool: Seq<Pot>, at: int)
    requires
        !exists|i: int| spec_first_without_goal(pool, i),
        0 <= at < pool.len(),
    ensures
        pool[at].goal_amount is Some,
    decreases at,
{
    if pool[at].goal_amount is None {
        if forall|j: int| 0 <= j < at ==> (#[trigger] pool[j]).goal_amount is Some {
            assert(spec_first_without_goal(pool, at));
        } else {
            let j = choose|j: int| 0 <= j < at && !((#[trigger] pool[j]).goal_amount is Some);
            lemma_all_have_goals(pool, j);
        }
    }
}

} // verus!
