//! What holds of every resolution of names against a pool of pots, proved
//! from the definitions.

use vstd::prelude::*;

use crate::names::spec_normalise;
use crate::operation::error::ErrorView;
use crate::operation::resolver::{
    spec_candidates, spec_first_match, spec_first_without_goal, spec_pick, spec_resolve,
};
use crate::pot::Pot;

verus! {

/// Whether some pot of `pool` has the normalised name `key`.
pub open spec fn spec_has_match(pool: Seq<Pot>, key: Seq<char>) -> bool {
    exists|j: int| 0 <= j < pool.len() && spec_normalise((#[trigger] pool[j]).name@) == key
}

/// Where a pot matches, there is a first pot that matches, at or before it.
pub proof fn lemma_first_match_exists(pool: Seq<Pot>, key: Seq<char>, j: int)
    requires
        0 <= j < pool.len(),
        spec_normalise(pool[j].name@) == key,
    ensures
        exists|i: int| 0 <= i <= j && spec_first_match(pool, key, i),
    decreases j,
{
    if forall|i: int| 0 <= i < j ==> spec_normalise((#[trigger] pool[i]).name@) != key {
        assert(spec_first_match(pool, key, j));
    } else {
        let i = choose|i: int| 0 <= i < j && spec_normalise((#[trigger] pool[i]).name@) == key;
        lemma_first_match_exists(pool, key, i);
    }
}

/// Taking a pot of another name out of the pool leaves the first match of
/// `key` the first match, one place earlier if it stood behind that pot.
pub proof fn lemma_first_match_survives(pool: Seq<Pot>, taken: int, key: Seq<char>, j: int)
    requires
        0 <= taken < pool.len(),
        spec_normalise(pool[taken].name@) != key,
        spec_first_match(pool, key, j),
    ensures
        j != taken,
        spec_first_match(
            pool.remove(taken),
            key,
            if j < taken {
                j
            } else {
                j - 1
            },
        ),
        pool.remove(taken)[if j < taken {
            j
        } else {
            j - 1
        }] == pool[j],
{
    let rest = pool.remove(taken);
    let at = if j < taken {
        j
    } else {
        j - 1
    };
    assert forall|i: int| 0 <= i < at implies spec_normalise((#[trigger] rest[i]).name@) != key by {
        if i < taken {
            assert(rest[i] == pool[i]);
        } else {
            assert(rest[i] == pool[i + 1]);
        }
    }
}

/// Where every name is present in the pool and no two names are the same in
/// normal form, the selection succeeds and holds, for each name in the order
/// of the names, the first pot of the pool with that name.
pub proof fn lemma_distinct_names_pick_in_order(pool: Seq<Pot>, names: Seq<String>)
    requires
        forall|k: int|
            0 <= k < names.len() ==> spec_has_match(pool, spec_normalise((#[trigger] names[k])@)),
        forall|a: int, b: int|
            0 <= a < b < names.len() ==> spec_normalise((#[trigger] names[a])@) != spec_normalise(
                (#[trigger] names[b])@,
            ),
    ensures
        spec_pick(pool, names) is Ok,
        spec_pick(pool, names)->Ok_0.len() == names.len(),
        forall|k: int|
            0 <= k < names.len() ==> exists|j: int|
                spec_first_match(pool, spec_normalise(names[k]@), j) && (#[trigger] spec_pick(
                    pool,
                    names,
                )->Ok_0[k]) == pool[j],
    decreases names.len(),
{
    if names.len() > 0 {
        let key = spec_normalise(names.first()@);
        assert(spec_has_match(pool, spec_normalise(names[0]@)));
        let any = choose|j: int|
            0 <= j < pool.len() && spec_normalise((#[trigger] pool[j]).name@) == key;
        lemma_first_match_exists(pool, key, any);
        let i = choose|i: int| spec_first_match(pool, key, i);
        let rest_pool = pool.remove(i);
        let rest_names = names.drop_first();
        assert forall|k: int| 0 <= k < rest_names.len() implies spec_has_match(
            rest_pool,
            spec_normalise((#[trigger] rest_names[k])@),
        ) by {
            let other = spec_normalise(rest_names[k]@);
            assert(rest_names[k] == names[k + 1]);
            assert(spec_normalise(names[0]@) != spec_normalise(names[k + 1]@));
            assert(spec_has_match(pool, other));
            let some = choose|j: int|
                0 <= j < pool.len() && spec_normalise((#[trigger] pool[j]).name@) == other;
            lemma_first_match_exists(pool, other, some);
            let first = choose|j: int| spec_first_match(pool, other, j);
            lemma_first_match_survives(pool, i, other, first);
            let moved = if first < i {
                first
            } else {
                first - 1
            };
            assert(spec_normalise(rest_pool[moved].name@) == other);
        }
        assert forall|a: int, b: int| 0 <= a < b < rest_names.len() implies spec_normalise(
            (#[trigger] rest_names[a])@,
        ) != spec_normalise((#[trigger] rest_names[b])@) by {
            assert(rest_names[a] == names[a + 1]);
            assert(rest_names[b] == names[b + 1]);
        }
        lemma_distinct_names_pick_in_order(rest_pool, rest_names);
        let rest = spec_pick(rest_pool, rest_names)->Ok_0;
        let found = spec_pick(pool, names)->Ok_0;
        assert(found == seq![pool[i]] + rest);
        assert forall|k: int| 0 <= k < names.len() implies exists|j: int|
            spec_first_match(pool, spec_normalise(names[k]@), j) && (#[trigger] found[k])
                == pool[j] by {
            if k == 0 {
                assert(spec_first_match(pool, spec_normalise(names[0]@), i) && found[0]
                    == pool[i]);
            } else {
                let other = spec_normalise(names[k]@);
                assert(rest_names[k - 1] == names[k]);
                assert(found[k] == rest[k - 1]);
                assert(spec_normalise(names[0]@) != other);
                let moved = choose|j: int|
                    spec_first_match(rest_pool, other, j) && rest[k - 1] == rest_pool[j];
                let back = if moved < i {
                    moved
                } else {
                    moved + 1
                };
                assert(rest_pool[moved] == pool[back]);
                assert forall|j: int| 0 <= j < back implies spec_normalise(
                    (#[trigger] pool[j]).name@,
                ) != other by {
                    if j < i {
                        assert(rest_pool[j] == pool[j]);
                    } else if j > i {
                        assert(rest_pool[j - 1] == pool[j]);
                    }
                }
                assert(spec_first_match(pool, other, back) && found[k] == pool[back]);
            }
        }
    }
}

/// The place in the pool of a pot that stands at `place` once the pot at
/// `taken` is out of it.
pub open spec fn spec_place_before(taken: int, place: int) -> int {
    if place < taken {
        place
    } else {
        place + 1
    }
}

/// The places in the pool of the pots that the names select, in the order
/// of the names.
pub open spec fn spec_places(pool: Seq<Pot>, names: Seq<String>) -> Seq<int>
    decreases names.len(),
{
    if names.len() == 0 {
        Seq::empty()
    } else {
        let key = spec_normalise(names.first()@);
        if exists|i: int| spec_first_match(pool, key, i) {
            let i = choose|i: int| spec_first_match(pool, key, i);
            seq![i] + spec_places(pool.remove(i), names.drop_first()).map_values(
                |place: int| spec_place_before(i, place),
            )
        } else {
            Seq::empty()
        }
    }
}

/// No pot is selected twice: the pots of a selection stand at different
/// places of the pool.
pub proof fn lemma_each_pot_once(pool: Seq<Pot>, names: Seq<String>)
    requires
        spec_pick(pool, names) is Ok,
    ensures
        spec_places(pool, names).len() == spec_pick(pool, names)->Ok_0.len(),
        forall|k: int|
            0 <= k < spec_places(pool, names).len() ==> 0 <= (#[trigger] spec_places(
                pool,
                names,
            )[k]) < pool.len() && spec_pick(pool, names)->Ok_0[k] == pool[spec_places(
                pool,
                names,
            )[k]],
        forall|a: int, b: int|
            0 <= a < b < spec_places(pool, names).len() ==> (#[trigger] spec_places(pool, names)[a])
                != (#[trigger] spec_places(pool, names)[b]),
    decreases names.len(),
{
    if names.len() > 0 {
        let key = spec_normalise(names.first()@);
        let i = choose|i: int| spec_first_match(pool, key, i);
        let rest_pool = pool.remove(i);
        let rest_names = names.drop_first();
        lemma_each_pot_once(rest_pool, rest_names);
        let rest = spec_pick(rest_pool, rest_names)->Ok_0;
        let rest_places = spec_places(rest_pool, rest_names);
        let found = spec_pick(pool, names)->Ok_0;
        let places = spec_places(pool, names);
        assert(found == seq![pool[i]] + rest);
        assert(places == seq![i] + rest_places.map_values(
            |place: int| spec_place_before(i, place),
        ));
        assert forall|k: int| 0 <= k < places.len() implies 0 <= (#[trigger] places[k])
            < pool.len() && found[k] == pool[places[k]] by {
            if k > 0 {
                let place = rest_places[k - 1];
                assert(places[k] == spec_place_before(i, place));
                assert(found[k] == rest[k - 1]);
                assert(rest_pool[place] == pool[spec_place_before(i, place)]);
            }
        }
        assert forall|a: int, b: int| 0 <= a < b < places.len() implies (#[trigger] places[a]) != (
        #[trigger] places[b]) by {
            assert(places[b] == spec_place_before(i, rest_places[b - 1]));
            if a > 0 {
                assert(places[a] == spec_place_before(i, rest_places[a - 1]));
                assert(rest_places[a - 1] != rest_places[b - 1]);
            }
        }
    }
}

/// What is left of the pool once the names have taken their pots.
pub open spec fn spec_left_over(pool: Seq<Pot>, names: Seq<String>) -> Seq<Pot>
    decreases names.len(),
{
    if names.len() == 0 {
        pool
    } else {
        let key = spec_normalise(names.first()@);
        if exists|i: int| spec_first_match(pool, key, i) {
            let i = choose|i: int| spec_first_match(pool, key, i);
            spec_left_over(pool.remove(i), names.drop_first())
        } else {
            pool
        }
    }
}

/// A name that matches nothing in the pool matches nothing in what is left
/// of it.
pub proof fn lemma_left_over_adds_nothing(pool: Seq<Pot>, names: Seq<String>, key: Seq<char>)
    requires
        !spec_has_match(pool, key),
    ensures
        !spec_has_match(spec_left_over(pool, names), key),
    decreases names.len(),
{
    if names.len() > 0 {
        let first_key = spec_normalise(names.first()@);
        if exists|i: int| spec_first_match(pool, first_key, i) {
            let i = choose|i: int| spec_first_match(pool, first_key, i);
            let rest_pool = pool.remove(i);
            if spec_has_match(rest_pool, key) {
                let j = choose|j: int|
                    0 <= j < rest_pool.len() && spec_normalise((#[trigger] rest_pool[j]).name@)
                        == key;
                if j < i {
                    assert(spec_normalise(pool[j].name@) == key);
                } else {
                    assert(spec_normalise(pool[j + 1].name@) == key);
                }
            }
            lemma_left_over_adds_nothing(rest_pool, names.drop_first(), key);
        }
    }
}

/// Selecting for a list of names is selecting for its first part and then,
/// from what is left of the pool, for the rest.
pub proof fn lemma_pick_in_two_steps(pool: Seq<Pot>, names: Seq<String>, cut: int)
    requires
        0 <= cut <= names.len(),
    ensures
        spec_pick(pool, names) == match spec_pick(pool, names.take(cut)) {
            Ok(found) => match spec_pick(
                spec_left_over(pool, names.take(cut)),
                names.skip(cut),
            ) {
                Ok(rest) => Ok(found + rest),
                Err(e) => Err(e),
            },
            Err(e) => Err(e),
        },
    decreases cut,
{
    if cut == 0 {
        assert(names.take(0) =~= Seq::<String>::empty());
        assert(names.skip(0) =~= names);
        match spec_pick(pool, names) {
            Ok(rest) => {
                assert(Seq::<Pot>::empty() + rest =~= rest);
            },
            Err(_) => {},
        }
    } else {
        let key = spec_normalise(names.first()@);
        let head = names.take(cut);
        assert(head.first() == names.first());
        assert(head.drop_first() =~= names.drop_first().take(cut - 1));
        assert(names.drop_first().skip(cut - 1) =~= names.skip(cut));
        if exists|i: int| spec_first_match(pool, key, i) {
            let i = choose|i: int| spec_first_match(pool, key, i);
            lemma_pick_in_two_steps(pool.remove(i), names.drop_first(), cut - 1);
            match spec_pick(pool.remove(i), head.drop_first()) {
                Ok(found) => {
                    match spec_pick(spec_left_over(pool, head), names.skip(cut)) {
                        Ok(rest) => {
                            assert(seq![pool[i]] + (found + rest) =~= (seq![pool[i]] + found)
                                + rest);
                        },
                        Err(_) => {},
                    }
                },
                Err(_) => {},
            }
        }
    }
}

/// Where exactly one pot of the pool has the name `key` and one of the names
/// asks for it, no pot of that name is left once the names have taken their
/// pots.
pub proof fn lemma_single_match_is_used_up(
    pool: Seq<Pot>,
    names: Seq<String>,
    key: Seq<char>,
    only: int,
    asks: int,
)
    requires
        0 <= only < pool.len(),
        forall|j: int|
            0 <= j < pool.len() ==> (spec_normalise((#[trigger] pool[j]).name@) == key <==> j
                == only),
        0 <= asks < names.len(),
        spec_normalise(names[asks]@) == key,
        spec_pick(pool, names) is Ok,
    ensures
        !spec_has_match(spec_left_over(pool, names), key),
    decreases names.len(),
{
    let first_key = spec_normalise(names.first()@);
    assert(exists|i: int| spec_first_match(pool, first_key, i));
    let i = choose|i: int| spec_first_match(pool, first_key, i);
    let rest_pool = pool.remove(i);
    let rest_names = names.drop_first();
    if first_key == key {
        assert(i == only);
        if spec_has_match(rest_pool, key) {
            let j = choose|j: int|
                0 <= j < rest_pool.len() && spec_normalise((#[trigger] rest_pool[j]).name@) == key;
            if j < i {
                assert(spec_normalise(pool[j].name@) == key);
            } else {
                assert(spec_normalise(pool[j + 1].name@) == key);
            }
        }
        lemma_left_over_adds_nothing(rest_pool, rest_names, key);
    } else {
        assert(asks > 0);
        assert(rest_names[asks - 1] == names[asks]);
        assert(i != only);
        let moved = if only < i {
            only
        } else {
            only - 1
        };
        assert forall|j: int| 0 <= j < rest_pool.len() implies (spec_normalise(
            (#[trigger] rest_pool[j]).name@,
        ) == key <==> j == moved) by {
            if j < i {
                assert(rest_pool[j] == pool[j]);
            } else {
                assert(rest_pool[j] == pool[j + 1]);
            }
        }
        lemma_single_match_is_used_up(rest_pool, rest_names, key, moved, asks - 1);
    }
}

/// A name that comes twice finds nothing the second time where only one pot
/// of the pool has it: if the names before its second occurrence all find
/// their pots, the selection fails there, with that name.
pub proof fn lemma_repeated_name_is_not_found(
    pool: Seq<Pot>,
    names: Seq<String>,
    only: int,
    first: int,
    second: int,
)
    requires
        0 <= only < pool.len(),
        forall|j: int|
            0 <= j < pool.len() ==> (spec_normalise((#[trigger] pool[j]).name@) == spec_normalise(
                names[second]@,
            ) <==> j == only),
        0 <= first < second < names.len(),
        spec_normalise(names[first]@) == spec_normalise(names[second]@),
        spec_pick(pool, names.take(second)) is Ok,
    ensures
        spec_pick(pool, names) == Err::<Seq<Pot>, ErrorView>(ErrorView::NotFound(names[second]@)),
{
    let key = spec_normalise(names[second]@);
    let head = names.take(second);
    let tail = names.skip(second);
    assert(head[first] == names[first]);
    lemma_single_match_is_used_up(pool, head, key, only, first);
    lemma_pick_in_two_steps(pool, names, second);
    let left = spec_left_over(pool, head);
    assert(tail.first() == names[second]);
    assert forall|i: int| !spec_first_match(left, key, i) by {
        if spec_first_match(left, key, i) {
            assert(spec_normalise(left[i].name@) == key);
            assert(spec_has_match(left, key));
        }
    }
}

/// Where every eligible pot has a goal, every name is the name of an
/// eligible pot and no two names are the same in normal form, the names
/// resolve, and to the first eligible pot of each name, in the order of the
/// names.
pub proof fn lemma_distinct_names_resolve_in_order(
    account_id: Seq<char>,
    pots: Seq<Pot>,
    names: Seq<String>,
)
    requires
        forall|i: int|
            0 <= i < spec_candidates(pots, account_id).len() ==> (#[trigger] spec_candidates(
                pots,
                account_id,
            )[i]).goal_amount is Some,
        forall|k: int|
            0 <= k < names.len() ==> spec_has_match(
                spec_candidates(pots, account_id),
                spec_normalise((#[trigger] names[k])@),
            ),
        forall|a: int, b: int|
            0 <= a < b < names.len() ==> spec_normalise((#[trigger] names[a])@) != spec_normalise(
                (#[trigger] names[b])@,
            ),
    ensures
        spec_resolve(account_id, pots, names) is Ok,
        spec_resolve(account_id, pots, names)->Ok_0.len() == names.len(),
        forall|k: int|
            0 <= k < names.len() ==> exists|j: int|
                spec_first_match(
                    spec_candidates(pots, account_id),
                    spec_normalise(names[k]@),
                    j,
                ) && (#[trigger] spec_resolve(account_id, pots, names)->Ok_0[k])
                    == spec_candidates(pots, account_id)[j],
{
    let pool = spec_candidates(pots, account_id);
    assert(forall|i: int| !spec_first_without_goal(pool, i));
    lemma_distinct_names_pick_in_order(pool, names);
}

/// A name that comes twice is not found the second time where only one
/// eligible pot has it: if every eligible pot has a goal and the names
/// before the second occurrence all resolve, the resolution fails with that
/// name.
pub proof fn lemma_repeated_name_does_not_resolve(
    account_id: Seq<char>,
    pots: Seq<Pot>,
    names: Seq<String>,
    only: int,
    first: int,
    second: int,
)
    requires
        forall|i: int|
            0 <= i < spec_candidates(pots, account_id).len() ==> (#[trigger] spec_candidates(
                pots,
                account_id,
            )[i]).goal_amount is Some,
        0 <= only < spec_candidates(pots, account_id).len(),
        forall|j: int|
            0 <= j < spec_candidates(pots, account_id).len() ==> (spec_normalise(
                (#[trigger] spec_candidates(pots, account_id)[j]).name@,
            ) == spec_normalise(names[second]@) <==> j == only),
        0 <= first < second < names.len(),
        spec_normalise(names[first]@) == spec_normalise(names[second]@),
        spec_resolve(account_id, pots, names.take(second)) is Ok,
    ensures
        spec_resolve(account_id, pots, names) == Err::<Seq<Pot>, ErrorView>(
            ErrorView::NotFound(names[second]@),
        ),
{
    let pool = spec_candidates(pots, account_id);
    assert(forall|i: int| !spec_first_without_goal(pool, i));
    lemma_repeated_name_is_not_found(pool, names, only, first, second);
}

} // verus!
