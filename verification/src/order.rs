//! Putting things in order: a sort that leaves things of the same rank in the order they came.

use vstd::prelude::*;

verus! {

/// Things with an order they belong in.
pub trait Ranked: Sized {
    /// What is said of the thing in a contract.
    type Model;

    /// The thing as a contract speaks of it.
    spec fn model(&self) -> Self::Model;

    /// Whether `left` belongs behind `right`.
    spec fn behind(left: Self::Model, right: Self::Model) -> bool;

    /// Nothing belongs both behind and ahead of another, and what is not behind a thing that is
    /// not behind a third is not behind the third either.
    proof fn lemma_ranks(first: Self::Model, second: Self::Model, third: Self::Model)
        ensures
            Self::behind(first, second) ==> !Self::behind(second, first),
            !Self::behind(first, second) && !Self::behind(second, third) ==> !Self::behind(
                first,
                third,
            ),
    ;

    /// Whether this belongs behind `other`.
    fn is_behind(&self, other: &Self) -> (behind: bool)
        ensures
            behind == Self::behind(self.model(), other.model()),
    ;
}

/// Several things as a contract speaks of them.
pub open spec fn models<T: Ranked>(items: Seq<T>) -> Seq<T::Model> {
    items.map_values(|item: T| item.model())
}

/// One more thing put among things in order: ahead of everything at the end that belongs behind
/// it, and behind the rest.
pub open spec fn placed<T: Ranked>(sorted: Seq<T::Model>, item: T::Model) -> Seq<T::Model>
    decreases sorted.len(),
{
    if sorted.len() > 0 && T::behind(sorted.last(), item) {
        placed::<T>(sorted.drop_last(), item).push(sorted.last())
    } else {
        sorted.push(item)
    }
}

/// Things in the order they belong in, and in the order they came where they belong together.
pub open spec fn ranked<T: Ranked>(items: Seq<T::Model>) -> Seq<T::Model>
    decreases items.len(),
{
    if items.len() == 0 {
        Seq::empty()
    } else {
        placed::<T>(ranked::<T>(items.drop_last()), items.last())
    }
}

/// One thing is placed where everything from there on, and nothing just ahead of it, belongs
/// behind it.
proof fn lemma_placed_at<T: Ranked>(sorted: Seq<T::Model>, item: T::Model, at: int)
    requires
        0 <= at <= sorted.len(),
        forall|i: int| at <= i < sorted.len() ==> T::behind(#[trigger] sorted[i], item),
        at > 0 ==> !T::behind(sorted[at - 1], item),
    ensures
        placed::<T>(sorted, item) == sorted.insert(at, item),
    decreases sorted.len(),
{
    if at < sorted.len() {
        let shorter = sorted.drop_last();
        assert(T::behind(sorted[sorted.len() - 1], item));
        lemma_placed_at::<T>(shorter, item, at);
        assert(sorted.insert(at, item) =~= shorter.insert(at, item).push(sorted.last()));
    } else {
        assert(sorted.insert(at, item) =~= sorted.push(item));
    }
}

/// Placing a thing adds it and changes nothing else.
proof fn lemma_placed_counts<T: Ranked>(sorted: Seq<T::Model>, item: T::Model)
    ensures
        placed::<T>(sorted, item).to_multiset() == sorted.to_multiset().insert(item),
    decreases sorted.len(),
{
    broadcast use vstd::seq_lib::group_to_multiset_ensures;

    if sorted.len() > 0 && T::behind(sorted.last(), item) {
        let shorter = sorted.drop_last();
        lemma_placed_counts::<T>(shorter, item);
        assert(shorter.push(sorted.last()) =~= sorted);
        assert(placed::<T>(sorted, item).to_multiset() =~= sorted.to_multiset().insert(item));
    }
}

/// Putting things in order takes nothing away and adds nothing.
pub proof fn law_order_keeps_everything<T: Ranked>(items: Seq<T::Model>)
    ensures
        ranked::<T>(items).to_multiset() == items.to_multiset(),
        ranked::<T>(items).len() == items.len(),
        forall|i: int|
            0 <= i < items.len() ==> items.contains(#[trigger] ranked::<T>(items)[i]),
    decreases items.len(),
{
    broadcast use vstd::seq_lib::group_to_multiset_ensures;

    if items.len() > 0 {
        let shorter = items.drop_last();
        law_order_keeps_everything::<T>(shorter);
        lemma_placed_counts::<T>(ranked::<T>(shorter), items.last());
        assert(shorter.push(items.last()) =~= items);
    }
    assert(ranked::<T>(items).to_multiset().len() == items.to_multiset().len());
    assert forall|i: int| 0 <= i < items.len() implies items.contains(
        #[trigger] ranked::<T>(items)[i],
    ) by {
        let thing = ranked::<T>(items)[i];
        assert(ranked::<T>(items).contains(thing));
        assert(ranked::<T>(items).to_multiset().count(thing) > 0);
    }
}

/// Whether nothing is ahead of anything it belongs behind.
pub open spec fn in_order<T: Ranked>(items: Seq<T::Model>) -> bool {
    forall|i: int, j: int|
        0 <= i < j < items.len() ==> !T::behind(#[trigger] items[i], #[trigger] items[j])
}

proof fn lemma_placed_in_order<T: Ranked>(sorted: Seq<T::Model>, item: T::Model)
    requires
        in_order::<T>(sorted),
    ensures
        in_order::<T>(placed::<T>(sorted, item)),
        forall|i: int|
            0 <= i < placed::<T>(sorted, item).len() ==> sorted.contains(
                #[trigger] placed::<T>(sorted, item)[i],
            ) || placed::<T>(sorted, item)[i] == item,
    decreases sorted.len(),
{
    let all = placed::<T>(sorted, item);
    if sorted.len() > 0 && T::behind(sorted.last(), item) {
        let shorter = sorted.drop_last();
        let last = sorted.last();
        lemma_placed_in_order::<T>(shorter, item);
        T::lemma_ranks(last, item, item);
        assert forall|i: int| 0 <= i < all.len() - 1 implies !T::behind(
            #[trigger] all[i],
            last,
        ) && (sorted.contains(all[i]) || all[i] == item) by {
            assert(all[i] == placed::<T>(shorter, item)[i]);
            if shorter.contains(all[i]) {
                let at = choose|at: int| 0 <= at < shorter.len() && shorter[at] == all[i];
                assert(sorted[at] == all[i]);
            }
        }
        assert(sorted[sorted.len() - 1] == last);
    } else {
        assert forall|i: int| 0 <= i < sorted.len() implies !T::behind(
            #[trigger] all[i],
            item,
        ) by {
            T::lemma_ranks(sorted[i], sorted.last(), item);
            T::lemma_ranks(sorted.last(), sorted.last(), item);
        }
    }
}

/// Things put in order are in order.
pub proof fn law_order_is_kept<T: Ranked>(items: Seq<T::Model>)
    ensures
        in_order::<T>(ranked::<T>(items)),
    decreases items.len(),
{
    if items.len() > 0 {
        law_order_is_kept::<T>(items.drop_last());
        lemma_placed_in_order::<T>(ranked::<T>(items.drop_last()), items.last());
    }
}

/// The things, of several, that belong neither behind nor ahead of one.
pub open spec fn level_with<T: Ranked>(items: Seq<T::Model>, one: T::Model) -> Seq<T::Model>
    decreases items.len(),
{
    if items.len() == 0 {
        Seq::empty()
    } else if T::behind(items.last(), one) || T::behind(one, items.last()) {
        level_with::<T>(items.drop_last(), one)
    } else {
        level_with::<T>(items.drop_last(), one).push(items.last())
    }
}

proof fn lemma_placed_behind_its_level<T: Ranked>(
    sorted: Seq<T::Model>,
    item: T::Model,
    one: T::Model,
)
    ensures
        level_with::<T>(placed::<T>(sorted, item), one) == level_with::<T>(
            sorted.push(item),
            one,
        ),
    decreases sorted.len(),
{
    if sorted.len() > 0 && T::behind(sorted.last(), item) {
        let shorter = sorted.drop_last();
        let last = sorted.last();
        lemma_placed_behind_its_level::<T>(shorter, item, one);
        reveal_with_fuel(level_with, 3);
        assert(placed::<T>(sorted, item).drop_last() =~= placed::<T>(shorter, item));
        assert(sorted.push(item).drop_last() =~= sorted);
        assert(shorter.push(item).drop_last() =~= shorter);
        T::lemma_ranks(last, one, item);
        T::lemma_ranks(one, item, last);
        T::lemma_ranks(item, one, last);
    }
}

/// Things that belong neither behind nor ahead of each other stay in the order they came in.
pub proof fn law_order_leaves_equals_as_they_came<T: Ranked>(
    items: Seq<T::Model>,
    one: T::Model,
)
    ensures
        level_with::<T>(ranked::<T>(items), one) == level_with::<T>(items, one),
    decreases items.len(),
{
    if items.len() > 0 {
        let shorter = items.drop_last();
        law_order_leaves_equals_as_they_came::<T>(shorter, one);
        lemma_placed_behind_its_level::<T>(ranked::<T>(shorter), items.last(), one);
        assert(ranked::<T>(shorter).push(items.last()).drop_last() =~= ranked::<T>(shorter));
    }
}

/// Whether everything belongs behind everything ahead of it.
pub open spec fn strictly_in_order<T: Ranked>(items: Seq<T::Model>) -> bool {
    forall|i: int, j: int|
        0 <= i < j < items.len() ==> T::behind(#[trigger] items[j], #[trigger] items[i])
}

/// Whether no two things belong together.
pub open spec fn are_apart<T: Ranked>(items: Seq<T::Model>) -> bool {
    forall|i: int, j: int|
        0 <= i < j < items.len() ==> (T::behind(#[trigger] items[i], #[trigger] items[j])
            || T::behind(items[j], items[i]))
}

proof fn lemma_placed_strictly<T: Ranked>(sorted: Seq<T::Model>, item: T::Model)
    requires
        strictly_in_order::<T>(sorted),
        forall|i: int|
            0 <= i < sorted.len() ==> (T::behind(#[trigger] sorted[i], item) || T::behind(
                item,
                sorted[i],
            )),
    ensures
        strictly_in_order::<T>(placed::<T>(sorted, item)),
        forall|i: int|
            0 <= i < placed::<T>(sorted, item).len() ==> (sorted.contains(
                #[trigger] placed::<T>(sorted, item)[i],
            ) || placed::<T>(sorted, item)[i] == item),
    decreases sorted.len(),
{
    let all = placed::<T>(sorted, item);
    if sorted.len() > 0 && T::behind(sorted.last(), item) {
        let shorter = sorted.drop_last();
        let last = sorted.last();
        lemma_placed_strictly::<T>(shorter, item);
        assert forall|i: int| 0 <= i < all.len() - 1 implies T::behind(
            last,
            #[trigger] all[i],
        ) && (sorted.contains(all[i]) || all[i] == item) by {
            assert(all[i] == placed::<T>(shorter, item)[i]);
            if shorter.contains(all[i]) {
                let at = choose|at: int| 0 <= at < shorter.len() && shorter[at] == all[i];
                assert(sorted[at] == all[i]);
            }
        }
        assert(sorted[sorted.len() - 1] == last);
    } else {
        assert forall|i: int| 0 <= i < sorted.len() implies T::behind(
            item,
            #[trigger] all[i],
        ) by {
            assert(all[i] == sorted[i]);
            if i < sorted.len() - 1 {
                let last = sorted.last();
                assert(T::behind(sorted[sorted.len() - 1], sorted[i]));
                T::lemma_ranks(last, sorted[i], item);
                T::lemma_ranks(sorted[i], last, item);
                T::lemma_ranks(last, item, item);
            } else {
                T::lemma_ranks(sorted[i], item, item);
            }
        }
        assert forall|i: int| 0 <= i < all.len() implies (sorted.contains(#[trigger] all[i])
            || all[i] == item) by {
            if i < sorted.len() {
                assert(all[i] == sorted[i]);
            }
        }
    }
}

/// Things no two of which belong together are put in the one order there is, with nothing added
/// and nothing left out.
pub proof fn law_things_apart_are_put_strictly_in_order<T: Ranked>(items: Seq<T::Model>)
    requires
        are_apart::<T>(items),
    ensures
        strictly_in_order::<T>(ranked::<T>(items)),
        forall|item: T::Model| ranked::<T>(items).contains(item) <==> items.contains(item),
    decreases items.len(),
{
    broadcast use vstd::seq_lib::group_to_multiset_ensures;

    if items.len() > 0 {
        let shorter = items.drop_last();
        let sorted = ranked::<T>(shorter);
        law_things_apart_are_put_strictly_in_order::<T>(shorter);
        assert forall|i: int| 0 <= i < sorted.len() implies (T::behind(
            #[trigger] sorted[i],
            items.last(),
        ) || T::behind(items.last(), sorted[i])) by {
            let thing = sorted[i];
            assert(ranked::<T>(shorter).contains(thing));
            assert(shorter.contains(thing));
            let at = choose|at: int| 0 <= at < shorter.len() && shorter[at] == thing;
            assert(items[at] == thing);
            assert(items[items.len() - 1] == items.last());
        }
        lemma_placed_strictly::<T>(sorted, items.last());
    }
    law_order_keeps_everything::<T>(items);
    assert forall|item: T::Model| ranked::<T>(items).contains(item) <==> items.contains(item) by {
        assert(ranked::<T>(items).to_multiset().count(item) == items.to_multiset().count(item));
    }
}

/// There is one order to things no two of which belong together: two lists of the same things,
/// both in it, are the same list.
pub proof fn law_there_is_one_order<T: Ranked>(one: Seq<T::Model>, other: Seq<T::Model>)
    requires
        strictly_in_order::<T>(one),
        strictly_in_order::<T>(other),
        forall|item: T::Model| one.contains(item) <==> other.contains(item),
    ensures
        one == other,
    decreases one.len(),
{
    if one.len() == 0 {
        if other.len() > 0 {
            assert(other.contains(other[0]));
        }
        assert(one =~= other);
    } else {
        assert(one.contains(one.last()));
        let at = choose|at: int| 0 <= at < other.len() && other[at] == one.last();
        assert(other.contains(other.last()));
        let there = choose|there: int| 0 <= there < one.len() && one[there] == other.last();
        assert(one.last() == other.last()) by {
            if at < other.len() - 1 && there < one.len() - 1 {
                assert(T::behind(other[other.len() - 1], other[at]));
                assert(T::behind(one[one.len() - 1], one[there]));
                T::lemma_ranks(one.last(), other.last(), other.last());
            }
        }
        let fewer = one.drop_last();
        let rest = other.drop_last();
        assert forall|item: T::Model| fewer.contains(item) <==> rest.contains(item) by {
            if fewer.contains(item) {
                let i = choose|i: int| 0 <= i < fewer.len() && fewer[i] == item;
                assert(one[i] == item);
                assert(one.contains(item));
                let j = choose|j: int| 0 <= j < other.len() && other[j] == item;
                assert(item != one.last()) by {
                    assert(T::behind(one[one.len() - 1], one[i]));
                    T::lemma_ranks(item, item, item);
                }
                assert(rest[j] == item);
            }
            if rest.contains(item) {
                let j = choose|j: int| 0 <= j < rest.len() && rest[j] == item;
                assert(other[j] == item);
                assert(other.contains(item));
                let i = choose|i: int| 0 <= i < one.len() && one[i] == item;
                assert(item != other.last()) by {
                    assert(T::behind(other[other.len() - 1], other[j]));
                    T::lemma_ranks(item, item, item);
                }
                assert(fewer[i] == item);
            }
        }
        law_there_is_one_order::<T>(fewer, rest);
        assert(one =~= fewer.push(one.last()));
        assert(other =~= rest.push(other.last()));
    }
}

/// Things that are in order already are left as they are.
pub proof fn law_things_in_order_are_left_as_they_are<T: Ranked>(items: Seq<T::Model>)
    requires
        in_order::<T>(items),
    ensures
        ranked::<T>(items) == items,
    decreases items.len(),
{
    if items.len() > 0 {
        let fewer = items.drop_last();
        law_things_in_order_are_left_as_they_are::<T>(fewer);
        if fewer.len() > 0 {
            assert(!T::behind(items[items.len() - 2], items[items.len() - 1]));
        }
        assert(fewer.push(items.last()) =~= items);
    } else {
        assert(ranked::<T>(items) =~= items);
    }
}

/// The things, in the order they belong in - see [`ranked`].
pub fn sort<T: Ranked>(items: Vec<T>) -> (sorted: Vec<T>)
    ensures
        models(sorted@) == ranked::<T>(models(items@)),
{
    let ghost all = items@;
    let mut sorted: Vec<T> = Vec::new();
    assert(models(sorted@) =~= ranked::<T>(models(all.take(0))));
    for item in it: items
        invariant
            it.seq() == all,
            models(sorted@) == ranked::<T>(models(all.take(it.index()))),
    {
        let mut at: usize = sorted.len();
        while at > 0 && sorted[at - 1].is_behind(&item)
            invariant
                at <= sorted@.len(),
                forall|i: int|
                    at <= i < sorted@.len() ==> T::behind(
                        #[trigger] models(sorted@)[i],
                        item.model(),
                    ),
            decreases at,
        {
            at -= 1;
        }
        proof {
            lemma_placed_at::<T>(models(sorted@), item.model(), at as int);
            assert(models(sorted@.insert(at as int, item)) =~= models(sorted@).insert(
                at as int,
                item.model(),
            ));
            let shown = models(all.take(it.index() + 1));
            assert(shown.drop_last() =~= models(all.take(it.index())));
            assert(shown.last() == item.model());
        }
        sorted.insert(at, item);
    }
    assert(all.take(all.len() as int) =~= all);
    sorted
}

} // verus!
