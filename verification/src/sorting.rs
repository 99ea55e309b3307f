//! Putting dated values in the order of their dates.

use vstd::prelude::*;
use vstd::seq_lib::to_multiset_remove;
use crate::types::{Date, Decimal};

verus! {

/// The dates do not go backwards.
pub open spec fn in_date_order(items: Seq<(Date, Decimal)>) -> bool {
    forall|i: int, j: int| 0 <= i <= j < items.len() ==> items[i].0.days <= items[j].0.days
}

/// The items of one date, in their order.
pub open spec fn of_date(items: Seq<(Date, Decimal)>, days: int) -> Seq<(Date, Decimal)>
    decreases items.len(),
{
    if items.len() == 0 {
        Seq::empty()
    } else if items.last().0.days == days {
        of_date(items.drop_last(), days).push(items.last())
    } else {
        of_date(items.drop_last(), days)
    }
}

/// An item put in before none but later ones becomes the last of its date,
/// and the items of the other dates stay as they are.
pub proof fn lemma_insert_of_date(
    items: Seq<(Date, Decimal)>,
    at: int,
    item: (Date, Decimal),
    days: int,
)
    requires
        0 <= at <= items.len(),
        forall|j: int| at <= j < items.len() ==> items[j].0.days > item.0.days,
    ensures
        of_date(items.insert(at, item), days) == if item.0.days == days {
            of_date(items, days).push(item)
        } else {
            of_date(items, days)
        },
    decreases items.len(),
{
    let longer = items.insert(at, item);
    if at == items.len() {
        assert(longer.drop_last() =~= items);
    } else {
        assert(longer.drop_last() =~= items.drop_last().insert(at, item));
        assert(longer.last() == items.last());
        assert(items.last().0.days > item.0.days);
        lemma_insert_of_date(items.drop_last(), at, item, days);
    }
}

/// Putting one more item into a sequence adds it to what the sequence
/// holds.
pub proof fn lemma_insert_holds(items: Seq<(Date, Decimal)>, at: int, item: (Date, Decimal))
    requires
        0 <= at <= items.len(),
    ensures
        items.insert(at, item).to_multiset() == items.to_multiset().insert(item),
{
    let longer = items.insert(at, item);
    assert(longer.remove(at) =~= items);
    to_multiset_remove(longer, at);
    longer.to_multiset_ensures();
    assert(longer.contains(item)) by {
        assert(longer[at] == item);
    }
    assert(longer.to_multiset() =~= items.to_multiset().insert(item));
}

/// The same items in the order of their dates; items of the same date stay
/// in the order they came in.
pub fn sort_by_date(items: &Vec<(Date, Decimal)>) -> (sorted: Vec<(Date, Decimal)>)
    ensures
        in_date_order(sorted@),
        sorted@.to_multiset() == items@.to_multiset(),
        forall|days: int| #[trigger] of_date(sorted@, days) == of_date(items@, days),
{
    let n: usize = items.len();
    let mut sorted: Vec<(Date, Decimal)> = Vec::new();
    let mut i: usize = 0;
    proof {
        assert(items@.take(0) =~= Seq::empty());
    }
    while i < n
        invariant
            i <= n,
            n == items@.len(),
            sorted@.len() == i,
            in_date_order(sorted@),
            sorted@.to_multiset() == items@.take(i as int).to_multiset(),
            forall|days: int| #[trigger]
                of_date(sorted@, days) == of_date(items@.take(i as int), days),
        decreases n - i,
    {
        let item = items[i];
        let mut at: usize = sorted.len();
        while at > 0 && sorted[at - 1].0.days > item.0.days
            invariant
                at <= sorted@.len(),
                forall|j: int| at <= j < sorted@.len() ==> sorted@[j].0.days > item.0.days,
            decreases at,
        {
            at -= 1;
        }
        let ghost before = sorted@;
        sorted.insert(at, item);
        proof {
            lemma_insert_holds(before, at as int, item);
            assert(items@.take(i as int + 1) =~= items@.take(i as int).push(item));
            assert forall|days: int| #[trigger]
                of_date(sorted@, days) == of_date(items@.take(i as int + 1), days) by {
                lemma_insert_of_date(before, at as int, item, days);
                assert(items@.take(i as int + 1).drop_last() =~= items@.take(i as int));
                assert(of_date(before, days) == of_date(items@.take(i as int), days));
            }
            vstd::seq_lib::to_multiset_build(items@.take(i as int), item);
            assert forall|a: int, b: int| 0 <= a <= b < sorted@.len() implies sorted@[a].0.days
                <= sorted@[b].0.days by {
                if a < at && b > at {
                    assert(sorted@[a] == before[a]);
                    assert(sorted@[b] == before[b - 1]);
                } else if a < at && b < at {
                    assert(sorted@[a] == before[a]);
                    assert(sorted@[b] == before[b]);
                } else if a > at {
                    assert(sorted@[a] == before[a - 1]);
                    assert(sorted@[b] == before[b - 1]);
                } else if a == at && b > at {
                    assert(sorted@[b] == before[b - 1]);
                } else if b == at && a < at {
                    assert(sorted@[a] == before[a]);
                    if at > 0 {
                        assert(before[at - 1].0.days <= item.0.days);
                    }
                }
            }
        }
        i += 1;
    }
    proof {
        assert(items@.take(n as int) =~= items@);
    }
    sorted
}

} // verus!
