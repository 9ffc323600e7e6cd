//! Ranking scored moves: highest score first, and among equal scores the
//! earlier move first.

use vstd::prelude::*;
use crate::moves::MoveRequest;

verus! {

/// A move and the score by which it is ranked.
pub type ScoredMove = (MoveRequest, i32);

/// A ranked list with one more move: the move goes behind every move whose
/// score is at least its own.
pub open spec fn insert_ranked(sorted: Seq<ScoredMove>, x: ScoredMove) -> Seq<ScoredMove>
    decreases sorted.len(),
{
    if sorted.len() == 0 {
        seq![x]
    } else if sorted.last().1 >= x.1 {
        sorted.push(x)
    } else {
        insert_ranked(sorted.drop_last(), x).push(sorted.last())
    }
}

/// The moves ranked by falling score, moves of equal score in the order in
/// which they came.
pub open spec fn ranked(items: Seq<ScoredMove>) -> Seq<ScoredMove>
    decreases items.len(),
{
    if items.len() == 0 {
        Seq::empty()
    } else {
        insert_ranked(ranked(items.drop_last()), items.last())
    }
}

/// Whether the scores of a list never rise.
pub open spec fn falling(items: Seq<ScoredMove>) -> bool {
    forall|i: int, j: int| 0 <= i <= j < items.len() ==> items[i].1 >= items[j].1
}

/// Inserting into a ranked list at the place behind the last move whose
/// score is at least the new one is the ranked insertion.
pub proof fn lemma_insert_place(sorted: Seq<ScoredMove>, x: ScoredMove, place: int)
    requires
        0 <= place <= sorted.len(),
        forall|k: int| place <= k < sorted.len() ==> sorted[k].1 < x.1,
        place > 0 ==> sorted[place - 1].1 >= x.1,
    ensures
        insert_ranked(sorted, x) == sorted.insert(place, x),
    decreases sorted.len(),
{
    if sorted.len() == 0 {
        assert(sorted.insert(place, x) =~= seq![x]);
    } else if place == sorted.len() {
        assert(sorted.insert(place, x) =~= sorted.push(x));
    } else {
        lemma_insert_place(sorted.drop_last(), x, place);
        assert(sorted.insert(place, x) =~= sorted.drop_last().insert(place, x).push(sorted.last()));
    }
}

/// A ranked insertion keeps the length and the moves of the list and adds
/// the new move, and keeps falling scores falling.
pub proof fn lemma_insert_ranked(sorted: Seq<ScoredMove>, x: ScoredMove)
    ensures
        insert_ranked(sorted, x).len() == sorted.len() + 1,
        insert_ranked(sorted, x).to_multiset() == sorted.to_multiset().insert(x),
        falling(sorted) ==> falling(insert_ranked(sorted, x)),
    decreases sorted.len(),
{
    broadcast use vstd::seq_lib::group_to_multiset_ensures;

    if sorted.len() == 0 {
        assert(sorted =~= Seq::empty());
        assert(seq![x] =~= Seq::<ScoredMove>::empty().push(x));
    } else if sorted.last().1 >= x.1 {
    } else {
        let rest = sorted.drop_last();
        let last = sorted.last();
        lemma_insert_ranked(rest, x);
        assert(sorted =~= rest.push(last));
        assert(rest.to_multiset().insert(x).insert(last) =~= rest.to_multiset().insert(
            last,
        ).insert(x));
        if falling(sorted) {
            let placed = insert_ranked(rest, x);
            assert(falling(rest));
            assert forall|i: int| 0 <= i < placed.len() implies (#[trigger] placed[i]).1
                >= last.1 by {
                assert(placed.to_multiset().count(placed[i]) > 0);
                if placed[i] != x {
                    assert(rest.to_multiset().count(placed[i]) > 0);
                    let k = choose|k: int| 0 <= k < rest.len() && rest[k] == placed[i];
                    assert(sorted[k].1 >= sorted[sorted.len() - 1].1);
                }
            }
        }
    }
}

/// Ranking keeps the moves, each as often as it came, and yields falling
/// scores.
pub proof fn lemma_ranked(items: Seq<ScoredMove>)
    ensures
        ranked(items).len() == items.len(),
        ranked(items).to_multiset() == items.to_multiset(),
        falling(ranked(items)),
    decreases items.len(),
{
    broadcast use vstd::seq_lib::group_to_multiset_ensures;

    if items.len() == 0 {
        assert(items =~= Seq::empty());
    } else {
        lemma_ranked(items.drop_last());
        lemma_insert_ranked(ranked(items.drop_last()), items.last());
        assert(items =~= items.drop_last().push(items.last()));
    }
}

/// Every move of a ranked list is a move of the list that was ranked.
pub proof fn lemma_ranked_came_from(items: Seq<ScoredMove>, i: int)
    requires
        0 <= i < ranked(items).len(),
    ensures
        items.contains(ranked(items)[i]),
{
    broadcast use vstd::seq_lib::group_to_multiset_ensures;

    lemma_ranked(items);
    let x = ranked(items)[i];
    assert(ranked(items).to_multiset().count(x) > 0);
    assert(items.to_multiset().count(x) > 0);
}

/// The place, among the first `n` moves, of the first move with the
/// highest score.
pub open spec fn lead(items: Seq<ScoredMove>, n: int) -> int
    decreases n,
{
    if n <= 1 {
        0
    } else if items[n - 1].1 > items[lead(items, n - 1)].1 {
        n - 1
    } else {
        lead(items, n - 1)
    }
}

/// The lead has the highest score, and every move before it a lower one.
pub proof fn lemma_lead(items: Seq<ScoredMove>, n: int)
    requires
        0 < n <= items.len(),
    ensures
        0 <= lead(items, n) < n,
        forall|k: int| 0 <= k < n ==> (#[trigger] items[k]).1 <= items[lead(items, n)].1,
        forall|k: int| 0 <= k < lead(items, n) ==> (#[trigger] items[k]).1 < items[lead(items, n)].1,
    decreases n,
{
    if n > 1 {
        lemma_lead(items, n - 1);
    }
}

/// A ranked insertion puts the new move in front only where its score is
/// higher than every score of the list.
pub proof fn lemma_insert_ranked_front(sorted: Seq<ScoredMove>, x: ScoredMove)
    requires
        falling(sorted),
    ensures
        insert_ranked(sorted, x)[0] == (if sorted.len() == 0 || x.1 > sorted[0].1 {
            x
        } else {
            sorted[0]
        }),
    decreases sorted.len(),
{
    if sorted.len() > 0 && sorted.last().1 < x.1 {
        let rest = sorted.drop_last();
        assert(falling(rest));
        lemma_insert_ranked_front(rest, x);
        lemma_insert_ranked(rest, x);
        if rest.len() > 0 {
            assert(rest[0] == sorted[0]);
        }
    } else if sorted.len() > 0 {
        assert(sorted[0].1 >= sorted[sorted.len() - 1].1);
    }
}

/// The first of the ranked moves is the first move with the highest score.
pub proof fn lemma_ranked_front(items: Seq<ScoredMove>)
    requires
        items.len() > 0,
    ensures
        ranked(items)[0] == items[lead(items, items.len() as int)],
    decreases items.len(),
{
    let rest = items.drop_last();
    let n = items.len() as int;
    lemma_ranked(rest);
    lemma_insert_ranked_front(ranked(rest), items.last());
    lemma_lead(items, n);
    if rest.len() > 0 {
        lemma_ranked_front(rest);
        lemma_lead_of_prefix(items, rest, n - 1);
        lemma_lead(rest, n - 1);
        assert(ranked(rest)[0] == items[lead(items, n - 1)]);
    } else {
        assert(ranked(rest) =~= Seq::empty());
    }
}

/// The lead among the first `n` moves depends on those moves alone.
pub proof fn lemma_lead_of_prefix(a: Seq<ScoredMove>, b: Seq<ScoredMove>, n: int)
    requires
        0 <= n <= a.len(),
        n <= b.len(),
        forall|k: int| 0 <= k < n ==> a[k] == b[k],
    ensures
        lead(a, n) == lead(b, n),
    decreases n,
{
    if n > 1 {
        lemma_lead_of_prefix(a, b, n - 1);
        lemma_lead(a, n - 1);
    }
}

/// Ranks the moves by falling score, moves of equal score in the order in
/// which they came.
pub fn sort_by_score(items: &Vec<ScoredMove>) -> (sorted: Vec<ScoredMove>)
    ensures
        sorted@ == ranked(items@),
        sorted@.len() == items@.len(),
{
    let mut sorted: Vec<ScoredMove> = Vec::new();
    assert(items@.take(0) =~= Seq::empty());
    for i in 0..items.len()
        invariant
            sorted@ == ranked(items@.take(i as int)),
            sorted@.len() == i,
    {
        let x = items[i];
        let mut place: usize = sorted.len();
        while place > 0 && sorted[place - 1].1 < x.1
            invariant
                place <= sorted@.len(),
                forall|k: int| place <= k < sorted@.len() ==> sorted@[k].1 < x.1,
            decreases place,
        {
            place -= 1;
        }
        proof {
            lemma_insert_place(sorted@, x, place as int);
            lemma_insert_ranked(sorted@, x);
            assert(items@.take(i as int + 1).drop_last() =~= items@.take(i as int));
        }
        sorted.insert(place, x);
    }
    assert(items@.take(items.len() as int) =~= items@);
    sorted
}

} // verus!
