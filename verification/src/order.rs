//! Putting positions in order: a hand shrinks as cards leave it, so more
//! than one position is discarded from the highest down.

use vstd::prelude::*;

verus! {

/// From each position to the next the positions fall or stay.
pub open spec fn is_descending(positions: Seq<usize>) -> bool {
    forall|s: int, t: int| 0 <= s < t < positions.len() ==> positions[s] >= positions[t]
}

/// A falling list with `position` put in, behind the positions that are not
/// below it.
pub open spec fn inserted(sorted: Seq<usize>, position: usize) -> Seq<usize>
    decreases sorted.len(),
{
    if sorted.len() == 0 {
        seq![position]
    } else if sorted.last() >= position {
        sorted.push(position)
    } else {
        inserted(sorted.drop_last(), position).push(sorted.last())
    }
}

/// The positions from the highest down.
pub open spec fn descending(positions: Seq<usize>) -> Seq<usize>
    decreases positions.len(),
{
    if positions.len() == 0 {
        Seq::empty()
    } else {
        inserted(descending(positions.drop_last()), positions.last())
    }
}

/// Putting a position into a falling list gives a falling list that holds
/// the position besides what the list held.
pub proof fn lemma_inserted(sorted: Seq<usize>, position: usize)
    requires
        is_descending(sorted),
    ensures
        is_descending(inserted(sorted, position)),
        inserted(sorted, position).to_multiset() == sorted.to_multiset().insert(position),
        inserted(sorted, position).len() == sorted.len() + 1,
    decreases sorted.len(),
{
    broadcast use vstd::seq_lib::group_to_multiset_ensures;

    if sorted.len() == 0 {
    } else if sorted.last() >= position {
    } else {
        let front = sorted.drop_last();
        lemma_inserted(front, position);
        let middle = inserted(front, position);
        let all = middle.push(sorted.last());
        assert(sorted == front.push(sorted.last()));
        assert forall|s: int, t: int| 0 <= s < t < all.len() implies all[s] >= all[t] by {
            if t == all.len() - 1 {
                middle.to_multiset_ensures();
                front.to_multiset_ensures();
                assert(middle.to_multiset().count(middle[s]) > 0);
            }
        }
    }
}

/// The positions from the highest down are the same positions, and they
/// fall or stay from each to the next.
pub proof fn lemma_descending(positions: Seq<usize>)
    ensures
        is_descending(descending(positions)),
        descending(positions).to_multiset() == positions.to_multiset(),
        descending(positions).len() == positions.len(),
    decreases positions.len(),
{
    broadcast use vstd::seq_lib::group_to_multiset_ensures;

    if positions.len() == 0 {
    } else {
        lemma_descending(positions.drop_last());
        lemma_inserted(descending(positions.drop_last()), positions.last());
        assert(positions == positions.drop_last().push(positions.last()));
    }
}

/// Puts `position` into a falling list.
pub fn insert_descending(sorted: &mut Vec<usize>, position: usize)
    ensures
        final(sorted)@ == inserted(old(sorted)@, position),
{
    let ghost start = sorted@;
    let mut place: usize = sorted.len();
    proof {
        assert(start.take(place as int) =~= start);
    }
    while place > 0 && sorted[place - 1] < position
        invariant
            place <= sorted.len(),
            sorted@ == start,
            inserted(start, position) == inserted(start.take(place as int), position) + start.skip(
                place as int,
            ),
        decreases place,
    {
        proof {
            let front = start.take(place as int);
            assert(front.drop_last() =~= start.take(place - 1));
        }
        place -= 1;
    }
    sorted.insert(place, position);
}

/// Lists the positions from the highest down.
pub fn sort_descending(positions: &Vec<usize>) -> (sorted: Vec<usize>)
    ensures
        sorted@ == descending(positions@),
{
    let mut sorted: Vec<usize> = Vec::new();
    let mut t: usize = 0;
    while t < positions.len()
        invariant
            t <= positions.len(),
            sorted@ == descending(positions@.take(t as int)),
        decreases positions.len() - t,
    {
        assert(positions@.take(t + 1).drop_last() =~= positions@.take(t as int));
        insert_descending(&mut sorted, positions[t]);
        t += 1;
    }
    assert(positions@.take(t as int) =~= positions@);
    sorted
}

} // verus!
