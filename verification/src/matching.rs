//! The matching rule: which groups of cards form a combo, with what value
//! and which elements, and in which order a hand is searched for them.

use crate::types::{card_views, hand_views, CardType, CardView, ElementType, HandType, HandView};
use vstd::prelude::*;

verus! {

/// The value of a group that holds jokers only.
pub const WILDCARD_VALUE: u8 = 7;

/// The elements of a group that holds a joker, whatever else it holds.
pub open spec fn full_elements() -> Seq<ElementType> {
    seq![ElementType::Air, ElementType::Earth, ElementType::Fire, ElementType::Ice]
}

/// The element that a card brings to a group by itself: that of its suit for
/// a numbered card, unless the suit is neutral; none for a joker.
pub open spec fn card_element(card: CardView) -> Option<ElementType> {
    match card {
        CardView::Number(_, suit) => if suit.element != ElementType::Neutral {
            Some(suit.element)
        } else {
            None
        },
        CardView::Joker => None,
    }
}

/// How many jokers a group holds.
pub open spec fn wildcard_count(group: Seq<CardView>) -> nat
    decreases group.len(),
{
    if group.len() == 0 {
        0
    } else {
        wildcard_count(group.drop_last()) + if group.last() is Joker {
            1nat
        } else {
            0nat
        }
    }
}

/// The elements that the numbered cards of a group bring, card by card.
pub open spec fn numbered_elements(group: Seq<CardView>) -> Seq<ElementType>
    decreases group.len(),
{
    if group.len() == 0 {
        Seq::empty()
    } else {
        let before = numbered_elements(group.drop_last());
        match card_element(group.last()) {
            Some(element) => before.push(element),
            None => before,
        }
    }
}

/// A list of elements without its repetitions: each element once, at the
/// place where it first stood.
pub open spec fn distinct(elements: Seq<ElementType>) -> Seq<ElementType>
    decreases elements.len(),
{
    if elements.len() == 0 {
        Seq::empty()
    } else {
        let before = distinct(elements.drop_last());
        if before.contains(elements.last()) {
            before
        } else {
            before.push(elements.last())
        }
    }
}

/// Two cards can stand in one group: they are not two numbered cards of
/// different rank.
pub open spec fn same_rank(one: CardView, other: CardView) -> bool {
    match (one, other) {
        (CardView::Number(a, _), CardView::Number(b, _)) => a == b,
        _ => true,
    }
}

/// The card is a numbered card of the given rank.
pub open spec fn has_rank(card: CardView, rank: u8) -> bool {
    match card {
        CardView::Number(r, _) => r == rank,
        CardView::Joker => false,
    }
}

/// All numbered cards of the group have one rank.
pub open spec fn ranks_agree(group: Seq<CardView>) -> bool {
    forall|a: int, b: int|
        0 <= a < group.len() && 0 <= b < group.len() ==> same_rank(
            #[trigger] group[a],
            #[trigger] group[b],
        )
}

/// The rank of the first numbered card of a group, if it has one.
pub open spec fn first_rank(group: Seq<CardView>) -> Option<u8>
    decreases group.len(),
{
    if group.len() == 0 {
        None
    } else {
        match first_rank(group.drop_last()) {
            Some(rank) => Some(rank),
            None => match group.last() {
                CardView::Number(rank, _) => Some(rank),
                CardView::Joker => None,
            },
        }
    }
}

/// What a matching group resolves to.
pub struct GroupMatch {
    pub value: u8,
    pub elements: Seq<ElementType>,
}

/// The rule shared by the patterns. A group matches when its numbered cards
/// have one rank and every card is a joker or brings an element that no
/// other card of the group brings. Its value is that rank, or
/// `WILDCARD_VALUE` without a numbered card; its elements are all four with
/// a joker in the group, and those of its cards without one.
pub open spec fn match_group(group: Seq<CardView>) -> Option<GroupMatch> {
    if ranks_agree(group) && wildcard_count(group) + distinct(numbered_elements(group)).len()
        == group.len() {
        Some(
            GroupMatch {
                value: match first_rank(group) {
                    Some(rank) => rank,
                    None => WILDCARD_VALUE,
                },
                elements: if wildcard_count(group) > 0 {
                    full_elements()
                } else {
                    distinct(numbered_elements(group))
                },
            },
        )
    } else {
        None
    }
}

/// The patterns that are made of one group.
#[derive(Debug, Clone, Copy, PartialEq, Eq, Structural)]
pub enum Pattern {
    Jackpot,
    TripleThreat,
    MatchedEdge,
}

impl Pattern {
    /// How many cards the pattern takes.
    pub open spec fn size(self) -> nat {
        match self {
            Pattern::Jackpot => 4,
            Pattern::TripleThreat => 3,
            Pattern::MatchedEdge => 2,
        }
    }

    /// Whether the pattern takes jokers.
    pub open spec fn takes_wildcards(self) -> bool {
        self != Pattern::Jackpot
    }

    /// The combo of this pattern with the given value, elements and cards.
    pub open spec fn combo(
        self,
        value: u8,
        suits: Seq<ElementType>,
        card_indices: Seq<usize>,
    ) -> HandView {
        match self {
            Pattern::Jackpot => HandView::Jackpot { value, suits, card_indices },
            Pattern::TripleThreat => HandView::TripleThreat { value, suits, card_indices },
            Pattern::MatchedEdge => HandView::MatchedEdge { value, suits, card_indices },
        }
    }
}

/// Every position of the slot lies in a hand of `n` cards.
pub open spec fn in_bounds(slot: Seq<usize>, n: nat) -> bool {
    forall|t: int| 0 <= t < slot.len() ==> (#[trigger] slot[t]) < n
}

/// The positions of the slot grow from each to the next.
pub open spec fn increasing(slot: Seq<usize>) -> bool {
    forall|s: int, t: int| 0 <= s < t < slot.len() ==> slot[s] < slot[t]
}

/// No position stands in both slots.
pub open spec fn disjoint(first: Seq<usize>, second: Seq<usize>) -> bool {
    forall|s: int, t: int| 0 <= s < first.len() && 0 <= t < second.len() ==> first[s] != second[t]
}

/// The cards of the hand at the positions of the slot.
pub open spec fn group_at(hand: Seq<CardView>, slot: Seq<usize>) -> Seq<CardView> {
    Seq::new(slot.len(), |t: int| hand[slot[t] as int])
}

/// The combo of `pattern` that the cards at `slot` form, if they form one.
/// A jackpot takes no joker.
pub open spec fn match_at(hand: Seq<CardView>, pattern: Pattern, slot: Seq<usize>) -> Option<
    HandView,
> {
    let group = group_at(hand, slot);
    if slot.len() != pattern.size() || !in_bounds(slot, hand.len()) {
        None
    } else if !pattern.takes_wildcards() && wildcard_count(group) > 0 {
        None
    } else {
        match match_group(group) {
            Some(found) => Some(pattern.combo(found.value, found.elements, slot)),
            None => None,
        }
    }
}

/// The value and the elements of the pair at `slot`, if its positions lie in
/// the hand and its cards match by the shared rule.
pub open spec fn pair_value_at(hand: Seq<CardView>, slot: Seq<usize>) -> Option<GroupMatch> {
    if slot.len() == 2 && in_bounds(slot, hand.len()) {
        match_group(group_at(hand, slot))
    } else {
        None
    }
}

/// The double trouble that two pairs form: each pair matches by the shared
/// rule, they have no position in common and their values differ. Its
/// elements are those of the first pair, then those of the second that the
/// first did not bring.
pub open spec fn double_trouble_at(
    hand: Seq<CardView>,
    first: Seq<usize>,
    second: Seq<usize>,
) -> Option<HandView> {
    if first.len() != 2 || second.len() != 2 || !in_bounds(first, hand.len()) || !in_bounds(
        second,
        hand.len(),
    ) || !disjoint(first, second) {
        None
    } else {
        match (match_group(group_at(hand, first)), match_group(group_at(hand, second))) {
            (Some(one), Some(other)) => if one.value != other.value {
                Some(
                    HandView::DoubleTrouble {
                        first_pair_value: one.value,
                        second_pair_value: other.value,
                        suits: distinct(one.elements + other.elements),
                        card_indices: first + second,
                    },
                )
            } else {
                None
            },
            _ => None,
        }
    }
}

/// Each slot of `rest` with `head` put in front.
pub open spec fn prefixed(head: usize, rest: Seq<Seq<usize>>) -> Seq<Seq<usize>> {
    Seq::new(rest.len(), |t: int| seq![head] + rest[t])
}

/// The slots of `k` growing positions taken from `lo..n`, those that begin
/// with a lower position first.
pub open spec fn slots_from(lo: usize, n: usize, k: nat) -> Seq<Seq<usize>>
    decreases n - lo,
{
    if k == 0 {
        seq![Seq::<usize>::empty()]
    } else if lo >= n {
        Seq::empty()
    } else {
        prefixed(lo, slots_from((lo + 1) as usize, n, (k - 1) as nat)) + slots_from(
            (lo + 1) as usize,
            n,
            k,
        )
    }
}

/// The slots of `k` positions in a hand of `n` cards, in the order in which
/// the hand is searched.
pub open spec fn slots(n: usize, k: nat) -> Seq<Seq<usize>> {
    slots_from(0, n, k)
}

/// The slot has `k` growing positions, all of them in `lo..n`.
pub open spec fn slot_within(slot: Seq<usize>, lo: usize, n: usize, k: nat) -> bool {
    &&& slot.len() == k
    &&& increasing(slot)
    &&& forall|t: int| 0 <= t < slot.len() ==> lo <= (#[trigger] slot[t]) < n
}

/// Every slot that is listed has `k` growing positions in `lo..n`.
pub proof fn lemma_slots_from_within(lo: usize, n: usize, k: nat, at: int)
    requires
        0 <= at < slots_from(lo, n, k).len(),
    ensures
        slot_within(slots_from(lo, n, k)[at], lo, n, k),
    decreases n - lo,
{
    if k == 0 {
    } else if lo >= n {
    } else {
        let next = (lo + 1) as usize;
        let with_lo = prefixed(lo, slots_from(next, n, (k - 1) as nat));
        if at < with_lo.len() {
            lemma_slots_from_within(next, n, (k - 1) as nat, at);
        } else {
            lemma_slots_from_within(next, n, k, at - with_lo.len());
        }
    }
}

/// Every slot of `k` growing positions in `lo..n` is listed.
pub proof fn lemma_slots_from_complete(lo: usize, n: usize, k: nat, slot: Seq<usize>)
    requires
        slot_within(slot, lo, n, k),
    ensures
        slots_from(lo, n, k).contains(slot),
    decreases n - lo,
{
    if k == 0 {
        assert(slots_from(lo, n, k)[0] == slot);
    } else {
        let next = (lo + 1) as usize;
        let with_lo = prefixed(lo, slots_from(next, n, (k - 1) as nat));
        let without = slots_from(next, n, k);
        if slot[0] == lo {
            let rest = slot.skip(1);
            lemma_slots_from_complete(next, n, (k - 1) as nat, rest);
            let listed = slots_from(next, n, (k - 1) as nat);
            let at = choose|at: int| 0 <= at < listed.len() && listed[at] == rest;
            assert(slots_from(lo, n, k)[at] == slot);
        } else {
            lemma_slots_from_complete(next, n, k, slot);
            let at = choose|at: int| 0 <= at < without.len() && without[at] == slot;
            assert(slots_from(lo, n, k)[with_lo.len() + at] == slot);
        }
    }
}

/// `one` comes before `other` in the order of the search: at the first
/// place where they differ, `one` has the lower position.
pub open spec fn comes_before(one: Seq<usize>, other: Seq<usize>) -> bool {
    exists|place: int|
        0 <= place < one.len() && place < other.len() && #[trigger] one.take(place) == other.take(
            place,
        ) && one[place] < other[place]
}

/// The slots are listed in the order of the search, each once: of two
/// slots the one that is listed first comes before the other.
pub proof fn lemma_slots_from_ordered(lo: usize, n: usize, k: nat, first: int, second: int)
    requires
        0 <= first < second < slots_from(lo, n, k).len(),
    ensures
        comes_before(slots_from(lo, n, k)[first], slots_from(lo, n, k)[second]),
    decreases n - lo,
{
    if k == 0 {
    } else if lo >= n {
    } else {
        let next = (lo + 1) as usize;
        let shorter = slots_from(next, n, (k - 1) as nat);
        let with_lo = prefixed(lo, shorter);
        let without = slots_from(next, n, k);
        let one = slots_from(lo, n, k)[first];
        let other = slots_from(lo, n, k)[second];
        if second < with_lo.len() {
            lemma_slots_from_ordered(next, n, (k - 1) as nat, first, second);
            let place = choose|place: int|
                0 <= place < shorter[first].len() && place < shorter[second].len()
                    && #[trigger] shorter[first].take(place) == shorter[second].take(place)
                    && shorter[first][place] < shorter[second][place];
            assert(one.take(place + 1) =~= seq![lo] + shorter[first].take(place));
            assert(other.take(place + 1) =~= seq![lo] + shorter[second].take(place));
            assert(one[place + 1] == shorter[first][place]);
            assert(other[place + 1] == shorter[second][place]);
        } else if first < with_lo.len() {
            lemma_slots_from_within(lo, n, k, first);
            lemma_slots_from_within(next, n, k, second - with_lo.len());
            assert(other == without[second - with_lo.len()]);
            assert(one.take(0) =~= other.take(0));
            assert(one[0] == lo);
        } else {
            lemma_slots_from_ordered(next, n, k, first - with_lo.len(), second - with_lo.len());
        }
    }
}

/// The combos of `pattern` found at the given slots, in their order.
pub open spec fn matches_among(
    hand: Seq<CardView>,
    pattern: Pattern,
    among: Seq<Seq<usize>>,
) -> Seq<HandView>
    decreases among.len(),
{
    if among.len() == 0 {
        Seq::empty()
    } else {
        let before = matches_among(hand, pattern, among.drop_last());
        match match_at(hand, pattern, among.last()) {
            Some(found) => before.push(found),
            None => before,
        }
    }
}

/// The double troubles that `first` forms with each of the given pairs.
pub open spec fn double_troubles_with(
    hand: Seq<CardView>,
    first: Seq<usize>,
    seconds: Seq<Seq<usize>>,
) -> Seq<HandView>
    decreases seconds.len(),
{
    if seconds.len() == 0 {
        Seq::empty()
    } else {
        let before = double_troubles_with(hand, first, seconds.drop_last());
        match double_trouble_at(hand, first, seconds.last()) {
            Some(found) => before.push(found),
            None => before,
        }
    }
}

/// The double troubles that each of `firsts` forms with each of `seconds`.
pub open spec fn double_troubles_among(
    hand: Seq<CardView>,
    firsts: Seq<Seq<usize>>,
    seconds: Seq<Seq<usize>>,
) -> Seq<HandView>
    decreases firsts.len(),
{
    if firsts.len() == 0 {
        Seq::empty()
    } else {
        double_troubles_among(hand, firsts.drop_last(), seconds) + double_troubles_with(
            hand,
            firsts.last(),
            seconds,
        )
    }
}

/// Every combo that a hand offers: the jackpots, then the double troubles,
/// the triple threats and the matched edges, each kind in the order of its
/// slots. A pair of pairs is offered in both orders.
pub open spec fn possible_hands(hand: Seq<CardView>) -> Seq<HandView> {
    let n = hand.len() as usize;
    matches_among(hand, Pattern::Jackpot, slots(n, 4)) + double_troubles_among(
        hand,
        slots(n, 2),
        slots(n, 2),
    ) + matches_among(hand, Pattern::TripleThreat, slots(n, 3)) + matches_among(
        hand,
        Pattern::MatchedEdge,
        slots(n, 2),
    )
}

/// A group that holds a joker at some place holds at least one joker.
pub proof fn lemma_wildcard_counted(group: Seq<CardView>, at: int)
    requires
        0 <= at < group.len(),
        group[at] is Joker,
    ensures
        wildcard_count(group) > 0,
    decreases group.len(),
{
    if at < group.len() - 1 {
        lemma_wildcard_counted(group.drop_last(), at);
    }
}

/// A jackpot takes no joker: where four cards form a jackpot, each of them
/// is a numbered card.
pub proof fn lemma_jackpot_takes_no_wildcard(hand: Seq<CardView>, slot: Seq<usize>, at: int)
    requires
        match_at(hand, Pattern::Jackpot, slot) is Some,
        0 <= at < slot.len(),
    ensures
        hand[slot[at] as int] is Number,
{
    let group = group_at(hand, slot);
    if group[at] is Joker {
        lemma_wildcard_counted(group, at);
    }
}

/// The two pairs of a double trouble differ in value: two pairs that
/// resolve to one value form none, wherever they stand.
pub proof fn lemma_double_trouble_values_differ(
    hand: Seq<CardView>,
    first: Seq<usize>,
    second: Seq<usize>,
)
    ensures
        match_group(group_at(hand, first)) matches Some(one) && match_group(
            group_at(hand, second),
        ) matches Some(other) && one.value == other.value ==> double_trouble_at(
            hand,
            first,
            second,
        ) is None,
        double_trouble_at(hand, first, second) matches Some(
            HandView::DoubleTrouble { first_pair_value, second_pair_value, .. },
        ) ==> first_pair_value != second_pair_value,
        double_trouble_at(hand, first, second) matches Some(found) ==> found is DoubleTrouble,
{
}

/// The combo is what its own cards form in the hand: a combo of one group
/// is the match of its pattern at its positions, which grow; a double
/// trouble is the match of its first two positions with its last two, which
/// grow pair by pair.
pub open spec fn offered_by(hand: Seq<CardView>, combo: HandView) -> bool {
    let at = combo.card_indices();
    match combo {
        HandView::Jackpot { .. } => increasing(at) && match_at(hand, Pattern::Jackpot, at) == Some(
            combo,
        ),
        HandView::TripleThreat { .. } => increasing(at) && match_at(
            hand,
            Pattern::TripleThreat,
            at,
        ) == Some(combo),
        HandView::MatchedEdge { .. } => increasing(at) && match_at(hand, Pattern::MatchedEdge, at)
            == Some(combo),
        HandView::DoubleTrouble { .. } => at.len() == 4 && increasing(at.take(2)) && increasing(
            at.skip(2),
        ) && double_trouble_at(hand, at.take(2), at.skip(2)) == Some(combo),
    }
}

/// Each combo found among some slots is the match at one of them.
pub proof fn lemma_matches_among_sound(
    hand: Seq<CardView>,
    pattern: Pattern,
    among: Seq<Seq<usize>>,
    at: int,
) -> (from: int)
    requires
        0 <= at < matches_among(hand, pattern, among).len(),
    ensures
        0 <= from < among.len(),
        match_at(hand, pattern, among[from]) == Some(matches_among(hand, pattern, among)[at]),
    decreases among.len(),
{
    let before = matches_among(hand, pattern, among.drop_last());
    if at < before.len() {
        lemma_matches_among_sound(hand, pattern, among.drop_last(), at)
    } else {
        among.len() - 1
    }
}

/// Each match at one of the slots is among the combos found there.
pub proof fn lemma_matches_among_complete(
    hand: Seq<CardView>,
    pattern: Pattern,
    among: Seq<Seq<usize>>,
    from: int,
)
    requires
        0 <= from < among.len(),
        match_at(hand, pattern, among[from]) is Some,
    ensures
        matches_among(hand, pattern, among).contains(match_at(hand, pattern, among[from])->0),
    decreases among.len(),
{
    let before = matches_among(hand, pattern, among.drop_last());
    let all = matches_among(hand, pattern, among);
    if from < among.len() - 1 {
        lemma_matches_among_complete(hand, pattern, among.drop_last(), from);
        let found = match_at(hand, pattern, among[from])->0;
        let at = choose|at: int| 0 <= at < before.len() && before[at] == found;
        assert(all[at] == found);
    } else {
        assert(all[all.len() - 1] == match_at(hand, pattern, among[from])->0);
    }
}

/// Each double trouble found for a first pair is its match with one of the
/// second pairs.
pub proof fn lemma_double_troubles_with_sound(
    hand: Seq<CardView>,
    first: Seq<usize>,
    seconds: Seq<Seq<usize>>,
    at: int,
) -> (from: int)
    requires
        0 <= at < double_troubles_with(hand, first, seconds).len(),
    ensures
        0 <= from < seconds.len(),
        double_trouble_at(hand, first, seconds[from]) == Some(
            double_troubles_with(hand, first, seconds)[at],
        ),
    decreases seconds.len(),
{
    let before = double_troubles_with(hand, first, seconds.drop_last());
    if at < before.len() {
        lemma_double_troubles_with_sound(hand, first, seconds.drop_last(), at)
    } else {
        seconds.len() - 1
    }
}

/// Each double trouble found is the match of one of the first pairs with
/// one of the second pairs.
pub proof fn lemma_double_troubles_among_sound(
    hand: Seq<CardView>,
    firsts: Seq<Seq<usize>>,
    seconds: Seq<Seq<usize>>,
    at: int,
) -> (from: (int, int))
    requires
        0 <= at < double_troubles_among(hand, firsts, seconds).len(),
    ensures
        0 <= from.0 < firsts.len(),
        0 <= from.1 < seconds.len(),
        double_trouble_at(hand, firsts[from.0], seconds[from.1]) == Some(
            double_troubles_among(hand, firsts, seconds)[at],
        ),
    decreases firsts.len(),
{
    let before = double_troubles_among(hand, firsts.drop_last(), seconds);
    if at < before.len() {
        lemma_double_troubles_among_sound(hand, firsts.drop_last(), seconds, at)
    } else {
        let second = lemma_double_troubles_with_sound(
            hand,
            firsts.last(),
            seconds,
            at - before.len(),
        );
        (firsts.len() - 1, second)
    }
}

/// Each match of a first pair with one of the second pairs is among the
/// double troubles found for it.
pub proof fn lemma_double_troubles_with_complete(
    hand: Seq<CardView>,
    first: Seq<usize>,
    seconds: Seq<Seq<usize>>,
    from: int,
)
    requires
        0 <= from < seconds.len(),
        double_trouble_at(hand, first, seconds[from]) is Some,
    ensures
        double_troubles_with(hand, first, seconds).contains(
            double_trouble_at(hand, first, seconds[from])->0,
        ),
    decreases seconds.len(),
{
    let before = double_troubles_with(hand, first, seconds.drop_last());
    let all = double_troubles_with(hand, first, seconds);
    let found = double_trouble_at(hand, first, seconds[from])->0;
    if from < seconds.len() - 1 {
        lemma_double_troubles_with_complete(hand, first, seconds.drop_last(), from);
        let at = choose|at: int| 0 <= at < before.len() && before[at] == found;
        assert(all[at] == found);
    } else {
        assert(all[all.len() - 1] == found);
    }
}

/// Each match of one of the first pairs with one of the second pairs is
/// among the double troubles found.
pub proof fn lemma_double_troubles_among_complete(
    hand: Seq<CardView>,
    firsts: Seq<Seq<usize>>,
    seconds: Seq<Seq<usize>>,
    from: (int, int),
)
    requires
        0 <= from.0 < firsts.len(),
        0 <= from.1 < seconds.len(),
        double_trouble_at(hand, firsts[from.0], seconds[from.1]) is Some,
    ensures
        double_troubles_among(hand, firsts, seconds).contains(
            double_trouble_at(hand, firsts[from.0], seconds[from.1])->0,
        ),
    decreases firsts.len(),
{
    let before = double_troubles_among(hand, firsts.drop_last(), seconds);
    let row = double_troubles_with(hand, firsts.last(), seconds);
    let all = double_troubles_among(hand, firsts, seconds);
    let found = double_trouble_at(hand, firsts[from.0], seconds[from.1])->0;
    if from.0 < firsts.len() - 1 {
        lemma_double_troubles_among_complete(hand, firsts.drop_last(), seconds, from);
        let at = choose|at: int| 0 <= at < before.len() && before[at] == found;
        assert(all[at] == found);
    } else {
        lemma_double_troubles_with_complete(hand, firsts.last(), seconds, from.1);
        let at = choose|at: int| 0 <= at < row.len() && row[at] == found;
        assert(all[before.len() + at] == found);
    }
}

/// Every combo that a hand offers is what its own cards form in the hand.
pub proof fn lemma_possible_hands_sound(hand: Seq<CardView>, at: int)
    requires
        hand.len() <= usize::MAX,
        0 <= at < possible_hands(hand).len(),
    ensures
        offered_by(hand, possible_hands(hand)[at]),
{
    let n = hand.len() as usize;
    let jackpots = matches_among(hand, Pattern::Jackpot, slots(n, 4));
    let doubles = double_troubles_among(hand, slots(n, 2), slots(n, 2));
    let triples = matches_among(hand, Pattern::TripleThreat, slots(n, 3));
    if at < jackpots.len() {
        let from = lemma_matches_among_sound(hand, Pattern::Jackpot, slots(n, 4), at);
        lemma_slots_from_within(0, n, 4, from);
    } else if at < jackpots.len() + doubles.len() {
        let from = lemma_double_troubles_among_sound(
            hand,
            slots(n, 2),
            slots(n, 2),
            at - jackpots.len(),
        );
        lemma_slots_from_within(0, n, 2, from.0);
        lemma_slots_from_within(0, n, 2, from.1);
        let first = slots(n, 2)[from.0];
        let second = slots(n, 2)[from.1];
        assert((first + second).take(2) =~= first);
        assert((first + second).skip(2) =~= second);
    } else if at < jackpots.len() + doubles.len() + triples.len() {
        let from = lemma_matches_among_sound(
            hand,
            Pattern::TripleThreat,
            slots(n, 3),
            at - jackpots.len() - doubles.len(),
        );
        lemma_slots_from_within(0, n, 3, from);
    } else {
        let from = lemma_matches_among_sound(
            hand,
            Pattern::MatchedEdge,
            slots(n, 2),
            at - jackpots.len() - doubles.len() - triples.len(),
        );
        lemma_slots_from_within(0, n, 2, from);
    }
}

/// Every combo that the cards of a hand form is offered.
pub proof fn lemma_possible_hands_complete(hand: Seq<CardView>, combo: HandView)
    requires
        hand.len() <= usize::MAX,
        offered_by(hand, combo),
    ensures
        possible_hands(hand).contains(combo),
{
    let n = hand.len() as usize;
    let jackpots = matches_among(hand, Pattern::Jackpot, slots(n, 4));
    let doubles = double_troubles_among(hand, slots(n, 2), slots(n, 2));
    let triples = matches_among(hand, Pattern::TripleThreat, slots(n, 3));
    let edges = matches_among(hand, Pattern::MatchedEdge, slots(n, 2));
    let all = possible_hands(hand);
    let slot = combo.card_indices();
    match combo {
        HandView::Jackpot { .. } => {
            lemma_slots_from_complete(0, n, 4, slot);
            let listed = slots(n, 4);
            let from = choose|from: int| 0 <= from < listed.len() && listed[from] == slot;
            lemma_matches_among_complete(hand, Pattern::Jackpot, listed, from);
            let at = choose|at: int| 0 <= at < jackpots.len() && jackpots[at] == combo;
            assert(all[at] == combo);
        },
        HandView::DoubleTrouble { .. } => {
            let first = slot.take(2);
            let second = slot.skip(2);
            lemma_slots_from_complete(0, n, 2, first);
            lemma_slots_from_complete(0, n, 2, second);
            let listed = slots(n, 2);
            let a = choose|a: int| 0 <= a < listed.len() && listed[a] == first;
            let b = choose|b: int| 0 <= b < listed.len() && listed[b] == second;
            lemma_double_troubles_among_complete(hand, listed, listed, (a, b));
            let at = choose|at: int| 0 <= at < doubles.len() && doubles[at] == combo;
            assert(all[jackpots.len() + at] == combo);
        },
        HandView::TripleThreat { .. } => {
            lemma_slots_from_complete(0, n, 3, slot);
            let listed = slots(n, 3);
            let from = choose|from: int| 0 <= from < listed.len() && listed[from] == slot;
            lemma_matches_among_complete(hand, Pattern::TripleThreat, listed, from);
            let at = choose|at: int| 0 <= at < triples.len() && triples[at] == combo;
            assert(all[jackpots.len() + doubles.len() + at] == combo);
        },
        HandView::MatchedEdge { .. } => {
            lemma_slots_from_complete(0, n, 2, slot);
            let listed = slots(n, 2);
            let from = choose|from: int| 0 <= from < listed.len() && listed[from] == slot;
            lemma_matches_among_complete(hand, Pattern::MatchedEdge, listed, from);
            let at = choose|at: int| 0 <= at < edges.len() && edges[at] == combo;
            assert(all[jackpots.len() + doubles.len() + triples.len() + at] == combo);
        },
    }
}

/// The positions of a combo that the cards of a hand form lie in the hand,
/// and no position occurs twice.
pub proof fn lemma_offer_positions(hand: Seq<CardView>, combo: HandView)
    requires
        offered_by(hand, combo),
    ensures
        in_bounds(combo.card_indices(), hand.len()),
        combo.card_indices().no_duplicates(),
        2 <= combo.card_indices().len() <= 4,
{
}

/// No joker stands at a position of a jackpot that a hand offers.
pub proof fn lemma_offered_jackpot_has_no_wildcard(hand: Seq<CardView>, at: int, place: int)
    requires
        hand.len() <= usize::MAX,
        0 <= at < possible_hands(hand).len(),
        possible_hands(hand)[at] is Jackpot,
        0 <= place < possible_hands(hand)[at].card_indices().len(),
    ensures
        hand[possible_hands(hand)[at].card_indices()[place] as int] is Number,
{
    lemma_possible_hands_sound(hand, at);
    lemma_jackpot_takes_no_wildcard(hand, possible_hands(hand)[at].card_indices(), place);
}

/// The two pairs of a double trouble that a hand offers differ in value.
pub proof fn lemma_offered_double_trouble_values_differ(hand: Seq<CardView>, at: int)
    requires
        hand.len() <= usize::MAX,
        0 <= at < possible_hands(hand).len(),
    ensures
        possible_hands(hand)[at] matches HandView::DoubleTrouble {
            first_pair_value,
            second_pair_value,
            ..
        } ==> first_pair_value != second_pair_value,
{
    lemma_possible_hands_sound(hand, at);
}

/// A list without its repetitions holds what the list holds, once each.
pub proof fn lemma_distinct(elements: Seq<ElementType>)
    ensures
        distinct(elements).no_duplicates(),
        forall|element: ElementType| #[trigger]
            distinct(elements).contains(element) ==> elements.contains(element),
        forall|element: ElementType| #[trigger]
            elements.contains(element) ==> distinct(elements).contains(element),
        distinct(elements).len() <= elements.len(),
    decreases elements.len(),
{
    if elements.len() > 0 {
        let front = elements.drop_last();
        let last = elements.last();
        lemma_distinct(front);
        assert forall|element: ElementType| #[trigger]
            distinct(elements).contains(element) implies elements.contains(element) by {
            let at = choose|at: int|
                0 <= at < distinct(elements).len() && distinct(elements)[at] == element;
            if at < distinct(front).len() {
                assert(distinct(front)[at] == element);
                assert(distinct(front).contains(element));
                assert(front.contains(element));
                let to = choose|to: int| 0 <= to < front.len() && front[to] == element;
                assert(elements[to] == element);
            } else {
                assert(elements[elements.len() - 1] == element);
            }
        }
        assert forall|element: ElementType| #[trigger]
            elements.contains(element) implies distinct(elements).contains(element) by {
            let at = choose|at: int| 0 <= at < elements.len() && elements[at] == element;
            if at < front.len() {
                assert(front[at] == element);
                assert(front.contains(element));
                assert(distinct(front).contains(element));
                let to = choose|to: int|
                    0 <= to < distinct(front).len() && distinct(front)[to] == element;
                assert(distinct(elements)[to] == element);
            } else if !distinct(front).contains(last) {
                assert(distinct(elements)[distinct(front).len() as int] == element);
            } else {
                let to = choose|to: int|
                    0 <= to < distinct(front).len() && distinct(front)[to] == last;
                assert(distinct(elements)[to] == element);
            }
        }
    }
}

/// The numbered cards of a group bring no neutral element.
pub proof fn lemma_numbered_elements(group: Seq<CardView>)
    ensures
        !numbered_elements(group).contains(ElementType::Neutral),
    decreases group.len(),
{
    if group.len() > 0 {
        lemma_numbered_elements(group.drop_last());
    }
}

/// The rank of the first numbered card of a group is the rank of one of
/// its cards; a group without one holds jokers only.
pub proof fn lemma_first_rank(group: Seq<CardView>)
    ensures
        first_rank(group) matches Some(rank) ==> exists|at: int|
            0 <= at < group.len() && has_rank(#[trigger] group[at], rank),
        first_rank(group) is None ==> forall|at: int|
            0 <= at < group.len() ==> #[trigger] group[at] is Joker,
    decreases group.len(),
{
    if group.len() > 0 {
        let front = group.drop_last();
        lemma_first_rank(front);
        match first_rank(front) {
            Some(rank) => {
                let at = choose|at: int| 0 <= at < front.len() && has_rank(#[trigger] front[at], rank);
                assert(has_rank(group[at], rank));
            },
            None => {
                assert forall|at: int| 0 <= at < group.len() && first_rank(
                    group,
                ) is None implies #[trigger] group[at] is Joker by {
                    if at < front.len() {
                        assert(front[at] is Joker);
                    }
                }
                if let CardView::Number(rank, _) = group.last() {
                    assert(has_rank(group[group.len() - 1], rank));
                }
            },
        }
    }
}

/// What a matching group resolves to. Its value is the rank of every
/// numbered card in it, and `WILDCARD_VALUE` where it holds jokers only.
/// Its elements are all four where it holds a joker; no element occurs
/// twice among them, and the neutral element does not occur.
pub proof fn lemma_match_group(group: Seq<CardView>)
    requires
        match_group(group) is Some,
    ensures
        forall|at: int, rank: u8|
            0 <= at < group.len() && #[trigger] has_rank(group[at], rank) ==> match_group(
                group,
            )->0.value == rank,
        (forall|at: int| 0 <= at < group.len() ==> #[trigger] group[at] is Joker) ==> match_group(
            group,
        )->0.value == WILDCARD_VALUE,
        (exists|at: int| 0 <= at < group.len() && #[trigger] group[at] is Joker) ==> match_group(
            group,
        )->0.elements == full_elements(),
        match_group(group)->0.elements.no_duplicates(),
        !match_group(group)->0.elements.contains(ElementType::Neutral),
        match_group(group)->0.elements.len() <= 4,
{
    lemma_first_rank(group);
    lemma_distinct(numbered_elements(group));
    lemma_numbered_elements(group);
    let found = match_group(group)->0;
    assert forall|at: int, rank: u8|
        0 <= at < group.len() && #[trigger] has_rank(group[at], rank) implies found.value
        == rank by {
        match first_rank(group) {
            Some(first) => {
                let to = choose|to: int| 0 <= to < group.len() && has_rank(#[trigger] group[to], first);
                assert(same_rank(group[at], group[to]));
            },
            None => {
                assert(group[at] is Joker);
            },
        }
    }
    if forall|at: int| 0 <= at < group.len() ==> #[trigger] group[at] is Joker {
        if let Some(first) = first_rank(group) {
            let to = choose|to: int| 0 <= to < group.len() && has_rank(#[trigger] group[to], first);
            assert(group[to] is Joker);
        }
    }
    if exists|at: int| 0 <= at < group.len() && #[trigger] group[at] is Joker {
        let at = choose|at: int| 0 <= at < group.len() && #[trigger] group[at] is Joker;
        lemma_wildcard_counted(group, at);
    }
    lemma_elements_at_most_four(found.elements);
}

/// A list of elements in which none occurs twice and the neutral element
/// does not occur holds four elements at most.
pub proof fn lemma_elements_at_most_four(elements: Seq<ElementType>)
    requires
        elements.no_duplicates(),
        !elements.contains(ElementType::Neutral),
    ensures
        elements.len() <= 4,
{
    if elements.len() > 4 {
        assert(elements[0] != ElementType::Neutral) by {
            assert(elements.contains(elements[0]));
        }
        assert(elements.contains(elements[1]));
        assert(elements.contains(elements[2]));
        assert(elements.contains(elements[3]));
        assert(elements.contains(elements[4]));
        assert(elements[0] != elements[1] && elements[0] != elements[2] && elements[0]
            != elements[3] && elements[0] != elements[4]);
        assert(elements[1] != elements[2] && elements[1] != elements[3] && elements[1]
            != elements[4]);
        assert(elements[2] != elements[3] && elements[2] != elements[4] && elements[3]
            != elements[4]);
    }
}

/// The elements of a combo that the cards of a hand form: none occurs
/// twice, the neutral element does not occur, and there are four at most.
pub proof fn lemma_offer_elements(hand: Seq<CardView>, combo: HandView)
    requires
        offered_by(hand, combo),
    ensures
        combo.suits().no_duplicates(),
        !combo.suits().contains(ElementType::Neutral),
        combo.suits().len() <= 4,
{
    let at = combo.card_indices();
    match combo {
        HandView::DoubleTrouble { .. } => {
            let one = match_group(group_at(hand, at.take(2)))->0;
            let other = match_group(group_at(hand, at.skip(2)))->0;
            lemma_match_group(group_at(hand, at.take(2)));
            lemma_match_group(group_at(hand, at.skip(2)));
            let both = one.elements + other.elements;
            lemma_distinct(both);
            if both.contains(ElementType::Neutral) {
                let to = choose|to: int| 0 <= to < both.len() && both[to] == ElementType::Neutral;
                if to < one.elements.len() {
                    assert(one.elements[to] == ElementType::Neutral);
                } else {
                    assert(other.elements[to - one.elements.len()] == ElementType::Neutral);
                }
            }
            lemma_elements_at_most_four(distinct(both));
        },
        _ => {
            lemma_match_group(group_at(hand, at));
        },
    }
}

/// What was found for a group, as plain values.
pub open spec fn group_match_view(found: Option<(u8, Vec<ElementType>)>) -> Option<GroupMatch> {
    match found {
        Some((value, elements)) => Some(GroupMatch { value, elements: elements@ }),
        None => None,
    }
}

/// What was found for a slot, as plain values.
pub open spec fn found_view(found: Option<HandType>) -> Option<HandView> {
    match found {
        Some(hand) => Some(hand@),
        None => None,
    }
}

impl Pattern {
    /// How many cards the pattern takes.
    pub fn group_size(&self) -> (size: usize)
        ensures
            size == self.size(),
    {
        match self {
            Pattern::Jackpot => 4,
            Pattern::TripleThreat => 3,
            Pattern::MatchedEdge => 2,
        }
    }
}

/// Whether `elements` holds `element`.
pub fn holds_element(elements: &Vec<ElementType>, element: ElementType) -> (held: bool)
    ensures
        held == elements@.contains(element),
{
    let mut t: usize = 0;
    while t < elements.len()
        invariant
            t <= elements.len(),
            forall|s: int| 0 <= s < t ==> elements@[s] != element,
        decreases elements.len() - t,
    {
        if elements[t] == element {
            return true;
        }
        t += 1;
    }
    false
}

/// The list of `elements` without its repetitions.
pub fn distinct_elements(elements: &Vec<ElementType>) -> (kept: Vec<ElementType>)
    ensures
        kept@ == distinct(elements@),
{
    let mut kept: Vec<ElementType> = Vec::new();
    let mut t: usize = 0;
    while t < elements.len()
        invariant
            t <= elements.len(),
            kept@ == distinct(elements@.take(t as int)),
        decreases elements.len() - t,
    {
        assert(elements@.take(t + 1).drop_last() =~= elements@.take(t as int));
        if !holds_element(&kept, elements[t]) {
            kept.push(elements[t]);
        }
        t += 1;
    }
    assert(elements@.take(t as int) =~= elements@);
    kept
}

/// Whether every position of the slot lies in the hand.
pub fn slot_in_bounds(hand: &Vec<CardType>, slot: &Vec<usize>) -> (inside: bool)
    ensures
        inside == in_bounds(slot@, hand@.len()),
{
    let mut t: usize = 0;
    while t < slot.len()
        invariant
            t <= slot.len(),
            forall|s: int| 0 <= s < t ==> (#[trigger] slot@[s]) < hand@.len(),
        decreases slot.len() - t,
    {
        if slot[t] >= hand.len() {
            return false;
        }
        t += 1;
    }
    true
}

/// How many jokers stand at the positions of the slot.
pub(crate) fn count_wildcards(hand: &Vec<CardType>, slot: &Vec<usize>) -> (jokers: usize)
    requires
        in_bounds(slot@, hand@.len()),
    ensures
        jokers == wildcard_count(group_at(card_views(hand@), slot@)),
{
    let ghost group = group_at(card_views(hand@), slot@);
    let mut jokers: usize = 0;
    let mut t: usize = 0;
    while t < slot.len()
        invariant
            t <= slot.len(),
            in_bounds(slot@, hand@.len()),
            group == group_at(card_views(hand@), slot@),
            jokers == wildcard_count(group.take(t as int)),
            jokers <= t,
        decreases slot.len() - t,
    {
        assert(group.take(t + 1).drop_last() =~= group.take(t as int));
        match &hand[slot[t]] {
            CardType::Joker => {
                jokers += 1;
            },
            CardType::Number(_, _) => {},
        }
        t += 1;
    }
    assert(group.take(t as int) =~= group);
    jokers
}

/// Applies the shared rule to the cards at the positions of the slot.
pub(crate) fn check_group(hand: &Vec<CardType>, slot: &Vec<usize>) -> (found: Option<
    (u8, Vec<ElementType>),
>)
    requires
        in_bounds(slot@, hand@.len()),
    ensures
        group_match_view(found) == match_group(group_at(card_views(hand@), slot@)),
{
    let ghost group = group_at(card_views(hand@), slot@);
    let mut value: Option<u8> = None;
    let mut jokers: usize = 0;
    let mut elements: Vec<ElementType> = Vec::new();
    let ghost mut first: int = 0;
    let mut t: usize = 0;
    while t < slot.len()
        invariant
            t <= slot.len(),
            in_bounds(slot@, hand@.len()),
            group == group_at(card_views(hand@), slot@),
            jokers == wildcard_count(group.take(t as int)),
            elements@ == distinct(numbered_elements(group.take(t as int))),
            jokers + elements@.len() <= t,
            value == first_rank(group.take(t as int)),
            value matches Some(rank) ==> 0 <= first < t && has_rank(group[first], rank),
            forall|a: int, rank: u8|
                0 <= a < t && #[trigger] has_rank(group[a], rank) ==> value == Some(rank),
        decreases slot.len() - t,
    {
        assert(group.take(t + 1).drop_last() =~= group.take(t as int));
        match &hand[slot[t]] {
            CardType::Number(rank, suit) => {
                match value {
                    None => {
                        value = Some(*rank);
                        proof {
                            first = t as int;
                        }
                    },
                    Some(seen) => {
                        if seen != *rank {
                            return None;
                        }
                    },
                }
                if suit.element != ElementType::Neutral {
                    assert(numbered_elements(group.take(t + 1)).drop_last() =~= numbered_elements(
                        group.take(t as int),
                    ));
                    if !holds_element(&elements, suit.element) {
                        elements.push(suit.element);
                    }
                }
            },
            CardType::Joker => {
                jokers += 1;
            },
        }
        t += 1;
    }
    assert(group.take(t as int) =~= group);
    assert forall|a: int, b: int| 0 <= a < group.len() && 0 <= b < group.len() implies same_rank(
        #[trigger] group[a],
        #[trigger] group[b],
    ) by {
        if let (CardView::Number(one, _), CardView::Number(other, _)) = (group[a], group[b]) {
            assert(has_rank(group[a], one));
            assert(has_rank(group[b], other));
        }
    }
    if jokers + elements.len() == slot.len() {
        let value = match value {
            Some(rank) => rank,
            None => WILDCARD_VALUE,
        };
        if jokers > 0 {
            let mut all: Vec<ElementType> = Vec::new();
            all.push(ElementType::Air);
            all.push(ElementType::Earth);
            all.push(ElementType::Fire);
            all.push(ElementType::Ice);
            assert(all@ =~= full_elements());
            Some((value, all))
        } else {
            Some((value, elements))
        }
    } else {
        None
    }
}

/// Looks for a combo of `pattern` at the positions of the slot.
pub fn check_pattern(hand: &Vec<CardType>, pattern: Pattern, slot: &Vec<usize>) -> (found: Option<
    HandType,
>)
    ensures
        found_view(found) == match_at(card_views(hand@), pattern, slot@),
{
    if slot.len() != pattern.group_size() || !slot_in_bounds(hand, slot) {
        return None;
    }
    if pattern == Pattern::Jackpot && count_wildcards(hand, slot) > 0 {
        return None;
    }
    match check_group(hand, slot) {
        Some((value, suits)) => {
            let card_indices = slot.clone();
            Some(
                match pattern {
                    Pattern::Jackpot => HandType::Jackpot { value, suits, card_indices },
                    Pattern::TripleThreat => HandType::TripleThreat { value, suits, card_indices },
                    Pattern::MatchedEdge => HandType::MatchedEdge { value, suits, card_indices },
                },
            )
        },
        None => None,
    }
}

/// Looks for a double trouble made of the two given pairs.
pub fn check_pairs(hand: &Vec<CardType>, first: &Vec<usize>, second: &Vec<usize>) -> (found: Option<
    HandType,
>)
    ensures
        found_view(found) == double_trouble_at(card_views(hand@), first@, second@),
{
    if first.len() != 2 || second.len() != 2 || !slot_in_bounds(hand, first) || !slot_in_bounds(
        hand,
        second,
    ) {
        return None;
    }
    if first[0] == second[0] || first[0] == second[1] || first[1] == second[0] || first[1]
        == second[1] {
        return None;
    }
    match (check_group(hand, first), check_group(hand, second)) {
        (Some((first_pair_value, first_elements)), Some((second_pair_value, second_elements))) => {
            if first_pair_value == second_pair_value {
                return None;
            }
            let mut both: Vec<ElementType> = first_elements;
            let mut rest: Vec<ElementType> = second_elements;
            both.append(&mut rest);
            let suits = distinct_elements(&both);
            let mut card_indices: Vec<usize> = Vec::new();
            card_indices.push(first[0]);
            card_indices.push(first[1]);
            card_indices.push(second[0]);
            card_indices.push(second[1]);
            assert(card_indices@ =~= first@ + second@);
            Some(
                HandType::DoubleTrouble {
                    first_pair_value,
                    second_pair_value,
                    suits,
                    card_indices,
                },
            )
        },
        _ => None,
    }
}

/// The slots as plain values.
pub open spec fn slot_views(found: Seq<Vec<usize>>) -> Seq<Seq<usize>> {
    found.map_values(|slot: Vec<usize>| slot@)
}

/// Lists the slots of `k` growing positions taken from `lo..n`.
pub fn slots_starting(lo: usize, n: usize, k: usize) -> (found: Vec<Vec<usize>>)
    ensures
        slot_views(found@) == slots_from(lo, n, k as nat),
    decreases n - lo,
{
    if k == 0 {
        let mut found: Vec<Vec<usize>> = Vec::new();
        found.push(Vec::new());
        found
    } else if lo >= n {
        let found: Vec<Vec<usize>> = Vec::new();
        found
    } else {
        let with_lo = slots_starting(lo + 1, n, k - 1);
        let mut without = slots_starting(lo + 1, n, k);
        let mut found: Vec<Vec<usize>> = Vec::new();
        let mut t: usize = 0;
        while t < with_lo.len()
            invariant
                t <= with_lo.len(),
                slot_views(found@) =~= prefixed(lo, slot_views(with_lo@)).take(t as int),
            decreases with_lo.len() - t,
        {
            let rest = &with_lo[t];
            let mut slot: Vec<usize> = Vec::new();
            slot.push(lo);
            let mut s: usize = 0;
            while s < rest.len()
                invariant
                    s <= rest.len(),
                    slot@ =~= seq![lo] + rest@.take(s as int),
                decreases rest.len() - s,
            {
                slot.push(rest[s]);
                s += 1;
            }
            assert(prefixed(lo, slot_views(with_lo@))[t as int] == slot@);
            let ghost so_far = found@;
            found.push(slot);
            assert(slot_views(found@) =~= slot_views(so_far).push(slot@));
            t += 1;
        }
        let ghost front = found@;
        found.append(&mut without);
        assert(slot_views(found@) =~= slot_views(front) + slots_from((lo + 1) as usize, n, k as nat));
        found
    }
}

/// Lists the slots of `k` positions in a hand of `n` cards, in the order in
/// which the hand is searched.
pub fn slots_of(n: usize, k: usize) -> (found: Vec<Vec<usize>>)
    ensures
        slot_views(found@) == slots(n, k as nat),
{
    slots_starting(0, n, k)
}

/// Adds to `hands` the combos of `pattern` found at the given slots.
pub fn collect_matches(
    hand: &Vec<CardType>,
    pattern: Pattern,
    among: &Vec<Vec<usize>>,
    hands: &mut Vec<HandType>,
)
    ensures
        hand_views(final(hands)@) == hand_views(old(hands)@) + matches_among(
            card_views(hand@),
            pattern,
            slot_views(among@),
        ),
{
    let ghost before = hand_views(hands@);
    let ghost all = slot_views(among@);
    let mut t: usize = 0;
    while t < among.len()
        invariant
            t <= among.len(),
            all == slot_views(among@),
            hand_views(hands@) =~= before + matches_among(
                card_views(hand@),
                pattern,
                all.take(t as int),
            ),
        decreases among.len() - t,
    {
        assert(all.take(t + 1).drop_last() =~= all.take(t as int));
        let ghost so_far = hands@;
        match check_pattern(hand, pattern, &among[t]) {
            Some(found) => {
                hands.push(found);
                assert(hand_views(hands@) =~= hand_views(so_far).push(found@));
            },
            None => {},
        }
        t += 1;
    }
    assert(all.take(t as int) =~= all);
}

/// Adds to `hands` the double troubles that each of `firsts` forms with each
/// of `seconds`.
pub fn collect_double_troubles(
    hand: &Vec<CardType>,
    firsts: &Vec<Vec<usize>>,
    seconds: &Vec<Vec<usize>>,
    hands: &mut Vec<HandType>,
)
    ensures
        hand_views(final(hands)@) == hand_views(old(hands)@) + double_troubles_among(
            card_views(hand@),
            slot_views(firsts@),
            slot_views(seconds@),
        ),
{
    let ghost before = hand_views(hands@);
    let ghost rows = slot_views(firsts@);
    let ghost columns = slot_views(seconds@);
    let mut a: usize = 0;
    while a < firsts.len()
        invariant
            a <= firsts.len(),
            rows == slot_views(firsts@),
            columns == slot_views(seconds@),
            hand_views(hands@) =~= before + double_troubles_among(
                card_views(hand@),
                rows.take(a as int),
                columns,
            ),
        decreases firsts.len() - a,
    {
        let ghost row_start = hand_views(hands@);
        let mut b: usize = 0;
        while b < seconds.len()
            invariant
                a < firsts.len(),
                b <= seconds.len(),
                rows == slot_views(firsts@),
                columns == slot_views(seconds@),
                hand_views(hands@) =~= row_start + double_troubles_with(
                    card_views(hand@),
                    rows[a as int],
                    columns.take(b as int),
                ),
            decreases seconds.len() - b,
        {
            assert(columns.take(b + 1).drop_last() =~= columns.take(b as int));
            let ghost so_far = hands@;
            match check_pairs(hand, &firsts[a], &seconds[b]) {
                Some(found) => {
                    hands.push(found);
                    assert(hand_views(hands@) =~= hand_views(so_far).push(found@));
                },
                None => {},
            }
            b += 1;
        }
        assert(columns.take(b as int) =~= columns);
        assert(rows.take(a + 1).drop_last() =~= rows.take(a as int));
        a += 1;
    }
    assert(rows.take(a as int) =~= rows);
}

/// Lists every combo that the hand offers.
pub fn search_hand(hand: &Vec<CardType>) -> (hands: Vec<HandType>)
    ensures
        hand_views(hands@) == possible_hands(card_views(hand@)),
{
    let n = hand.len();
    let mut hands: Vec<HandType> = Vec::new();
    let quads = slots_of(n, 4);
    let triples = slots_of(n, 3);
    let pairs = slots_of(n, 2);
    collect_matches(hand, Pattern::Jackpot, &quads, &mut hands);
    collect_double_troubles(hand, &pairs, &pairs, &mut hands);
    collect_matches(hand, Pattern::TripleThreat, &triples, &mut hands);
    collect_matches(hand, Pattern::MatchedEdge, &pairs, &mut hands);
    hands
}

} // verus!
