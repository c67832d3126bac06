//! How cards, hands and combos are shown to the player.

use crate::effect::{EffectPayload, EffectView};
use crate::matching::holds_element;
use crate::order::{descending, sort_descending};
use crate::text::{decimal, decimal_text};
use crate::types::{card_views, element_symbol, hand_views, CardType, CardView, ElementType, HandType, HandView};
use vstd::prelude::*;
use vstd::string::StringExecFns;

verus! {

/// The glyph of a rank from one to seven; a question mark for any other.
pub open spec fn rank_symbol(number: u8) -> Seq<char> {
    if number == 1 {
        "1️⃣"@
    } else if number == 2 {
        "2️⃣"@
    } else if number == 3 {
        "3️⃣"@
    } else if number == 4 {
        "4️⃣"@
    } else if number == 5 {
        "5️⃣"@
    } else if number == 6 {
        "6️⃣"@
    } else if number == 7 {
        "7️⃣"@
    } else {
        "❓"@
    }
}

impl CardType {
    /// The glyph of a rank.
    pub fn number_to_emoji(number: u8) -> (glyph: String)
        ensures
            glyph@ == rank_symbol(number),
    {
        let glyph = if number == 1 {
            "1️⃣"
        } else if number == 2 {
            "2️⃣"
        } else if number == 3 {
            "3️⃣"
        } else if number == 4 {
            "4️⃣"
        } else if number == 5 {
            "5️⃣"
        } else if number == 6 {
            "6️⃣"
        } else if number == 7 {
            "7️⃣"
        } else {
            "❓"
        };
        glyph.to_owned()
    }
}

/// The elements that a list shows: each element once, where it first
/// stands, and the neutral element not at all.
pub open spec fn shown_elements(elements: Seq<ElementType>) -> Seq<ElementType>
    decreases elements.len(),
{
    if elements.len() == 0 {
        Seq::empty()
    } else {
        let before = shown_elements(elements.drop_last());
        if elements.last() != ElementType::Neutral && !before.contains(elements.last()) {
            before.push(elements.last())
        } else {
            before
        }
    }
}

/// The glyphs of the elements, with a comma and a blank between them.
pub open spec fn joined_symbols(elements: Seq<ElementType>) -> Seq<char>
    decreases elements.len(),
{
    if elements.len() == 0 {
        Seq::empty()
    } else if elements.len() == 1 {
        element_symbol(elements[0])
    } else {
        joined_symbols(elements.drop_last()) + ", "@ + element_symbol(elements.last())
    }
}

/// A list of elements as text: the glyphs of the elements it shows in
/// square brackets, or `None` where it shows none.
pub open spec fn element_list_text(elements: Seq<ElementType>) -> Seq<char> {
    let shown = shown_elements(elements);
    if shown.len() == 0 {
        "None"@
    } else {
        "["@ + joined_symbols(shown) + "]"@
    }
}

/// Writes a list of elements as text.
pub fn format_element_list(elements: &[ElementType]) -> (text: String)
    ensures
        text@ == element_list_text(elements@),
{
    let mut shown: Vec<ElementType> = Vec::new();
    let mut t: usize = 0;
    while t < elements.len()
        invariant
            t <= elements.len(),
            shown@ == shown_elements(elements@.take(t as int)),
        decreases elements.len() - t,
    {
        assert(elements@.take(t + 1).drop_last() =~= elements@.take(t as int));
        let element = elements[t];
        if element != ElementType::Neutral && !holds_element(&shown, element) {
            shown.push(element);
        }
        t += 1;
    }
    assert(elements@.take(t as int) =~= elements@);
    if shown.len() == 0 {
        return "None".to_owned();
    }
    let mut text = "[".to_owned();
    let mut joined = String::new();
    let mut s: usize = 0;
    while s < shown.len()
        invariant
            s <= shown.len(),
            joined@ == joined_symbols(shown@.take(s as int)),
        decreases shown.len() - s,
    {
        assert(shown@.take(s + 1).drop_last() =~= shown@.take(s as int));
        if s > 0 {
            joined.append(", ");
        }
        joined.append(shown[s].symbol());
        s += 1;
    }
    assert(shown@.take(s as int) =~= shown@);
    text.append(joined.as_str());
    text.append("]");
    text
}

/// A combo as text: its name, its value or values, and its elements.
pub open spec fn hand_text(hand: HandView) -> Seq<char> {
    match hand {
        HandView::TripleThreat { value, suits, .. } => "Triple Threat: "@ + decimal(value as nat)
            + " (Elements: "@ + element_list_text(suits) + ")"@,
        HandView::MatchedEdge { value, suits, .. } => "Matched Edge: "@ + decimal(value as nat)
            + " (Elements: "@ + element_list_text(suits) + ")"@,
        HandView::Jackpot { value, suits, .. } => "Jackpot: "@ + decimal(value as nat)
            + " (Elements: "@ + element_list_text(suits) + ")"@,
        HandView::DoubleTrouble { first_pair_value, second_pair_value, suits, .. }
            => "Double Trouble: "@ + decimal(first_pair_value as nat) + " and "@ + decimal(
            second_pair_value as nat,
        ) + " (Elements: "@ + element_list_text(suits) + ")"@,
    }
}

impl HandType {
    /// The combo as text.
    pub fn to_string(&self) -> (text: String)
        ensures
            text@ == hand_text(self@),
    {
        let mut text = String::new();
        match self {
            HandType::TripleThreat { value, .. } => {
                text.append("Triple Threat: ");
                text.append(decimal_text(*value as u128).as_str());
            },
            HandType::MatchedEdge { value, .. } => {
                text.append("Matched Edge: ");
                text.append(decimal_text(*value as u128).as_str());
            },
            HandType::Jackpot { value, .. } => {
                text.append("Jackpot: ");
                text.append(decimal_text(*value as u128).as_str());
            },
            HandType::DoubleTrouble { first_pair_value, second_pair_value, .. } => {
                text.append("Double Trouble: ");
                text.append(decimal_text(*first_pair_value as u128).as_str());
                text.append(" and ");
                text.append(decimal_text(*second_pair_value as u128).as_str());
            },
        }
        text.append(" (Elements: ");
        text.append(format_element_list(self.suits().as_slice()).as_str());
        text.append(")");
        text
    }
}

/// The line of a card in the list of a hand: its number in the list, then
/// the glyphs of its rank and suit, or a question mark and the glyph of the
/// joker.
pub open spec fn card_line(number: nat, card: CardView) -> Seq<char> {
    match card {
        CardView::Number(rank, suit) => decimal(number) + ". "@ + rank_symbol(rank) + " "@
            + suit.symbol + "\n"@,
        CardView::Joker => decimal(number) + ". :question: 🃏\n"@,
    }
}

/// The lines of the cards of a hand, numbered from one.
pub open spec fn card_lines(hand: Seq<CardView>) -> Seq<char>
    decreases hand.len(),
{
    if hand.len() == 0 {
        Seq::empty()
    } else {
        card_lines(hand.drop_last()) + card_line(hand.len(), hand.last())
    }
}

/// A hand as text.
pub open spec fn hand_display(hand: Seq<CardView>) -> Seq<char> {
    if hand.len() == 0 {
        "Your hand is empty!"@
    } else {
        "Your hand:\n"@ + card_lines(hand)
    }
}

/// Writes a hand as text, one numbered line for each card.
pub fn format_hand_display(hand: &[CardType]) -> (text: String)
    ensures
        text@ == hand_display(card_views(hand@)),
{
    let ghost cards = card_views(hand@);
    if hand.len() == 0 {
        return "Your hand is empty!".to_owned();
    }
    let mut lines = String::new();
    let mut t: usize = 0;
    while t < hand.len()
        invariant
            t <= hand.len(),
            cards == card_views(hand@),
            lines@ == card_lines(cards.take(t as int)),
        decreases hand.len() - t,
    {
        assert(cards.take(t + 1).drop_last() =~= cards.take(t as int));
        lines.append(decimal_text(t as u128 + 1).as_str());
        match &hand[t] {
            CardType::Number(rank, suit) => {
                lines.append(". ");
                lines.append(CardType::number_to_emoji(*rank).as_str());
                lines.append(" ");
                lines.append(suit.symbol.as_str());
                lines.append("\n");
            },
            CardType::Joker => {
                lines.append(". :question: 🃏\n");
            },
        }
        t += 1;
    }
    assert(cards.take(t as int) =~= cards);
    let mut text = "Your hand:\n".to_owned();
    text.append(lines.as_str());
    text
}

/// What a combo costs in mind points.
pub open spec fn mind_point_cost(hand: HandView) -> nat {
    match hand {
        HandView::TripleThreat { .. } => 10,
        HandView::MatchedEdge { .. } => 5,
        HandView::Jackpot { .. } => 20,
        HandView::DoubleTrouble { .. } => 20,
    }
}

impl HandType {
    /// What the combo costs in mind points.
    pub fn mp_cost(&self) -> (cost: u8)
        ensures
            cost == mind_point_cost(self@),
    {
        match self {
            HandType::TripleThreat { .. } => 10,
            HandType::MatchedEdge { .. } => 5,
            HandType::Jackpot { .. } => 20,
            HandType::DoubleTrouble { .. } => 20,
        }
    }
}

/// The given positions, counted from one, with a comma and a blank between
/// them.
pub open spec fn joined_positions(positions: Seq<usize>) -> Seq<char>
    decreases positions.len(),
{
    if positions.len() == 0 {
        Seq::empty()
    } else if positions.len() == 1 {
        decimal((positions[0] + 1) as nat)
    } else {
        joined_positions(positions.drop_last()) + ", "@ + decimal((positions.last() + 1) as nat)
    }
}

/// The positions of a combo as the player sees them: counted from one, the
/// lowest first.
pub open spec fn positions_text(positions: Seq<usize>) -> Seq<char> {
    joined_positions(descending(positions).reverse())
}

/// The line of a combo in the list of what a hand offers: its number in
/// the list, the combo, its cost and its cards.
pub open spec fn combo_line(number: nat, hand: HandView) -> Seq<char> {
    decimal(number) + ". "@ + hand_text(hand) + " (MP Cost: "@ + decimal(mind_point_cost(hand))
        + ", Cards: "@ + positions_text(hand.card_indices()) + ")\n"@
}

/// The lines of the combos, numbered from one.
pub open spec fn combo_lines(hands: Seq<HandView>) -> Seq<char>
    decreases hands.len(),
{
    if hands.len() == 0 {
        Seq::empty()
    } else {
        combo_lines(hands.drop_last()) + combo_line(hands.len(), hands.last())
    }
}

/// The list of what a hand offers, as text.
pub open spec fn combo_list_text(hands: Seq<HandView>) -> Seq<char> {
    if hands.len() == 0 {
        "No valid hands available."@
    } else {
        "Available hands:\n"@ + combo_lines(hands)
    }
}

/// Writes the positions of a combo as the player sees them.
pub fn format_positions(positions: &Vec<usize>) -> (text: String)
    ensures
        text@ == positions_text(positions@),
{
    let sorted = sort_descending(positions);
    let ghost rising = sorted@.reverse();
    let mut text = String::new();
    let mut t: usize = 0;
    while t < sorted.len()
        invariant
            t <= sorted.len(),
            rising == sorted@.reverse(),
            text@ == joined_positions(rising.take(t as int)),
        decreases sorted.len() - t,
    {
        assert(rising.take(t + 1).drop_last() =~= rising.take(t as int));
        if t > 0 {
            text.append(", ");
        }
        text.append(decimal_text(sorted[sorted.len() - 1 - t] as u128 + 1).as_str());
        t += 1;
    }
    assert(rising.take(t as int) =~= rising);
    text
}

/// Writes the list of what a hand offers.
pub fn format_possible_hands(hands: &Vec<HandType>) -> (text: String)
    ensures
        text@ == combo_list_text(hand_views(hands@)),
{
    let ghost all = hand_views(hands@);
    if hands.len() == 0 {
        return "No valid hands available.".to_owned();
    }
    let mut lines = String::new();
    let mut t: usize = 0;
    while t < hands.len()
        invariant
            t <= hands.len(),
            all == hand_views(hands@),
            lines@ == combo_lines(all.take(t as int)),
        decreases hands.len() - t,
    {
        assert(all.take(t + 1).drop_last() =~= all.take(t as int));
        let hand = &hands[t];
        lines.append(decimal_text(t as u128 + 1).as_str());
        lines.append(". ");
        lines.append(hand.to_string().as_str());
        lines.append(" (MP Cost: ");
        lines.append(decimal_text(hand.mp_cost() as u128).as_str());
        lines.append(", Cards: ");
        lines.append(format_positions(hand.card_indices()).as_str());
        lines.append(")\n");
        t += 1;
    }
    assert(all.take(t as int) =~= all);
    let mut text = "Available hands:\n".to_owned();
    text.append(lines.as_str());
    text
}

/// The effect of a resolved combo as text.
pub open spec fn effect_text(effect: EffectView) -> Seq<char> {
    match effect {
        EffectView::TripleThreat { heal, damage, elements }
            => "Triple Threat resolved! Three targets of your choice recover or suffer from **dazed, shaken, slow or weak**. If the target recovers then it also heals Hit Points equal to "@
            + decimal(heal as nat) + ". If the target suffers it also takes "@ + decimal(
            damage as nat,
        ) + " "@ + element_list_text(elements) + " damage."@,
        EffectView::MatchedEdge { bonus_damage, elements }
            => "Matched Edge resolved! Your weapon strike deals "@ + decimal(bonus_damage as nat)
            + " bonus "@ + element_list_text(elements) + " damage!"@,
        EffectView::Jackpot { recovery, .. }
            => "Jackpot resolved! You and every ally present on the scene recover "@ + decimal(
            recovery as nat,
        ) + " Hit Points, "@ + decimal(recovery as nat)
            + " Mind Points, and recover from all status effects; any PCs who have surrendered but are still part of the scene immediately regain consciousness (this does not cancel the effects of their Surrender)."@,
        EffectView::DoubleTrouble { damage, first_pair_value, second_pair_value, elements }
            => "Double Trouble resolved! You deal damage equal to "@ + decimal(damage as nat)
            + " (15 + "@ + decimal(first_pair_value as nat) + " + "@ + decimal(
            second_pair_value as nat,
        )
            + ") to each of up to two different enemies you can see that are present on the scene; the type of this damage is one of your choice among those matching the suits of the resolved cards: "@
            + element_list_text(elements),
    }
}

impl EffectPayload {
    /// The effect as text.
    pub fn message(&self) -> (text: String)
        ensures
            text@ == effect_text(self@),
    {
        let mut text = String::new();
        match self {
            EffectPayload::TripleThreat { heal, damage, elements } => {
                text.append(
                    "Triple Threat resolved! Three targets of your choice recover or suffer from **dazed, shaken, slow or weak**. If the target recovers then it also heals Hit Points equal to ",
                );
                text.append(decimal_text(*heal as u128).as_str());
                text.append(". If the target suffers it also takes ");
                text.append(decimal_text(*damage as u128).as_str());
                text.append(" ");
                text.append(format_element_list(elements.as_slice()).as_str());
                text.append(" damage.");
            },
            EffectPayload::MatchedEdge { bonus_damage, elements } => {
                text.append("Matched Edge resolved! Your weapon strike deals ");
                text.append(decimal_text(*bonus_damage as u128).as_str());
                text.append(" bonus ");
                text.append(format_element_list(elements.as_slice()).as_str());
                text.append(" damage!");
            },
            EffectPayload::Jackpot { recovery, .. } => {
                text.append("Jackpot resolved! You and every ally present on the scene recover ");
                text.append(decimal_text(*recovery as u128).as_str());
                text.append(" Hit Points, ");
                text.append(decimal_text(*recovery as u128).as_str());
                text.append(
                    " Mind Points, and recover from all status effects; any PCs who have surrendered but are still part of the scene immediately regain consciousness (this does not cancel the effects of their Surrender).",
                );
            },
            EffectPayload::DoubleTrouble { damage, first_pair_value, second_pair_value, elements } => {
                text.append("Double Trouble resolved! You deal damage equal to ");
                text.append(decimal_text(*damage as u128).as_str());
                text.append(" (15 + ");
                text.append(decimal_text(*first_pair_value as u128).as_str());
                text.append(" + ");
                text.append(decimal_text(*second_pair_value as u128).as_str());
                text.append(
                    ") to each of up to two different enemies you can see that are present on the scene; the type of this damage is one of your choice among those matching the suits of the resolved cards: ",
                );
                text.append(format_element_list(elements.as_slice()).as_str());
            },
        }
        text
    }
}

} // verus!
