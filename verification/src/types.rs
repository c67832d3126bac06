//! Elements, suits, cards, the deck, and the combos that cards form.

use rand::seq::SliceRandom;
use vstd::prelude::*;

verus! {

/// The element a suit belongs to. `Neutral` marks a suit without an element;
/// it never shows up in the element list of a combo.
#[derive(Debug, Clone, Copy, PartialEq, Eq, Structural)]
pub enum ElementType {
    Fire,
    Ice,
    Earth,
    Air,
    Neutral,
}

/// The glyph that stands for an element; the neutral element has none.
pub open spec fn element_symbol(element: ElementType) -> Seq<char> {
    match element {
        ElementType::Fire => "🔥"@,
        ElementType::Ice => "❄️"@,
        ElementType::Earth => "🪨"@,
        ElementType::Air => "💨"@,
        ElementType::Neutral => ""@,
    }
}

impl ElementType {
    /// The glyph of this element.
    pub fn symbol(&self) -> (glyph: &'static str)
        ensures
            glyph@ == element_symbol(*self),
    {
        match self {
            ElementType::Fire => "🔥",
            ElementType::Ice => "❄️",
            ElementType::Earth => "🪨",
            ElementType::Air => "💨",
            ElementType::Neutral => "",
        }
    }
}

/// A suit: an element together with the glyph it is shown with.
#[derive(Debug, PartialEq)]
pub struct Suit {
    pub element: ElementType,
    pub symbol: String,
}

/// What a [`Suit`] holds, as plain values.
pub struct SuitView {
    pub element: ElementType,
    pub symbol: Seq<char>,
}

impl View for Suit {
    type V = SuitView;

    open spec fn view(&self) -> SuitView {
        SuitView { element: self.element, symbol: self.symbol@ }
    }
}

/// The suit of an element in the standard deck.
pub open spec fn standard_suit(element: ElementType) -> SuitView {
    SuitView { element, symbol: element_symbol(element) }
}

impl Clone for Suit {
    fn clone(&self) -> (copy: Self)
        ensures
            copy == *self,
    {
        Suit { element: self.element, symbol: self.symbol.clone() }
    }
}

impl Suit {
    /// The standard suit of `element`, with the element's own glyph.
    pub fn new(element: ElementType) -> (suit: Suit)
        ensures
            suit@ == standard_suit(element),
    {
        Suit { element, symbol: element.symbol().to_owned() }
    }
}

/// A card: either a numbered card of some suit, or a joker, which has no
/// rank or suit of its own and stands in for any rank.
#[derive(Debug, PartialEq)]
pub enum CardType {
    Number(u8, Suit),
    Joker,
}

/// What a [`CardType`] holds, as plain values.
pub enum CardView {
    Number(u8, SuitView),
    Joker,
}

impl View for CardType {
    type V = CardView;

    open spec fn view(&self) -> CardView {
        match self {
            CardType::Number(rank, suit) => CardView::Number(*rank, suit@),
            CardType::Joker => CardView::Joker,
        }
    }
}

impl Clone for CardType {
    fn clone(&self) -> (copy: Self)
        ensures
            copy == *self,
    {
        match self {
            CardType::Number(rank, suit) => CardType::Number(*rank, suit.clone()),
            CardType::Joker => CardType::Joker,
        }
    }
}

/// The views of a sequence of cards, card by card.
pub open spec fn card_views(cards: Seq<CardType>) -> Seq<CardView> {
    cards.map_values(|card: CardType| card@)
}

/// The element of the `slot`-th suit in deck order.
pub open spec fn standard_element(slot: int) -> ElementType {
    if slot == 0 {
        ElementType::Fire
    } else if slot == 1 {
        ElementType::Ice
    } else if slot == 2 {
        ElementType::Earth
    } else {
        ElementType::Air
    }
}

/// The card at position `i` of a freshly built deck: ranks one to seven,
/// each in the four suits, then two jokers.
pub open spec fn standard_card(i: int) -> CardView {
    if 0 <= i < 28 {
        CardView::Number((i / 4 + 1) as u8, standard_suit(standard_element(i % 4)))
    } else {
        CardView::Joker
    }
}

/// The standard deck in the order in which it is built.
pub open spec fn standard_deck() -> Seq<CardView> {
    Seq::new(30, |i: int| standard_card(i))
}

/// The place of an element among the suits of the deck.
pub open spec fn element_slot(element: ElementType) -> int {
    match element {
        ElementType::Fire => 0,
        ElementType::Ice => 1,
        ElementType::Earth => 2,
        ElementType::Air => 3,
        ElementType::Neutral => 4,
    }
}

/// Where the numbered card of `rank` and `element` lies in the standard
/// deck.
pub open spec fn standard_position(rank: int, element: ElementType) -> int {
    (rank - 1) * 4 + element_slot(element)
}

/// The card at position `i` is a numbered card of the standard deck, and
/// `i` is the one place where the deck holds it.
pub open spec fn is_standard_number(i: int) -> bool {
    match standard_deck()[i] {
        CardView::Number(rank, suit) => {
            &&& 1 <= rank <= 7
            &&& suit.element != ElementType::Neutral
            &&& suit == standard_suit(suit.element)
            &&& standard_position(rank as int, suit.element) == i
        },
        CardView::Joker => false,
    }
}

/// The standard deck holds thirty cards: for each rank from one to seven
/// and each of the four elements the numbered card of that rank and
/// element, once, and two jokers.
pub proof fn lemma_standard_deck_complete()
    ensures
        standard_deck().len() == 30,
        forall|rank: int, element: ElementType|
            1 <= rank <= 7 && element != ElementType::Neutral ==> 0 <= #[trigger] standard_position(
                rank,
                element,
            ) < 28 && standard_deck()[standard_position(rank, element)] == CardView::Number(
                rank as u8,
                standard_suit(element),
            ),
        forall|i: int| 0 <= i < 28 ==> #[trigger] is_standard_number(i),
        forall|i: int| 28 <= i < 30 ==> #[trigger] standard_deck()[i] is Joker,
{
}

/// An ordered pile of cards. The last card is the top of the pile.
#[derive(Debug)]
pub struct Deck {
    pub cards: Vec<CardType>,
}

impl View for Deck {
    type V = Seq<CardView>;

    open spec fn view(&self) -> Seq<CardView> {
        card_views(self.cards@)
    }
}

impl Deck {
    /// Builds the standard deck in its fixed order.
    pub fn new() -> (deck: Deck)
        ensures
            deck@ == standard_deck(),
    {
        let mut cards: Vec<CardType> = Vec::new();
        let mut number: u8 = 1;
        while number <= 7
            invariant
                1 <= number <= 8,
                cards@.len() == 4 * (number - 1),
                forall|i: int| 0 <= i < cards@.len() ==> (#[trigger] cards@[i])@ == standard_card(i),
            decreases 8 - number,
        {
            cards.push(CardType::Number(number, Suit::new(ElementType::Fire)));
            cards.push(CardType::Number(number, Suit::new(ElementType::Ice)));
            cards.push(CardType::Number(number, Suit::new(ElementType::Earth)));
            cards.push(CardType::Number(number, Suit::new(ElementType::Air)));
            number = number + 1;
        }
        cards.push(CardType::Joker);
        cards.push(CardType::Joker);
        let deck = Deck { cards };
        deck
    }

    /// Puts the cards in a random order, with `SliceRandom::shuffle` of the
    /// `rand` crate on the thread's generator. Of the outcome only this is
    /// claimed: the pile holds the same cards as before, each as often as
    /// before. Which order comes out is left open.
    #[verifier::external_body]
    pub fn shuffle(&mut self)
        ensures
            final(self)@.to_multiset() == old(self)@.to_multiset(),
    {
        self.cards.shuffle(&mut rand::thread_rng());
    }
}

/// A scoring pattern found in a hand: its value, the elements it may be
/// played with, and the positions in the hand of the cards it uses up.
#[derive(Debug, PartialEq)]
pub enum HandType {
    TripleThreat { value: u8, suits: Vec<ElementType>, card_indices: Vec<usize> },
    MatchedEdge { value: u8, suits: Vec<ElementType>, card_indices: Vec<usize> },
    Jackpot { value: u8, suits: Vec<ElementType>, card_indices: Vec<usize> },
    DoubleTrouble {
        first_pair_value: u8,
        second_pair_value: u8,
        suits: Vec<ElementType>,
        card_indices: Vec<usize>,
    },
}

/// What a [`HandType`] holds, as plain values.
pub enum HandView {
    TripleThreat { value: u8, suits: Seq<ElementType>, card_indices: Seq<usize> },
    MatchedEdge { value: u8, suits: Seq<ElementType>, card_indices: Seq<usize> },
    Jackpot { value: u8, suits: Seq<ElementType>, card_indices: Seq<usize> },
    DoubleTrouble {
        first_pair_value: u8,
        second_pair_value: u8,
        suits: Seq<ElementType>,
        card_indices: Seq<usize>,
    },
}

impl HandView {
    /// The elements the combo may be played with.
    pub open spec fn suits(self) -> Seq<ElementType> {
        match self {
            HandView::TripleThreat { suits, .. } => suits,
            HandView::MatchedEdge { suits, .. } => suits,
            HandView::Jackpot { suits, .. } => suits,
            HandView::DoubleTrouble { suits, .. } => suits,
        }
    }

    /// The positions in the hand of the cards the combo uses up.
    pub open spec fn card_indices(self) -> Seq<usize> {
        match self {
            HandView::TripleThreat { card_indices, .. } => card_indices,
            HandView::MatchedEdge { card_indices, .. } => card_indices,
            HandView::Jackpot { card_indices, .. } => card_indices,
            HandView::DoubleTrouble { card_indices, .. } => card_indices,
        }
    }
}

impl View for HandType {
    type V = HandView;

    open spec fn view(&self) -> HandView {
        match self {
            HandType::TripleThreat { value, suits, card_indices } => HandView::TripleThreat {
                value: *value,
                suits: suits@,
                card_indices: card_indices@,
            },
            HandType::MatchedEdge { value, suits, card_indices } => HandView::MatchedEdge {
                value: *value,
                suits: suits@,
                card_indices: card_indices@,
            },
            HandType::Jackpot { value, suits, card_indices } => HandView::Jackpot {
                value: *value,
                suits: suits@,
                card_indices: card_indices@,
            },
            HandType::DoubleTrouble {
                first_pair_value,
                second_pair_value,
                suits,
                card_indices,
            } => HandView::DoubleTrouble {
                first_pair_value: *first_pair_value,
                second_pair_value: *second_pair_value,
                suits: suits@,
                card_indices: card_indices@,
            },
        }
    }
}

impl Clone for HandType {
    fn clone(&self) -> (copy: Self)
        ensures
            copy@ == self@,
    {
        match self {
            HandType::TripleThreat { value, suits, card_indices } => HandType::TripleThreat {
                value: *value,
                suits: suits.clone(),
                card_indices: card_indices.clone(),
            },
            HandType::MatchedEdge { value, suits, card_indices } => HandType::MatchedEdge {
                value: *value,
                suits: suits.clone(),
                card_indices: card_indices.clone(),
            },
            HandType::Jackpot { value, suits, card_indices } => HandType::Jackpot {
                value: *value,
                suits: suits.clone(),
                card_indices: card_indices.clone(),
            },
            HandType::DoubleTrouble {
                first_pair_value,
                second_pair_value,
                suits,
                card_indices,
            } => HandType::DoubleTrouble {
                first_pair_value: *first_pair_value,
                second_pair_value: *second_pair_value,
                suits: suits.clone(),
                card_indices: card_indices.clone(),
            },
        }
    }
}

/// The views of a sequence of combos, combo by combo.
pub open spec fn hand_views(hands: Seq<HandType>) -> Seq<HandView> {
    hands.map_values(|hand: HandType| hand@)
}

impl HandType {
    /// The elements the combo may be played with.
    pub fn suits(&self) -> (suits: &Vec<ElementType>)
        ensures
            suits@ == self@.suits(),
    {
        match self {
            HandType::TripleThreat { suits, .. } => suits,
            HandType::MatchedEdge { suits, .. } => suits,
            HandType::Jackpot { suits, .. } => suits,
            HandType::DoubleTrouble { suits, .. } => suits,
        }
    }

    /// The positions in the hand of the cards the combo uses up.
    pub fn card_indices(&self) -> (card_indices: &Vec<usize>)
        ensures
            card_indices@ == self@.card_indices(),
    {
        match self {
            HandType::TripleThreat { card_indices, .. } => card_indices,
            HandType::MatchedEdge { card_indices, .. } => card_indices,
            HandType::Jackpot { card_indices, .. } => card_indices,
            HandType::DoubleTrouble { card_indices, .. } => card_indices,
        }
    }
}

} // verus!
