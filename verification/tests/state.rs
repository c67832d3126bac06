use card_combat::effect::EffectPayload;
use card_combat::error::EngineError;
use card_combat::order::{insert_descending, sort_descending};
use card_combat::state::PlayerState;
use card_combat::types::{CardType, Deck, ElementType, Suit};

use ElementType::{Air, Earth, Fire, Ice};

fn card(rank: u8, element: ElementType) -> CardType {
    CardType::Number(rank, Suit::new(element))
}

fn state(deck: Vec<CardType>, hand: Vec<CardType>, discard: Vec<CardType>) -> PlayerState {
    PlayerState { deck: Deck { cards: deck }, hand, discard }
}

fn total(state: &PlayerState) -> usize {
    state.deck.cards.len() + state.hand.len() + state.discard.len()
}

fn sorted(cards: &[CardType]) -> Vec<String> {
    let mut names: Vec<String> = cards.iter().map(|card| format!("{:?}", card)).collect();
    names.sort();
    names
}

#[test]
fn new_state_has_the_whole_deck_and_nothing_else() {
    let state = PlayerState::new();
    assert_eq!(state.deck.cards.len(), 30);
    assert!(state.hand.is_empty());
    assert!(state.discard.is_empty());
    assert_eq!(sorted(&state.deck.cards), sorted(&Deck::new().cards));
}

#[test]
fn draw_takes_the_top_cards_of_the_deck_top_first() {
    let mut state = state(vec![card(1, Fire), card(2, Ice), card(3, Earth)], vec![card(7, Air)], vec![]);
    assert_eq!(state.draw_to_hand(2), Ok(()));
    assert_eq!(state.deck.cards, vec![card(1, Fire)]);
    assert_eq!(state.hand, vec![card(7, Air), card(3, Earth), card(2, Ice)]);
    assert!(state.discard.is_empty());
}

#[test]
fn draw_of_no_card_changes_nothing() {
    let mut state = state(vec![], vec![card(7, Air)], vec![card(1, Fire)]);
    assert_eq!(state.draw_to_hand(0), Ok(()));
    assert!(state.deck.cards.is_empty());
    assert_eq!(state.hand, vec![card(7, Air)]);
    assert_eq!(state.discard, vec![card(1, Fire)]);
}

#[test]
fn draw_from_an_empty_deck_takes_the_discard_pile_back() {
    let pile = vec![card(1, Fire), card(2, Ice), card(3, Earth)];
    let mut state = state(vec![], vec![card(7, Air)], pile.clone());
    assert_eq!(state.draw_to_hand(1), Ok(()));
    assert!(state.discard.is_empty());
    assert_eq!(state.deck.cards.len(), 2);
    assert_eq!(state.hand.len(), 2);
    assert_eq!(state.hand[0], card(7, Air));
    let mut back = state.deck.cards.clone();
    back.push(state.hand[1].clone());
    assert_eq!(sorted(&back), sorted(&pile));
}

#[test]
fn draw_goes_through_the_deck_before_it_takes_the_discard_pile() {
    let mut state = state(vec![card(5, Fire), card(6, Ice)], vec![], vec![card(1, Air), card(2, Air)]);
    assert_eq!(state.draw_to_hand(3), Ok(()));
    assert_eq!(state.hand[0], card(6, Ice));
    assert_eq!(state.hand[1], card(5, Fire));
    assert_eq!(state.hand.len(), 3);
    assert_eq!(state.deck.cards.len(), 1);
    assert!(state.discard.is_empty());
}

#[test]
fn draw_with_no_card_left_fails_and_changes_nothing() {
    let mut state = state(vec![], vec![card(7, Air)], vec![]);
    assert_eq!(state.draw_to_hand(1), Err(EngineError::ExhaustedSupply));
    assert_eq!(state.hand, vec![card(7, Air)]);
    assert!(state.deck.cards.is_empty());
    assert!(state.discard.is_empty());
}

#[test]
fn draw_that_runs_out_keeps_what_it_drew() {
    let mut state = state(vec![card(1, Fire), card(2, Ice)], vec![], vec![card(3, Earth)]);
    assert_eq!(state.draw_to_hand(5), Err(EngineError::ExhaustedSupply));
    assert_eq!(state.hand, vec![card(2, Ice), card(1, Fire), card(3, Earth)]);
    assert!(state.deck.cards.is_empty());
    assert!(state.discard.is_empty());
}

#[test]
fn draw_of_exactly_what_is_left_succeeds() {
    let mut state = state(vec![card(1, Fire)], vec![], vec![card(3, Earth), card(4, Earth)]);
    assert_eq!(state.draw_to_hand(3), Ok(()));
    assert_eq!(state.hand.len(), 3);
    assert_eq!(total(&state), 3);
}

#[test]
fn discard_moves_the_card_and_shifts_the_hand() {
    let mut state = state(vec![], vec![card(1, Fire), card(2, Ice), card(3, Earth)], vec![card(7, Air)]);
    assert_eq!(state.discard_from_hand(1), Ok(()));
    assert_eq!(state.hand, vec![card(1, Fire), card(3, Earth)]);
    assert_eq!(state.discard, vec![card(7, Air), card(2, Ice)]);
}

#[test]
fn discard_outside_the_hand_fails_and_changes_nothing() {
    let mut state = state(vec![], vec![card(1, Fire)], vec![]);
    assert_eq!(state.discard_from_hand(1), Err(EngineError::IndexOutOfBounds));
    assert_eq!(state.hand, vec![card(1, Fire)]);
    assert!(state.discard.is_empty());
    let mut empty = PlayerState { deck: Deck { cards: vec![] }, hand: vec![], discard: vec![] };
    assert_eq!(empty.discard_from_hand(0), Err(EngineError::IndexOutOfBounds));
}

#[test]
fn discard_all_stops_at_the_first_position_outside_the_hand() {
    let mut state = state(vec![], vec![card(1, Fire), card(2, Ice), card(3, Earth)], vec![]);
    assert_eq!(state.discard_all(&vec![2, 2, 0]), Err(EngineError::IndexOutOfBounds));
    assert_eq!(state.hand, vec![card(1, Fire), card(2, Ice)]);
    assert_eq!(state.discard, vec![card(3, Earth)]);
    assert_eq!(state.discard_all(&vec![1, 0]), Ok(()));
    assert!(state.hand.is_empty());
}

#[test]
fn thirty_cards_stay_thirty_cards() {
    let mut state = PlayerState::new();
    assert_eq!(total(&state), 30);
    assert_eq!(state.draw_to_hand(5), Ok(()));
    assert_eq!(total(&state), 30);
    for round in 0..40 {
        assert_eq!(state.discard_from_hand(round % 5), Ok(()));
        assert_eq!(total(&state), 30);
        assert_eq!(state.discard_from_hand(0), Ok(()));
        assert_eq!(state.draw_to_hand(2), Ok(()));
        assert_eq!(total(&state), 30);
        assert_eq!(state.hand.len(), 5);
        let offered = state.find_possible_hands().len();
        if offered > 0 {
            assert!(state.resolve_combo(1 + round % offered).is_ok());
            assert_eq!(total(&state), 30);
            assert_eq!(state.hand.len(), 5);
        }
    }
    let mut all = state.deck.cards.clone();
    all.extend(state.hand.iter().cloned());
    all.extend(state.discard.iter().cloned());
    assert_eq!(sorted(&all), sorted(&Deck::new().cards));
}

#[test]
fn resolve_discards_the_cards_of_the_combo_and_draws_the_hand_full() {
    let hand = vec![card(1, Fire), card(4, Fire), card(2, Ice), card(4, Ice), card(3, Earth)];
    let deck = vec![card(5, Air), card(6, Air), card(7, Air)];
    let mut state = state(deck, hand, vec![]);
    let offered = state.find_possible_hands();
    assert_eq!(offered.len(), 1);
    assert_eq!(offered[0].card_indices(), &vec![1, 3]);
    let effect = state.resolve_combo(1);
    assert_eq!(effect, Ok(EffectPayload::MatchedEdge { bonus_damage: 4, elements: vec![Fire, Ice] }));
    assert_eq!(state.hand.len(), 5);
    assert_eq!(state.hand, vec![card(1, Fire), card(2, Ice), card(3, Earth), card(7, Air), card(6, Air)]);
    assert_eq!(state.discard, vec![card(4, Ice), card(4, Fire)]);
    assert_eq!(state.deck.cards, vec![card(5, Air)]);
}

#[test]
fn resolve_turns_down_a_number_that_is_not_in_the_list() {
    let hand = vec![card(1, Fire), card(4, Fire), card(2, Ice), card(4, Ice), card(3, Earth)];
    let mut state = state(vec![card(5, Air)], hand.clone(), vec![]);
    assert_eq!(state.resolve_combo(0), Err(EngineError::InvalidSelection));
    assert_eq!(state.resolve_combo(2), Err(EngineError::InvalidSelection));
    assert_eq!(state.hand, hand);
    assert_eq!(state.deck.cards, vec![card(5, Air)]);
    assert!(state.discard.is_empty());
}

#[test]
fn resolve_discards_from_the_highest_position_down_whatever_the_order_of_the_pairs() {
    let hand = vec![card(2, Fire), card(2, Ice), card(5, Fire), card(5, Earth), card(7, Air)];
    let deck = vec![card(1, Air), card(3, Air), card(4, Air), card(6, Air)];
    let mut state = state(deck, hand, vec![]);
    let effect = state.resolve_combo(2);
    assert_eq!(
        effect,
        Ok(EffectPayload::DoubleTrouble {
            damage: 22,
            first_pair_value: 5,
            second_pair_value: 2,
            elements: vec![Fire, Earth, Ice],
        })
    );
    assert_eq!(state.discard, vec![card(5, Earth), card(5, Fire), card(2, Ice), card(2, Fire)]);
    assert_eq!(state.hand.len(), 5);
    assert_eq!(state.hand[0], card(7, Air));
    assert!(state.deck.cards.is_empty());
}

#[test]
fn resolve_without_cards_to_draw_reports_it_and_keeps_the_discards() {
    let hand = vec![card(4, Fire), card(4, Ice)];
    let mut state = state(vec![], hand, vec![]);
    assert_eq!(state.resolve_combo(1), Err(EngineError::ExhaustedSupply));
    assert_eq!(sorted(&state.hand), sorted(&[card(4, Ice), card(4, Fire)]));
    assert!(state.discard.is_empty());
    assert!(state.deck.cards.is_empty());
}

#[test]
fn resolve_of_a_hand_over_five_cards_draws_nothing() {
    let hand = vec![
        card(4, Fire),
        card(4, Ice),
        card(1, Air),
        card(2, Air),
        card(3, Air),
        card(5, Air),
        card(6, Air),
        card(7, Air),
    ];
    let mut state = state(vec![card(7, Earth)], hand, vec![]);
    assert!(state.resolve_combo(1).is_ok());
    assert_eq!(state.hand.len(), 6);
    assert_eq!(state.deck.cards.len(), 1);
}

#[test]
fn effects_have_their_numbers() {
    let mut triple = state(
        vec![card(1, Air), card(2, Air), card(3, Air)],
        vec![card(6, Fire), card(6, Ice), card(6, Earth)],
        vec![],
    );
    assert_eq!(
        triple.resolve_combo(1),
        Ok(EffectPayload::TripleThreat { heal: 21, damage: 11, elements: vec![Fire, Ice, Earth] })
    );
    let jackpot = card_combat::types::HandType::Jackpot {
        value: 3,
        suits: vec![Fire, Ice, Earth, Air],
        card_indices: vec![0, 1, 2, 3],
    };
    assert_eq!(
        jackpot.effect(),
        EffectPayload::Jackpot { recovery: 777, elements: vec![Fire, Ice, Earth, Air] }
    );
    let high = card_combat::types::HandType::DoubleTrouble {
        first_pair_value: 255,
        second_pair_value: 255,
        suits: vec![],
        card_indices: vec![0, 1, 2, 3],
    };
    assert_eq!(
        high.effect(),
        EffectPayload::DoubleTrouble {
            damage: 525,
            first_pair_value: 255,
            second_pair_value: 255,
            elements: vec![],
        }
    );
}

#[test]
fn mulligan_trades_the_cards_at_the_positions() {
    let hand = vec![card(1, Fire), card(2, Ice), card(3, Earth), card(4, Air), card(5, Fire)];
    let deck = vec![card(6, Air), card(7, Air)];
    let mut state = state(deck, hand, vec![]);
    assert_eq!(state.mulligan(&vec![2, 4]), Ok(()));
    assert_eq!(state.hand, vec![card(1, Fire), card(3, Earth), card(5, Fire), card(7, Air), card(6, Air)]);
    assert_eq!(state.discard, vec![card(4, Air), card(2, Ice)]);
    assert!(state.deck.cards.is_empty());
}

#[test]
fn mulligan_turns_down_positions_that_are_not_valid() {
    let hand = vec![card(1, Fire), card(2, Ice), card(3, Earth)];
    let mut state = state(vec![card(6, Air)], hand.clone(), vec![]);
    for positions in [vec![], vec![0], vec![4], vec![1, 0], vec![1, 1, 1, 1, 1, 1], vec![usize::MAX]] {
        assert_eq!(state.mulligan(&positions), Err(EngineError::IndexOutOfBounds));
        assert_eq!(state.hand, hand);
        assert!(state.discard.is_empty());
        assert_eq!(state.deck.cards.len(), 1);
    }
}

#[test]
fn mulligan_with_a_position_given_twice_takes_the_card_behind_too() {
    let hand = vec![card(1, Fire), card(2, Ice), card(3, Earth)];
    let mut state = state(vec![card(6, Air), card(7, Air)], hand, vec![]);
    assert_eq!(state.mulligan(&vec![2, 2]), Ok(()));
    assert_eq!(state.hand, vec![card(1, Fire), card(7, Air), card(6, Air)]);
    assert_eq!(state.discard, vec![card(2, Ice), card(3, Earth)]);
}

#[test]
fn mulligan_with_the_last_position_given_twice_ends_half_way() {
    let hand = vec![card(1, Fire), card(2, Ice), card(3, Earth)];
    let mut state = state(vec![card(6, Air), card(7, Air)], hand, vec![]);
    assert_eq!(state.mulligan(&vec![3, 3]), Err(EngineError::IndexOutOfBounds));
    assert_eq!(state.hand, vec![card(1, Fire), card(2, Ice)]);
    assert_eq!(state.discard, vec![card(3, Earth)]);
    assert_eq!(state.deck.cards.len(), 2);
}

#[test]
fn mulligan_without_cards_to_draw_reports_it() {
    let hand = vec![card(1, Fire), card(2, Ice)];
    let mut state = state(vec![], hand, vec![]);
    assert_eq!(state.mulligan(&vec![1]), Ok(()));
    assert_eq!(state.hand, vec![card(2, Ice), card(1, Fire)]);
    let mut bare = PlayerState {
        deck: Deck { cards: vec![] },
        hand: vec![card(1, Fire)],
        discard: vec![],
    };
    assert_eq!(bare.draw_to_hand(1), Err(EngineError::ExhaustedSupply));
    let mut short = PlayerState {
        deck: Deck { cards: vec![] },
        hand: vec![card(1, Fire), card(2, Ice)],
        discard: vec![],
    };
    assert_eq!(short.mulligan(&vec![1, 2]), Ok(()));
    assert_eq!(short.hand.len(), 2);
}

#[test]
fn hand_snapshot_copies_the_hand() {
    let hand = vec![card(1, Fire), CardType::Joker];
    let state = state(vec![], hand.clone(), vec![]);
    assert_eq!(state.hand_snapshot(), hand);
}

#[test]
fn positions_are_sorted_from_the_highest_down() {
    assert_eq!(sort_descending(&vec![1, 3, 0, 2]), vec![3, 2, 1, 0]);
    assert_eq!(sort_descending(&vec![2, 2, 5]), vec![5, 2, 2]);
    assert_eq!(sort_descending(&vec![]), Vec::<usize>::new());
    let mut sorted = vec![9, 4, 4, 1];
    insert_descending(&mut sorted, 4);
    assert_eq!(sorted, vec![9, 4, 4, 4, 1]);
    insert_descending(&mut sorted, 10);
    insert_descending(&mut sorted, 0);
    assert_eq!(sorted, vec![10, 9, 4, 4, 4, 1, 0]);
}
