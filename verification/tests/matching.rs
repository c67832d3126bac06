use card_combat::matching::{check_pairs, check_pattern, slots_of, Pattern};
use card_combat::state::PlayerState;
use card_combat::types::{CardType, Deck, ElementType, HandType, Suit};

fn card(rank: u8, element: ElementType) -> CardType {
    CardType::Number(rank, Suit::new(element))
}

fn with_hand(hand: Vec<CardType>) -> PlayerState {
    PlayerState { deck: Deck { cards: Vec::new() }, hand, discard: Vec::new() }
}

use ElementType::{Air, Earth, Fire, Ice, Neutral};

#[test]
fn triple_with_wildcard_has_all_four_elements() {
    let state = with_hand(vec![card(4, Fire), card(4, Ice), CardType::Joker]);
    let found = state.check_triple(0, 1, 2);
    assert_eq!(
        found,
        Some(HandType::TripleThreat {
            value: 4,
            suits: vec![Air, Earth, Fire, Ice],
            card_indices: vec![0, 1, 2],
        })
    );
    if let Some(HandType::TripleThreat { suits, .. }) = found {
        assert_ne!(suits, vec![Fire, Ice]);
        for element in [Fire, Earth, Ice, Air] {
            assert!(suits.contains(&element));
        }
        assert_eq!(suits.len(), 4);
    }
}

#[test]
fn pair_without_wildcard_has_the_elements_of_its_cards() {
    let state = with_hand(vec![card(4, Fire), card(4, Ice)]);
    assert_eq!(
        state.check_pair(0, 1),
        Some(HandType::MatchedEdge { value: 4, suits: vec![Fire, Ice], card_indices: vec![0, 1] })
    );
    assert_eq!(state.check_pair_value(0, 1), Some((4, vec![Fire, Ice])));
}

#[test]
fn pair_of_wildcards_has_value_seven() {
    let state = with_hand(vec![CardType::Joker, CardType::Joker]);
    assert_eq!(
        state.check_pair(0, 1),
        Some(HandType::MatchedEdge {
            value: 7,
            suits: vec![Air, Earth, Fire, Ice],
            card_indices: vec![0, 1],
        })
    );
}

#[test]
fn numbered_cards_of_different_rank_do_not_match() {
    let state = with_hand(vec![card(4, Fire), card(5, Ice), CardType::Joker]);
    assert_eq!(state.check_pair(0, 1), None);
    assert_eq!(state.check_triple(0, 1, 2), None);
    assert_eq!(state.check_pair_value(0, 1), None);
}

#[test]
fn wildcard_takes_the_rank_of_the_numbered_card() {
    let state = with_hand(vec![CardType::Joker, card(3, Earth)]);
    assert_eq!(state.check_pair_value(0, 1), Some((3, vec![Air, Earth, Fire, Ice])));
}

#[test]
fn cards_of_one_suit_do_not_match() {
    let state = with_hand(vec![card(4, Fire), card(4, Fire)]);
    assert_eq!(state.check_pair(0, 1), None);
}

#[test]
fn card_of_a_neutral_suit_does_not_match() {
    let state = with_hand(vec![card(4, Neutral), card(4, Fire)]);
    assert_eq!(state.check_pair(0, 1), None);
}

#[test]
fn positions_outside_the_hand_do_not_match() {
    let state = with_hand(vec![card(4, Fire), card(4, Ice)]);
    assert_eq!(state.check_pair(0, 2), None);
    assert_eq!(state.check_pair_value(5, 1), None);
    assert_eq!(state.check_triple(0, 1, 2), None);
    assert_eq!(state.check_jackpot(0, 1, 2, 3), None);
    assert_eq!(state.check_double_trouble(0, 1, 2, 3), None);
}

#[test]
fn jackpot_takes_four_cards_of_one_rank() {
    let state = with_hand(vec![card(6, Fire), card(6, Ice), card(6, Earth), card(6, Air)]);
    assert_eq!(
        state.check_jackpot(0, 1, 2, 3),
        Some(HandType::Jackpot {
            value: 6,
            suits: vec![Fire, Ice, Earth, Air],
            card_indices: vec![0, 1, 2, 3],
        })
    );
}

#[test]
fn jackpot_takes_no_wildcard() {
    let state = with_hand(vec![card(6, Fire), card(6, Ice), card(6, Earth), CardType::Joker]);
    assert_eq!(state.check_jackpot(0, 1, 2, 3), None);
    let jokers = with_hand(vec![CardType::Joker, CardType::Joker, card(6, Earth), card(6, Air)]);
    assert_eq!(jokers.check_jackpot(0, 1, 2, 3), None);
    assert!(jokers
        .find_possible_hands()
        .iter()
        .all(|hand| !matches!(hand, HandType::Jackpot { .. })));
}

#[test]
fn double_trouble_takes_two_pairs_of_different_value() {
    let state = with_hand(vec![card(2, Fire), card(2, Ice), card(5, Fire), card(5, Earth)]);
    assert_eq!(
        state.check_double_trouble(0, 1, 2, 3),
        Some(HandType::DoubleTrouble {
            first_pair_value: 2,
            second_pair_value: 5,
            suits: vec![Fire, Ice, Earth],
            card_indices: vec![0, 1, 2, 3],
        })
    );
    assert_eq!(
        state.check_double_trouble(2, 3, 0, 1),
        Some(HandType::DoubleTrouble {
            first_pair_value: 5,
            second_pair_value: 2,
            suits: vec![Fire, Earth, Ice],
            card_indices: vec![2, 3, 0, 1],
        })
    );
}

#[test]
fn double_trouble_with_a_wildcard_pair_has_all_elements_once() {
    let state = with_hand(vec![card(2, Fire), CardType::Joker, card(5, Fire), card(5, Earth)]);
    assert_eq!(
        state.check_double_trouble(0, 1, 2, 3),
        Some(HandType::DoubleTrouble {
            first_pair_value: 2,
            second_pair_value: 5,
            suits: vec![Air, Earth, Fire, Ice],
            card_indices: vec![0, 1, 2, 3],
        })
    );
}

#[test]
fn two_pairs_of_one_value_are_no_double_trouble() {
    let state = with_hand(vec![card(3, Fire), card(3, Ice), card(3, Earth), card(3, Air)]);
    assert_eq!(state.check_double_trouble(0, 1, 2, 3), None);
    assert_eq!(state.check_double_trouble(0, 2, 1, 3), None);
    assert!(state
        .find_possible_hands()
        .iter()
        .all(|hand| !matches!(hand, HandType::DoubleTrouble { .. })));
}

#[test]
fn pairs_that_share_a_card_are_no_double_trouble() {
    let state = with_hand(vec![card(2, Fire), CardType::Joker, card(5, Fire), card(5, Earth)]);
    assert_eq!(state.check_double_trouble(0, 1, 1, 2), None);
    assert_eq!(check_pairs(&state.hand, &vec![0, 1], &vec![2, 0]), None);
}

#[test]
fn check_pattern_turns_down_a_slot_of_the_wrong_size() {
    let state = with_hand(vec![card(4, Fire), card(4, Ice), card(4, Earth)]);
    assert_eq!(check_pattern(&state.hand, Pattern::MatchedEdge, &vec![0, 1, 2]), None);
    assert_eq!(check_pattern(&state.hand, Pattern::TripleThreat, &vec![0, 1]), None);
    assert!(check_pattern(&state.hand, Pattern::TripleThreat, &vec![0, 1, 2]).is_some());
}

#[test]
fn slots_come_in_the_order_of_the_search() {
    assert_eq!(
        slots_of(4, 2),
        vec![vec![0, 1], vec![0, 2], vec![0, 3], vec![1, 2], vec![1, 3], vec![2, 3]]
    );
    assert_eq!(slots_of(4, 3), vec![vec![0, 1, 2], vec![0, 1, 3], vec![0, 2, 3], vec![1, 2, 3]]);
    assert_eq!(slots_of(5, 4).len(), 5);
    assert_eq!(slots_of(3, 4), Vec::<Vec<usize>>::new());
    assert_eq!(slots_of(0, 2), Vec::<Vec<usize>>::new());
    assert_eq!(slots_of(2, 0), vec![Vec::<usize>::new()]);
}

#[test]
fn empty_and_single_card_hands_offer_nothing() {
    assert!(with_hand(vec![]).find_possible_hands().is_empty());
    assert!(with_hand(vec![card(4, Fire)]).find_possible_hands().is_empty());
    assert!(with_hand(vec![CardType::Joker]).find_possible_hands().is_empty());
}

#[test]
fn jackpot_hand_offers_its_triples_and_pairs_too() {
    let state = with_hand(vec![card(6, Fire), card(6, Ice), card(6, Earth), card(6, Air)]);
    let hands = state.find_possible_hands();
    assert_eq!(hands.len(), 11);
    assert!(matches!(hands[0], HandType::Jackpot { .. }));
    for hand in &hands[1..5] {
        assert!(matches!(hand, HandType::TripleThreat { value: 6, .. }));
    }
    for hand in &hands[5..11] {
        assert!(matches!(hand, HandType::MatchedEdge { value: 6, .. }));
    }
    assert_eq!(
        hands[1],
        HandType::TripleThreat { value: 6, suits: vec![Fire, Ice, Earth], card_indices: vec![0, 1, 2] }
    );
    assert_eq!(
        hands[10],
        HandType::MatchedEdge { value: 6, suits: vec![Earth, Air], card_indices: vec![2, 3] }
    );
}

#[test]
fn combos_come_jackpots_first_then_double_troubles_triples_and_pairs() {
    let state = with_hand(vec![
        card(2, Fire),
        card(2, Ice),
        card(5, Fire),
        card(5, Earth),
        card(7, Air),
    ]);
    let hands = state.find_possible_hands();
    assert_eq!(
        hands,
        vec![
            HandType::DoubleTrouble {
                first_pair_value: 2,
                second_pair_value: 5,
                suits: vec![Fire, Ice, Earth],
                card_indices: vec![0, 1, 2, 3],
            },
            HandType::DoubleTrouble {
                first_pair_value: 5,
                second_pair_value: 2,
                suits: vec![Fire, Earth, Ice],
                card_indices: vec![2, 3, 0, 1],
            },
            HandType::MatchedEdge { value: 2, suits: vec![Fire, Ice], card_indices: vec![0, 1] },
            HandType::MatchedEdge { value: 5, suits: vec![Fire, Earth], card_indices: vec![2, 3] },
        ]
    );
}

#[test]
fn every_offered_combo_is_what_its_cards_form() {
    let state = with_hand(vec![
        card(3, Fire),
        CardType::Joker,
        card(3, Earth),
        card(4, Air),
        CardType::Joker,
    ]);
    let hands = state.find_possible_hands();
    assert!(!hands.is_empty());
    for hand in &hands {
        let at = hand.card_indices();
        let again = match hand {
            HandType::Jackpot { .. } => state.check_jackpot(at[0], at[1], at[2], at[3]),
            HandType::TripleThreat { .. } => state.check_triple(at[0], at[1], at[2]),
            HandType::MatchedEdge { .. } => state.check_pair(at[0], at[1]),
            HandType::DoubleTrouble { first_pair_value, second_pair_value, .. } => {
                assert_ne!(first_pair_value, second_pair_value);
                state.check_double_trouble(at[0], at[1], at[2], at[3])
            }
        };
        assert_eq!(again.as_ref(), Some(hand));
        assert!(at.iter().all(|position| *position < state.hand.len()));
        assert!(!hand.suits().contains(&Neutral));
    }
}

fn pair_by_hand(hand: &[CardType], at: &[usize]) -> Option<(u8, Vec<ElementType>)> {
    let mut value = None;
    let mut jokers = 0;
    let mut suits = Vec::new();
    for &position in at {
        match &hand[position] {
            CardType::Number(rank, suit) => {
                if value.is_none() {
                    value = Some(*rank);
                } else if value != Some(*rank) {
                    return None;
                }
                if suit.element != Neutral {
                    suits.push(suit.element);
                }
            }
            CardType::Joker => jokers += 1,
        }
    }
    if jokers + suits.len() == at.len() {
        Some((value.unwrap_or(7), if jokers > 0 { vec![Air, Earth, Fire, Ice] } else { suits }))
    } else {
        None
    }
}

fn search_by_hand(hand: &[CardType]) -> Vec<HandType> {
    let n = hand.len();
    let mut hands = Vec::new();
    for i in 0..n {
        for j in (i + 1)..n {
            for k in (j + 1)..n {
                for l in (k + 1)..n {
                    let at = [i, j, k, l];
                    if at.iter().all(|p| matches!(hand[*p], CardType::Number(..))) {
                        if let Some((value, suits)) = pair_by_hand(hand, &at) {
                            hands.push(HandType::Jackpot { value, suits, card_indices: at.to_vec() });
                        }
                    }
                }
            }
        }
    }
    for i in 0..n {
        for j in (i + 1)..n {
            if let Some((first_pair_value, first)) = pair_by_hand(hand, &[i, j]) {
                for k in 0..n {
                    if k == i || k == j {
                        continue;
                    }
                    for l in (k + 1)..n {
                        if l == i || l == j {
                            continue;
                        }
                        if let Some((second_pair_value, second)) = pair_by_hand(hand, &[k, l]) {
                            if first_pair_value != second_pair_value {
                                let mut suits = Vec::new();
                                for element in first.iter().chain(second.iter()) {
                                    if !suits.contains(element) {
                                        suits.push(*element);
                                    }
                                }
                                hands.push(HandType::DoubleTrouble {
                                    first_pair_value,
                                    second_pair_value,
                                    suits,
                                    card_indices: vec![i, j, k, l],
                                });
                            }
                        }
                    }
                }
            }
        }
    }
    for i in 0..n {
        for j in (i + 1)..n {
            for k in (j + 1)..n {
                if let Some((value, suits)) = pair_by_hand(hand, &[i, j, k]) {
                    hands.push(HandType::TripleThreat { value, suits, card_indices: vec![i, j, k] });
                }
            }
        }
    }
    for i in 0..n {
        for j in (i + 1)..n {
            if let Some((value, suits)) = pair_by_hand(hand, &[i, j]) {
                hands.push(HandType::MatchedEdge { value, suits, card_indices: vec![i, j] });
            }
        }
    }
    hands
}

#[test]
fn search_agrees_with_the_search_by_nested_loops_on_hands_of_the_deck() {
    let mut offered = 0;
    for round in 0..300 {
        let mut deck = Deck::new();
        deck.shuffle();
        let held = round % 8;
        let hand: Vec<CardType> = deck.cards[..held].to_vec();
        let state = with_hand(hand.clone());
        let found = state.find_possible_hands();
        assert_eq!(found, search_by_hand(&hand));
        offered += found.len();
    }
    assert!(offered > 0);
}
