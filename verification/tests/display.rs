use card_combat::display::{format_element_list, format_hand_display, format_positions, format_possible_hands};
use card_combat::effect::EffectPayload;
use card_combat::error::EngineError;
use card_combat::parse::{parse_positions, read_word, separates};
use card_combat::text::decimal_text;
use card_combat::types::{CardType, ElementType, HandType, Suit};

use ElementType::{Air, Earth, Fire, Ice, Neutral};

#[test]
fn ranks_have_their_glyphs() {
    assert_eq!(CardType::number_to_emoji(1), "1️⃣");
    assert_eq!(CardType::number_to_emoji(4), "4️⃣");
    assert_eq!(CardType::number_to_emoji(7), "7️⃣");
    assert_eq!(CardType::number_to_emoji(0), "❓");
    assert_eq!(CardType::number_to_emoji(8), "❓");
    assert_eq!(CardType::number_to_emoji(255), "❓");
}

#[test]
fn elements_have_their_glyphs() {
    assert_eq!(Fire.symbol(), "🔥");
    assert_eq!(Ice.symbol(), "❄️");
    assert_eq!(Earth.symbol(), "🪨");
    assert_eq!(Air.symbol(), "💨");
    assert_eq!(Neutral.symbol(), "");
    assert_eq!(Suit::new(Earth), Suit { element: Earth, symbol: "🪨".to_string() });
}

#[test]
fn element_list_shows_each_element_once() {
    assert_eq!(format_element_list(&[]), "None");
    assert_eq!(format_element_list(&[Neutral]), "None");
    assert_eq!(format_element_list(&[Fire]), "[🔥]");
    assert_eq!(format_element_list(&[Fire, Ice, Fire, Neutral, Air]), "[🔥, ❄️, 💨]");
    assert_eq!(format_element_list(&[Air, Earth, Fire, Ice]), "[💨, 🪨, 🔥, ❄️]");
}

#[test]
fn combos_are_written_with_value_and_elements() {
    let triple = HandType::TripleThreat { value: 4, suits: vec![Fire, Ice, Earth], card_indices: vec![0, 1, 2] };
    assert_eq!(triple.to_string(), "Triple Threat: 4 (Elements: [🔥, ❄️, 🪨])");
    let edge = HandType::MatchedEdge { value: 7, suits: vec![], card_indices: vec![0, 1] };
    assert_eq!(edge.to_string(), "Matched Edge: 7 (Elements: None)");
    let jackpot = HandType::Jackpot { value: 2, suits: vec![Air], card_indices: vec![0, 1, 2, 3] };
    assert_eq!(jackpot.to_string(), "Jackpot: 2 (Elements: [💨])");
    let double = HandType::DoubleTrouble {
        first_pair_value: 2,
        second_pair_value: 5,
        suits: vec![Fire],
        card_indices: vec![0, 1, 2, 3],
    };
    assert_eq!(double.to_string(), "Double Trouble: 2 and 5 (Elements: [🔥])");
}

#[test]
fn combos_have_their_cost() {
    assert_eq!(HandType::TripleThreat { value: 1, suits: vec![], card_indices: vec![] }.mp_cost(), 10);
    assert_eq!(HandType::MatchedEdge { value: 1, suits: vec![], card_indices: vec![] }.mp_cost(), 5);
    assert_eq!(HandType::Jackpot { value: 1, suits: vec![], card_indices: vec![] }.mp_cost(), 20);
    let double = HandType::DoubleTrouble {
        first_pair_value: 1,
        second_pair_value: 2,
        suits: vec![],
        card_indices: vec![],
    };
    assert_eq!(double.mp_cost(), 20);
}

#[test]
fn hand_is_written_line_by_line() {
    assert_eq!(format_hand_display(&[]), "Your hand is empty!");
    let hand = vec![
        CardType::Number(4, Suit::new(Fire)),
        CardType::Joker,
        CardType::Number(9, Suit { element: Ice, symbol: "ice".to_string() }),
    ];
    assert_eq!(
        format_hand_display(&hand),
        "Your hand:\n1. 4️⃣ 🔥\n2. :question: 🃏\n3. ❓ ice\n"
    );
    let long: Vec<CardType> = (0..12).map(|_| CardType::Joker).collect();
    assert!(format_hand_display(&long).ends_with("10. :question: 🃏\n11. :question: 🃏\n12. :question: 🃏\n"));
}

#[test]
fn numbers_are_written_in_decimal() {
    assert_eq!(decimal_text(0), "0");
    assert_eq!(decimal_text(7), "7");
    assert_eq!(decimal_text(10), "10");
    assert_eq!(decimal_text(777), "777");
    assert_eq!(decimal_text(1234567890), "1234567890");
    assert_eq!(decimal_text(u128::MAX), u128::MAX.to_string());
    assert_eq!(decimal_text(9), "9");
}

#[test]
fn positions_are_written_from_one_and_lowest_first() {
    assert_eq!(format_positions(&vec![2, 3, 0, 1]), "1, 2, 3, 4");
    assert_eq!(format_positions(&vec![4]), "5");
    assert_eq!(format_positions(&vec![]), "");
    assert_eq!(format_positions(&vec![usize::MAX]), (usize::MAX as u128 + 1).to_string());
}

#[test]
fn offered_combos_are_listed_with_cost_and_cards() {
    assert_eq!(format_possible_hands(&vec![]), "No valid hands available.");
    let hands = vec![
        HandType::DoubleTrouble {
            first_pair_value: 5,
            second_pair_value: 2,
            suits: vec![Fire, Earth, Ice],
            card_indices: vec![2, 3, 0, 1],
        },
        HandType::MatchedEdge { value: 2, suits: vec![Fire, Ice], card_indices: vec![0, 1] },
    ];
    assert_eq!(
        format_possible_hands(&hands),
        "Available hands:\n1. Double Trouble: 5 and 2 (Elements: [🔥, 🪨, ❄️]) (MP Cost: 20, Cards: 1, 2, 3, 4)\n2. Matched Edge: 2 (Elements: [🔥, ❄️]) (MP Cost: 5, Cards: 1, 2)\n"
    );
}

#[test]
fn effects_are_written_with_their_numbers() {
    let triple = EffectPayload::TripleThreat { heal: 19, damage: 9, elements: vec![Fire, Ice, Earth] };
    assert_eq!(
        triple.message(),
        "Triple Threat resolved! Three targets of your choice recover or suffer from **dazed, shaken, slow or weak**. If the target recovers then it also heals Hit Points equal to 19. If the target suffers it also takes 9 [🔥, ❄️, 🪨] damage."
    );
    let edge = EffectPayload::MatchedEdge { bonus_damage: 4, elements: vec![Fire, Ice] };
    assert_eq!(edge.message(), "Matched Edge resolved! Your weapon strike deals 4 bonus [🔥, ❄️] damage!");
    let jackpot = EffectPayload::Jackpot { recovery: 777, elements: vec![Fire] };
    assert_eq!(
        jackpot.message(),
        "Jackpot resolved! You and every ally present on the scene recover 777 Hit Points, 777 Mind Points, and recover from all status effects; any PCs who have surrendered but are still part of the scene immediately regain consciousness (this does not cancel the effects of their Surrender)."
    );
    let double = EffectPayload::DoubleTrouble {
        damage: 22,
        first_pair_value: 2,
        second_pair_value: 5,
        elements: vec![Air],
    };
    assert_eq!(
        double.message(),
        "Double Trouble resolved! You deal damage equal to 22 (15 + 2 + 5) to each of up to two different enemies you can see that are present on the scene; the type of this damage is one of your choice among those matching the suits of the resolved cards: [💨]"
    );
}

#[test]
fn errors_have_their_text() {
    assert_eq!(EngineError::ExhaustedSupply.message(), "No cards left in deck or discard");
    assert_eq!(EngineError::IndexOutOfBounds.message(), "Card index out of bounds");
    assert_eq!(EngineError::InvalidSelection.message(), "Invalid hand number.");
    assert_eq!(
        EngineError::NotStarted.message(),
        "You haven't started a combat yet! Use /start_new_combat to begin."
    );
    assert_eq!(EngineError::PersistenceFailure.message(), "Failed to save state");
    assert_eq!(EngineError::LoadFailure.message(), "Error loading state, starting fresh");
}

#[test]
fn positions_are_read_from_text() {
    assert_eq!(parse_positions("1 3 5"), vec![1, 3, 5]);
    assert_eq!(parse_positions(""), Vec::<usize>::new());
    assert_eq!(parse_positions("   \t\n"), Vec::<usize>::new());
    assert_eq!(parse_positions("  12\u{3000}007 +4 x 5y -3 + ++1 3"), vec![12, 7, 4, 3]);
    assert_eq!(parse_positions("0"), vec![0]);
    assert_eq!(parse_positions("٣ 2"), vec![2]);
    let most = usize::MAX.to_string();
    assert_eq!(parse_positions(&most), vec![usize::MAX]);
    assert_eq!(parse_positions(&format!("{}0 1", most)), vec![1]);
    assert_eq!(parse_positions("18446744073709551616 99999999999999999999999 2"), vec![2]);
    for text in ["1 3 5", "  12\u{3000}007 +4 x 5y -3 + ++1 3", "a\u{85}1\u{a0}2\u{2003}3\u{feff}4", "\u{200b}1 2"] {
        let expected: Vec<usize> =
            text.split_whitespace().filter_map(|word| word.parse::<usize>().ok()).collect();
        assert_eq!(parse_positions(text), expected);
    }
    for code in 0..0x11000u32 {
        if let Some(c) = char::from_u32(code) {
            assert_eq!(separates(c), c.is_whitespace());
        }
    }
    assert_eq!(read_word(&vec!['+', '4', '2']), Some(42));
    assert_eq!(read_word(&vec!['+']), None);
    assert_eq!(read_word(&vec![]), None);
    assert_eq!(read_word(&vec!['4', '+']), None);
}
