//! What a resolved combo does: the numbers and elements that the effect is
//! made of.

use crate::types::{ElementType, HandType, HandView};
use vstd::prelude::*;

verus! {

/// What a triple threat heals beyond its value.
pub const TRIPLE_THREAT_HEAL_BONUS: u16 = 15;

/// What a triple threat deals beyond its value.
pub const TRIPLE_THREAT_DAMAGE_BONUS: u16 = 5;

/// What a double trouble deals beyond the values of its two pairs.
pub const DOUBLE_TROUBLE_BASE_DAMAGE: u16 = 15;

/// What a jackpot gives back, in hit points and in mind points.
pub const JACKPOT_RECOVERY: u16 = 777;

/// The effect of a resolved combo.
#[derive(Debug, PartialEq)]
pub enum EffectPayload {
    TripleThreat { heal: u16, damage: u16, elements: Vec<ElementType> },
    MatchedEdge { bonus_damage: u16, elements: Vec<ElementType> },
    Jackpot { recovery: u16, elements: Vec<ElementType> },
    DoubleTrouble {
        damage: u16,
        first_pair_value: u8,
        second_pair_value: u8,
        elements: Vec<ElementType>,
    },
}

/// What an [`EffectPayload`] holds, as plain values.
pub enum EffectView {
    TripleThreat { heal: int, damage: int, elements: Seq<ElementType> },
    MatchedEdge { bonus_damage: int, elements: Seq<ElementType> },
    Jackpot { recovery: int, elements: Seq<ElementType> },
    DoubleTrouble {
        damage: int,
        first_pair_value: int,
        second_pair_value: int,
        elements: Seq<ElementType>,
    },
}

impl View for EffectPayload {
    type V = EffectView;

    open spec fn view(&self) -> EffectView {
        match self {
            EffectPayload::TripleThreat { heal, damage, elements } => EffectView::TripleThreat {
                heal: *heal as int,
                damage: *damage as int,
                elements: elements@,
            },
            EffectPayload::MatchedEdge { bonus_damage, elements } => EffectView::MatchedEdge {
                bonus_damage: *bonus_damage as int,
                elements: elements@,
            },
            EffectPayload::Jackpot { recovery, elements } => EffectView::Jackpot {
                recovery: *recovery as int,
                elements: elements@,
            },
            EffectPayload::DoubleTrouble {
                damage,
                first_pair_value,
                second_pair_value,
                elements,
            } => EffectView::DoubleTrouble {
                damage: *damage as int,
                first_pair_value: *first_pair_value as int,
                second_pair_value: *second_pair_value as int,
                elements: elements@,
            },
        }
    }
}

/// The effect of a combo. A triple threat heals its value and fifteen, or
/// deals its value and five. A matched edge deals its value on top of a
/// strike. A jackpot gives back 777 points. A double trouble deals fifteen
/// and the values of its two pairs.
pub open spec fn effect_of(combo: HandView) -> EffectView {
    match combo {
        HandView::TripleThreat { value, suits, .. } => EffectView::TripleThreat {
            heal: value + 15,
            damage: value + 5,
            elements: suits,
        },
        HandView::MatchedEdge { value, suits, .. } => EffectView::MatchedEdge {
            bonus_damage: value as int,
            elements: suits,
        },
        HandView::Jackpot { suits, .. } => EffectView::Jackpot { recovery: 777, elements: suits },
        HandView::DoubleTrouble {
            first_pair_value,
            second_pair_value,
            suits,
            ..
        } => EffectView::DoubleTrouble {
            damage: 15 + first_pair_value + second_pair_value,
            first_pair_value: first_pair_value as int,
            second_pair_value: second_pair_value as int,
            elements: suits,
        },
    }
}

impl HandType {
    /// The effect that the combo has when it is resolved.
    pub fn effect(&self) -> (effect: EffectPayload)
        ensures
            effect@ == effect_of(self@),
    {
        match self {
            HandType::TripleThreat { value, suits, .. } => EffectPayload::TripleThreat {
                heal: *value as u16 + TRIPLE_THREAT_HEAL_BONUS,
                damage: *value as u16 + TRIPLE_THREAT_DAMAGE_BONUS,
                elements: suits.clone(),
            },
            HandType::MatchedEdge { value, suits, .. } => EffectPayload::MatchedEdge {
                bonus_damage: *value as u16,
                elements: suits.clone(),
            },
            HandType::Jackpot { suits, .. } => EffectPayload::Jackpot {
                recovery: JACKPOT_RECOVERY,
                elements: suits.clone(),
            },
            HandType::DoubleTrouble {
                first_pair_value,
                second_pair_value,
                suits,
                ..
            } => EffectPayload::DoubleTrouble {
                damage: DOUBLE_TROUBLE_BASE_DAMAGE + *first_pair_value as u16
                    + *second_pair_value as u16,
                first_pair_value: *first_pair_value,
                second_pair_value: *second_pair_value,
                elements: suits.clone(),
            },
        }
    }
}

} // verus!
