use std::collections::HashSet;

use open_guandan_server::cards::{
    card_rank_strength, create_deck, deal_cards, is_wildcard, ordinary_rank_value, shuffle_cards_with, sort_cards,
};
use open_guandan_server::types::{Card, CardRank, OrdinaryRank, Suit};

#[test]
fn creates_two_ordered_standard_decks_with_stable_ids() {
    let deck = create_deck();
    assert_eq!(deck.len(), 108);
    assert_eq!(deck[0].id, "0:heart:2");
    assert_eq!(deck[51].id, "0:spade:A");
    assert_eq!(deck[52].id, "0:joker:small-joker");
    assert_eq!(deck[53].id, "0:joker:big-joker");
    assert_eq!(deck[54].id, "1:heart:2");
    assert_eq!(deck.iter().map(|card| &card.id).collect::<HashSet<_>>().len(), 108);
}

#[test]
fn deterministic_fisher_yates_and_deal_match_typescript() {
    let deck = create_deck();
    let mut calls = Vec::new();
    let shuffled = shuffle_cards_with(&deck, &mut |upper| {
        calls.push(upper);
        0
    })
    .unwrap();
    assert_eq!(calls.len(), 107);
    assert_eq!(calls[0], 108);
    assert_eq!(calls[106], 2);
    assert_eq!(shuffled[0], deck[1]);
    assert_eq!(shuffled[107], deck[0]);

    let hands = deal_cards(&shuffled).unwrap();
    assert!(hands.iter().all(|hand| hand.len() == 27));
    assert_eq!(hands[0][0], shuffled[0]);
    assert_eq!(hands[3][0], shuffled[3]);
}

#[test]
fn strength_and_sorting_put_level_below_jokers() {
    let level = OrdinaryRank::Seven;
    assert_eq!(card_rank_strength(CardRank::Ace, level), 14);
    assert_eq!(card_rank_strength(CardRank::Seven, level), 15);
    assert_eq!(card_rank_strength(CardRank::SmallJoker, level), 16);
    assert_eq!(card_rank_strength(CardRank::BigJoker, level), 17);

    let cards = vec![
        Card { id: "spade".into(), deck_index: 1, suit: Suit::Spade, rank: CardRank::Three },
        Card { id: "diamond".into(), deck_index: 0, suit: Suit::Diamond, rank: CardRank::Three },
    ];
    let sorted = sort_cards(&cards, level);
    assert_eq!(sorted[0].id, "diamond");
}

#[test]
fn rejects_bad_shuffle_indices_and_deal_sizes() {
    let error = shuffle_cards_with(&create_deck(), &mut |upper| upper).unwrap_err();
    assert_eq!(error.code, "INTERNAL_ERROR");
    assert!(deal_cards(&[]).is_err());
}

#[test]
fn shuffle_keeps_every_card_exactly_once() {
    let deck = create_deck();
    let mut state: usize = 17;
    let shuffled = shuffle_cards_with(&deck, &mut |upper| {
        state = (state * 31 + 7) % 1009;
        state % upper
    })
    .unwrap();
    let mut dealt: Vec<&str> = deck.iter().map(|card| card.id.as_str()).collect();
    let mut permuted: Vec<&str> = shuffled.iter().map(|card| card.id.as_str()).collect();
    assert_ne!(dealt, permuted);
    dealt.sort();
    permuted.sort();
    assert_eq!(dealt, permuted);
}

#[test]
fn deal_gives_every_fourth_card_to_each_hand() {
    let deck = create_deck();
    let hands = deal_cards(&deck).unwrap();
    for (seat, hand) in hands.iter().enumerate() {
        for (position, card) in hand.iter().enumerate() {
            assert_eq!(card, &deck[4 * position + seat]);
        }
    }
    assert!(deal_cards(&deck[..107]).is_err());
}

#[test]
fn natural_values_and_level_strength() {
    assert_eq!(ordinary_rank_value(OrdinaryRank::Two), 2);
    assert_eq!(ordinary_rank_value(OrdinaryRank::Ace), 14);
    assert_eq!(card_rank_strength(CardRank::Two, OrdinaryRank::Two), 15);
    assert_eq!(card_rank_strength(CardRank::Three, OrdinaryRank::Two), 3);
}

#[test]
fn only_the_heart_of_the_level_is_wild() {
    let heart = Card { id: "h".into(), deck_index: 0, suit: Suit::Heart, rank: CardRank::Seven };
    let spade = Card { id: "s".into(), deck_index: 0, suit: Suit::Spade, rank: CardRank::Seven };
    assert!(is_wildcard(&heart, OrdinaryRank::Seven));
    assert!(!is_wildcard(&spade, OrdinaryRank::Seven));
    assert!(!is_wildcard(&heart, OrdinaryRank::Eight));
}

#[test]
fn sorting_is_stable_by_strength_then_suit_then_deck() {
    let level = OrdinaryRank::Two;
    let cards = vec![
        Card { id: "a".into(), deck_index: 1, suit: Suit::Joker, rank: CardRank::BigJoker },
        Card { id: "b".into(), deck_index: 0, suit: Suit::Heart, rank: CardRank::Two },
        Card { id: "c".into(), deck_index: 1, suit: Suit::Club, rank: CardRank::Ace },
        Card { id: "d".into(), deck_index: 0, suit: Suit::Club, rank: CardRank::Ace },
    ];
    let sorted = sort_cards(&cards, level);
    let ids: Vec<&str> = sorted.iter().map(|card| card.id.as_str()).collect();
    assert_eq!(ids, vec!["d", "c", "b", "a"]);
}

#[test]
fn short_shuffles_never_draw_and_only_asked_bounds_matter() {
    let deck = create_deck();
    let mut asked = 0;
    let one = shuffle_cards_with(&deck[..1], &mut |upper| {
        asked += 1;
        upper
    })
    .unwrap();
    assert_eq!(one, deck[..1].to_vec());
    assert!(shuffle_cards_with(&[], &mut |upper| upper).unwrap().is_empty());
    assert_eq!(asked, 0);
    let five = shuffle_cards_with(&deck[..5], &mut |upper| if upper > 5 { upper } else { upper - 1 }).unwrap();
    assert_eq!(five.len(), 5);
}
