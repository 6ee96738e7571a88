use open_guandan_server::combinations::{can_beat, is_bomb_combination, list_combinations, resolve_combination};
use open_guandan_server::errors::ErrorDetails;
use open_guandan_server::types::CardRank::{
    Ace, BigJoker, Eight, Five, Four, Jack, King, Nine, Queen, Seven, Six, SmallJoker, Ten, Three, Two,
};
use open_guandan_server::types::CombinationKind::{
    Bomb, ConsecutivePairs, ConsecutiveTriples, FullHouse, JokerBomb, Pair, Single, Straight, StraightFlush, Triple,
};
use open_guandan_server::types::{
    Card, CardRank, Combination, CombinationDeclaration, CombinationKind, OrdinaryRank, OrdinarySuit, Suit,
};

fn card(rank: CardRank, suit: impl Into<Suit>) -> Card {
    let suit = suit.into();
    Card {
        id: format!("test-card-{}", uuid::Uuid::new_v4()),
        deck_index: 0,
        suit: if matches!(rank, CardRank::SmallJoker | CardRank::BigJoker) { Suit::Joker } else { suit },
        rank,
    }
}

fn spade(rank: CardRank) -> Card {
    card(rank, Suit::Spade)
}

fn spades(ranks: &[CardRank]) -> Vec<Card> {
    ranks.iter().copied().map(spade).collect()
}

fn declaration(
    kind: CombinationKind,
    primary_rank: Option<CardRank>,
    sequence_top: Option<OrdinaryRank>,
) -> CombinationDeclaration {
    CombinationDeclaration { kind, primary_rank, sequence_top }
}

fn resolve(cards: &[Card], declaration: Option<&CombinationDeclaration>) -> Combination {
    resolve_combination(cards, OrdinaryRank::Seven, declaration).unwrap()
}

#[test]
fn recognizes_all_ten_prescribed_combination_kinds() {

    let cases: [(CombinationKind, &[CardRank]); 8] = [
        (Single, &[Three]),
        (Pair, &[Three, Three]),
        (Triple, &[Four, Four, Four]),
        (FullHouse, &[Five, Five, Five, Nine, Nine]),
        (ConsecutivePairs, &[Three, Three, Four, Four, Five, Five]),
        (ConsecutiveTriples, &[Eight, Eight, Eight, Nine, Nine, Nine]),
        (Bomb, &[Queen, Queen, Queen, Queen]),
        (JokerBomb, &[SmallJoker, SmallJoker, BigJoker, BigJoker]),
    ];
    for (expected, ranks) in cases {
        assert_eq!(resolve(&spades(ranks), None).kind, expected, "{ranks:?}");
    }

    let mut straight = spades(&[Three, Four, Five, Six, Seven]);
    straight[4].suit = Suit::Club;
    assert_eq!(resolve(&straight, None).kind, Straight);

    let straight_flush = [Six, Seven, Eight, Nine, Ten].map(|rank| card(rank, OrdinarySuit::Heart));
    let declaration = declaration(StraightFlush, None, Some(OrdinaryRank::Ten));
    assert_eq!(
        resolve_combination(&straight_flush, OrdinaryRank::Queen, Some(&declaration)).unwrap().kind,
        StraightFlush
    );
}

#[test]
fn ace_is_low_or_high_but_does_not_wrap() {
    for (ranks, top) in [
        (&[Ace, Two, Three, Four, Five][..], OrdinaryRank::Five),
        (&[Ten, Jack, Queen, King, Ace], OrdinaryRank::Ace),
    ] {
        let declaration = declaration(CombinationKind::Straight, None, Some(top));
        assert_eq!(resolve(&spades(ranks), Some(&declaration)).sequence_top, Some(top));
    }
    assert!(list_combinations(&spades(&[Jack, Queen, King, Ace, Two]), OrdinaryRank::Seven).is_empty());
}

#[test]
fn wildcard_builds_bomb_but_is_natural_when_played_alone() {
    let wildcard = card(CardRank::Seven, OrdinarySuit::Heart);
    let bomb_declaration = declaration(CombinationKind::Bomb, Some(CardRank::Eight), None);
    let mut cards = spades(&[CardRank::Eight; 3]);
    cards.push(wildcard.clone());
    let bomb = resolve(&cards, Some(&bomb_declaration));
    assert_eq!(bomb.kind, CombinationKind::Bomb);
    assert_eq!(bomb.wildcard_assignments[&wildcard.id].rank, OrdinaryRank::Eight);

    let single = resolve(&[wildcard], None);
    assert_eq!(single.primary_rank, Some(CardRank::Seven));
    assert!(single.wildcard_assignments.is_empty());
}

#[test]
fn bomb_hierarchy_matches_rules() {
    let four = resolve(&spades(&[Ace; 4]), None);
    let five = resolve(&spades(&[Two; 5]), None);
    let flush_declaration = declaration(CombinationKind::StraightFlush, None, Some(OrdinaryRank::Seven));
    let straight_flush = resolve(
        &[Three, Four, Five, Six, Seven].map(|rank| card(rank, OrdinarySuit::Club)),
        Some(&flush_declaration),
    );
    let six = resolve(&spades(&[Three; 6]), None);
    let jokers = resolve(&spades(&[SmallJoker, SmallJoker, BigJoker, BigJoker]), None);

    assert!(can_beat(&five, &four, OrdinaryRank::Seven));
    assert!(can_beat(&straight_flush, &five, OrdinaryRank::Seven));
    assert!(can_beat(&six, &straight_flush, OrdinaryRank::Seven));
    assert!(can_beat(&jokers, &six, OrdinaryRank::Seven));
    assert!(!can_beat(&four, &four, OrdinaryRank::Seven));
}

#[test]
fn straight_flush_is_ambiguous_without_a_declaration() {
    let cards = [Three, Four, Five, Six, Seven].map(|rank| card(rank, OrdinarySuit::Club));
    let error = resolve_combination(&cards, OrdinaryRank::Nine, None).unwrap_err();
    assert_eq!(error.code, "AMBIGUOUS_COMBINATION");
    match error.details.unwrap() {
        ErrorDetails::Options(options) => assert_eq!(options.len(), 2),
        other => panic!("unexpected details {other:?}"),
    }
}

#[test]
fn duplicate_ids_and_joker_triples_are_invalid() {
    let invalid = |cards: &[Card]| list_combinations(cards, OrdinaryRank::Seven).is_empty();
    let duplicated = spade(CardRank::Three);
    assert!(invalid(&[duplicated.clone(), duplicated]));
    assert!(invalid(&spades(&[CardRank::SmallJoker; 3])));
}

#[test]
fn natural_level_strength_controls_non_sequence_comparison() {
    let level_single = resolve(&[spade(Seven)], None);
    let ace_single = resolve(&[spade(Ace)], None);
    assert!(can_beat(&level_single, &ace_single, OrdinaryRank::Seven));

    let low_pairs = declaration(CombinationKind::ConsecutivePairs, None, Some(OrdinaryRank::Three));
    let combination = resolve(&spades(&[Ace, Ace, Two, Two, Three, Three]), Some(&low_pairs));
    assert_eq!(combination.sequence_top, Some(OrdinaryRank::Three));
}

#[test]
fn invalid_selection_and_mismatched_declaration_are_refused() {
    let error = resolve_combination(&spades(&[Three, Five]), OrdinaryRank::Seven, None).unwrap_err();
    assert_eq!(error.code, "INVALID_COMBINATION");
    let wrong = declaration(CombinationKind::Pair, Some(Four), None);
    let error = resolve_combination(&spades(&[Three, Three]), OrdinaryRank::Seven, Some(&wrong)).unwrap_err();
    assert_eq!(error.code, "INVALID_COMBINATION");
}

#[test]
fn bombs_are_exactly_the_bomb_kinds() {
    for kind in [Bomb, StraightFlush, JokerBomb] {
        assert!(is_bomb_combination(kind));
    }
    for kind in [Single, Pair, Triple, FullHouse, Straight, ConsecutivePairs, ConsecutiveTriples] {
        assert!(!is_bomb_combination(kind));
    }
}

#[test]
fn ordinary_combinations_only_beat_their_own_shape() {
    let pair = resolve(&spades(&[Four, Four]), None);
    let higher_pair = resolve(&spades(&[Five, Five]), None);
    let single = resolve(&[spade(Ace)], None);
    let bomb = resolve(&spades(&[Three; 4]), None);
    assert!(can_beat(&higher_pair, &pair, OrdinaryRank::Seven));
    assert!(!can_beat(&pair, &higher_pair, OrdinaryRank::Seven));
    assert!(!can_beat(&single, &pair, OrdinaryRank::Seven));
    assert!(can_beat(&bomb, &higher_pair, OrdinaryRank::Seven));
    assert!(!can_beat(&higher_pair, &bomb, OrdinaryRank::Seven));
}

#[test]
fn ambiguity_lists_each_fitting_meaning_once() {
    let cards = [Three, Four, Five, Six, Seven].map(|rank| card(rank, OrdinarySuit::Club));
    let error = resolve_combination(&cards, OrdinaryRank::Nine, None).unwrap_err();
    match error.details.unwrap() {
        ErrorDetails::Options(options) => {
            assert!(options.iter().any(|o| o.kind == Straight && o.sequence_top == Some(OrdinaryRank::Seven)));
            assert!(options.iter().any(|o| o.kind == StraightFlush && o.sequence_top == Some(OrdinaryRank::Seven)));
            assert_eq!(options.len(), 2);
            assert_eq!(options[0].kind, Straight);
            assert_eq!(options[1].kind, StraightFlush);
        }
        other => panic!("unexpected details {other:?}"),
    }
    let lone = card(Nine, OrdinarySuit::Heart);
    let single = resolve_combination(&[lone], OrdinaryRank::Nine, None).unwrap();
    assert!(single.wildcard_assignments.is_empty());
}

#[test]
fn a_wildcard_carries_the_first_assignment_that_forms_the_meaning() {
    let wildcard = card(Seven, OrdinarySuit::Heart);
    let mut cards = spades(&[Eight, Eight]);
    cards.push(wildcard.clone());
    let triple = resolve_combination(&cards, OrdinaryRank::Seven, None).unwrap();
    assert_eq!(triple.kind, Triple);
    let assignment = triple.wildcard_assignments[&wildcard.id];
    assert_eq!(assignment.rank, OrdinaryRank::Eight);
    assert_eq!(assignment.suit, OrdinarySuit::Heart);
}
