use indexmap::{IndexMap, IndexSet};
use open_guandan_server::round::{
    can_return_card, create_round_with_random, create_tribute_state, pass_turn, play_cards, submit_return,
    submit_tribute, CreateRoundOptions, RoundPhase, RoundResult, RoundState, TributeKind, TributeStage, TributeState,
};
use open_guandan_server::types::{Card, CardRank, OrdinaryRank, Seat, Suit, Team};

fn seat(value: u8) -> Seat {
    Seat::new(value).unwrap()
}

fn suited_card(rank: CardRank, suit: impl Into<Suit>) -> Card {
    let suit = suit.into();
    Card {
        id: format!("test-card-{}", uuid::Uuid::new_v4()),
        deck_index: 0,
        suit: if matches!(rank, CardRank::SmallJoker | CardRank::BigJoker) { Suit::Joker } else { suit },
        rank,
    }
}

fn card(rank: CardRank) -> Card {
    suited_card(rank, Suit::Spade)
}

fn simple_round(level_rank: OrdinaryRank) -> RoundState {
    RoundState {
        number: 1,
        level_rank,
        level_owner_team: None,
        phase: RoundPhase::Playing,
        hands: [
            vec![card(CardRank::Three)],
            vec![card(CardRank::Four), card(CardRank::Eight)],
            vec![card(CardRank::Five)],
            vec![card(CardRank::Six), card(CardRank::Nine)],
        ],
        active_seats: Seat::all().into_iter().collect(),
        turn_seat: seat(0),
        current_play: None,
        consecutive_passes: 0,
        finish_order: Vec::new(),
        tribute: None,
    }
}

fn play_only_card(round: &mut RoundState, seat: Seat) -> Option<RoundResult> {
    let card_id = round.hands[seat.index()][0].id.clone();
    play_cards(round, seat, &[card_id], None).unwrap()
}

fn single_tribute_state() -> TributeState {
    TributeState {
        kind: TributeKind::Single,
        stage: TributeStage::Giving,
        previous_first: seat(0),
        previous_second: None,
        givers: vec![seat(3)],
        contributions: IndexMap::new(),
        receiver_for_giver: IndexMap::from_iter([(seat(3), seat(0))]),
        returns: IndexMap::new(),
        leader_seat: Some(seat(3)),
    }
}

#[test]
fn partner_borrows_lead_after_unbeaten_final_play() {
    let mut round = simple_round(OrdinaryRank::Seven);
    assert!(play_only_card(&mut round, seat(0)).is_none());
    pass_turn(&mut round, seat(1)).unwrap();
    pass_turn(&mut round, seat(2)).unwrap();
    pass_turn(&mut round, seat(3)).unwrap();
    assert_eq!(round.turn_seat, seat(2));
    assert!(round.current_play.is_none());
}

#[test]
fn partners_finishing_first_and_second_settle_double_last_immediately() {
    let mut round = simple_round(OrdinaryRank::Seven);
    play_only_card(&mut round, seat(0));
    pass_turn(&mut round, seat(1)).unwrap();
    pass_turn(&mut round, seat(2)).unwrap();
    pass_turn(&mut round, seat(3)).unwrap();
    let result = play_only_card(&mut round, seat(2)).unwrap();
    assert_eq!(result.finish_order, vec![seat(0), seat(2)]);
    assert_eq!(result.double_last_seats, vec![seat(1), seat(3)]);
    assert_eq!(result.partner_placement, 2);
}

#[test]
fn single_tribute_exchange_is_completed_and_giver_leads() {
    let mut round = simple_round(OrdinaryRank::Seven);
    let tribute_card = card(CardRank::BigJoker);
    let return_card = card(CardRank::Two);
    round.hands = [
        vec![return_card.clone(), card(CardRank::Jack)],
        vec![card(CardRank::Three)],
        vec![card(CardRank::Four)],
        vec![tribute_card.clone(), card(CardRank::Ten)],
    ];
    round.phase = RoundPhase::Tribute;
    round.tribute = Some(single_tribute_state());

    submit_tribute(&mut round, seat(3), &tribute_card.id).unwrap();
    assert_eq!(round.tribute.as_ref().unwrap().stage, TributeStage::Returning);
    assert!(round.hands[0].iter().any(|card| card.id == tribute_card.id));

    let completed = submit_return(&mut round, seat(0), &return_card.id)
        .unwrap()
        .expect("the only return completes a single tribute");
    assert_eq!(completed.returns[&seat(0)].id, return_card.id);
    assert_eq!(round.phase, RoundPhase::Playing);
    assert_eq!(round.turn_seat, seat(3));
    assert!(round.tribute.is_none());
    assert!(round.hands[3].iter().any(|card| card.id == return_card.id));
}

#[test]
fn equal_double_tributes_use_the_typescript_seat_tiebreak() {
    let first_card = card(CardRank::Ace);
    let second_card = card(CardRank::Ace);
    let mut round = simple_round(OrdinaryRank::Seven);
    round.hands = [
        vec![card(CardRank::Two)],
        vec![first_card.clone(), card(CardRank::King)],
        vec![card(CardRank::Three)],
        vec![second_card.clone(), card(CardRank::Queen)],
    ];
    round.phase = RoundPhase::Tribute;
    round.tribute = Some(TributeState {
        kind: TributeKind::Double,
        stage: TributeStage::Giving,
        previous_first: seat(0),
        previous_second: Some(seat(2)),
        givers: vec![seat(1), seat(3)],
        contributions: IndexMap::new(),
        receiver_for_giver: IndexMap::new(),
        returns: IndexMap::new(),
        leader_seat: None,
    });

    submit_tribute(&mut round, seat(1), &first_card.id).unwrap();
    submit_tribute(&mut round, seat(3), &second_card.id).unwrap();
    let tribute = round.tribute.as_ref().unwrap();
    assert_eq!(tribute.receiver_for_giver[&seat(3)], seat(0));
    assert_eq!(tribute.receiver_for_giver[&seat(1)], seat(2));
    assert_eq!(tribute.leader_seat, Some(seat(3)));
}

#[test]
fn tribute_rejects_wildcard_and_nonmaximum_card() {
    let wildcard = suited_card(CardRank::Seven, Suit::Heart);
    let king = card(CardRank::King);
    let ace = card(CardRank::Ace);
    let mut round = simple_round(OrdinaryRank::Seven);
    round.phase = RoundPhase::Tribute;
    round.hands[3] = vec![wildcard.clone(), king.clone(), ace.clone()];
    round.tribute = Some(single_tribute_state());

    for (card, expected) in [(&wildcard, "WILDCARD_CANNOT_BE_TRIBUTE"), (&king, "TRIBUTE_NOT_MAXIMUM")] {
        let error = submit_tribute(&mut round, seat(3), &card.id).unwrap_err();
        assert_eq!(error.code, expected);
    }
}

#[test]
fn resistance_requires_both_big_jokers() {
    let mut hands: [Vec<Card>; 4] = std::array::from_fn(|_| Vec::new());
    hands[3] = vec![card(CardRank::BigJoker), card(CardRank::BigJoker)];
    let previous = RoundResult {
        winner_team: Team::new(0).unwrap(),
        finish_order: vec![seat(0), seat(1), seat(2), seat(3)],
        double_last_seats: Vec::new(),
        partner_placement: 4,
    };
    assert!(create_tribute_state(&hands, &previous).unwrap().is_none());
}

#[test]
fn third_and_fourth_partner_placements_are_computed() {
    let mut third = simple_round(OrdinaryRank::Seven);
    third.finish_order = vec![seat(0), seat(1)];
    third.active_seats = [seat(2), seat(3)].into_iter().collect::<IndexSet<Seat>>();
    third.turn_seat = seat(2);
    third.current_play = None;
    let third_result = play_only_card(&mut third, seat(2)).unwrap();
    assert_eq!(third_result.partner_placement, 3);
    assert_eq!(third_result.finish_order[3], seat(3));

    let mut fourth = simple_round(OrdinaryRank::Seven);
    fourth.finish_order = vec![seat(0), seat(1)];
    fourth.active_seats = [seat(2), seat(3)].into_iter().collect::<IndexSet<Seat>>();
    fourth.turn_seat = seat(3);
    fourth.current_play = None;
    fourth.hands[seat(3).index()] = vec![card(CardRank::Six)];
    let fourth_result = play_only_card(&mut fourth, seat(3)).unwrap();
    assert_eq!(fourth_result.partner_placement, 4);
    assert_eq!(fourth_result.finish_order[3], seat(2));
}

#[test]
fn cannot_pass_when_leading_or_play_out_of_turn() {
    let mut round = simple_round(OrdinaryRank::Seven);
    let error = pass_turn(&mut round, seat(0)).unwrap_err();
    assert_eq!(error.code, "CANNOT_PASS_WHEN_LEADING");
    let card_id = round.hands[1][0].id.clone();
    let error = play_cards(&mut round, seat(1), &[card_id], None).unwrap_err();
    assert_eq!(error.code, "NOT_YOUR_TURN");
}

#[test]
fn low_return_cards_are_natural_ranks_not_effective_strength() {
    let low_level = suited_card(CardRank::Seven, Suit::Heart);
    let ace = card(CardRank::Ace);
    let can_return = |hand: &[Card], candidate: &Card| can_return_card(hand, candidate, OrdinaryRank::Seven);
    assert!(can_return(&[low_level.clone(), ace.clone()], &low_level));
    assert!(!can_return(&[low_level, ace.clone()], &ace));

    let king = card(CardRank::King);
    assert!(can_return(&[king.clone(), ace], &king));
}

#[test]
fn first_round_consumes_shuffle_then_leader_randomness() {
    let mut calls = Vec::new();
    let round = create_round_with_random(
        CreateRoundOptions { number: 1, level_rank: OrdinaryRank::Two, level_owner_team: None, previous_result: None },
        &mut |upper| {
            calls.push(upper);
            0
        },
    )
    .unwrap();
    assert_eq!(calls.len(), 108);
    assert_eq!(calls.last(), Some(&4));
    assert_eq!(round.turn_seat, seat(0));
    assert!(round.hands.iter().all(|hand| hand.len() == 27));
}

#[test]
fn played_cards_leave_the_hand_and_must_beat_the_current_play() {
    let mut round = simple_round(OrdinaryRank::Seven);
    let three = round.hands[0][0].id.clone();
    assert!(play_cards(&mut round, seat(0), &[three.clone()], None).unwrap().is_none());
    assert!(round.hands[0].is_empty());
    assert_eq!(round.finish_order, vec![seat(0)]);
    assert_eq!(round.turn_seat, seat(1));
    let play = round.current_play.as_ref().unwrap();
    assert_eq!(play.seat, seat(0));
    assert_eq!(play.cards[0].id, three);

    let not_owned = play_cards(&mut round, seat(1), &[three.clone()], None).unwrap_err();
    assert_eq!(not_owned.code, "CARD_NOT_OWNED");
    let repeated = round.hands[1][0].id.clone();
    let error = play_cards(&mut round, seat(1), &[repeated.clone(), repeated.clone()], None).unwrap_err();
    assert_eq!(error.code, "INVALID_CARD_SELECTION");
    let error = play_cards(&mut round, seat(1), &[], None).unwrap_err();
    assert_eq!(error.code, "INVALID_CARD_SELECTION");
    let two_cards: Vec<String> = round.hands[1].iter().map(|card| card.id.clone()).collect();
    let error = play_cards(&mut round, seat(1), &two_cards, None).unwrap_err();
    assert_eq!(error.code, "INVALID_COMBINATION");
    assert_eq!(round.hands[1].len(), 2);
}

#[test]
fn a_smaller_single_cannot_beat_the_current_play() {
    let mut round = simple_round(OrdinaryRank::Seven);
    round.hands[0] = vec![card(CardRank::King), card(CardRank::Two)];
    let king = round.hands[0][0].id.clone();
    play_cards(&mut round, seat(0), &[king], None).unwrap();
    let four = round.hands[1][0].id.clone();
    let error = play_cards(&mut round, seat(1), &[four], None).unwrap_err();
    assert_eq!(error.code, "COMBINATION_TOO_SMALL");
    assert_eq!(round.turn_seat, seat(1));
}

#[test]
fn tribute_and_return_refusals_name_their_reason() {
    let mut round = simple_round(OrdinaryRank::Seven);
    let error = submit_tribute(&mut round, seat(3), "x").unwrap_err();
    assert_eq!(error.code, "INVALID_PHASE");

    let big_joker = card(CardRank::BigJoker);
    let two = card(CardRank::Two);
    round.hands = [
        vec![two.clone(), card(CardRank::Jack)],
        vec![card(CardRank::Three)],
        vec![card(CardRank::Four)],
        vec![big_joker.clone(), card(CardRank::Ten)],
    ];
    round.phase = RoundPhase::Tribute;
    round.tribute = Some(single_tribute_state());
    assert_eq!(submit_return(&mut round, seat(0), &two.id).unwrap_err().code, "INVALID_TRIBUTE_STAGE");
    assert_eq!(submit_tribute(&mut round, seat(1), "x").unwrap_err().code, "NOT_TRIBUTE_GIVER");
    assert_eq!(submit_tribute(&mut round, seat(3), "missing").unwrap_err().code, "CARD_NOT_OWNED");

    let mut given = single_tribute_state();
    given.contributions.insert(seat(3), card(CardRank::Ace));
    let mut again = simple_round(OrdinaryRank::Seven);
    again.phase = RoundPhase::Tribute;
    again.hands = round.hands.clone();
    again.tribute = Some(given);
    assert_eq!(submit_tribute(&mut again, seat(3), &big_joker.id).unwrap_err().code, "TRIBUTE_ALREADY_GIVEN");

    submit_tribute(&mut round, seat(3), &big_joker.id).unwrap();
    assert_eq!(submit_return(&mut round, seat(1), &two.id).unwrap_err().code, "NOT_TRIBUTE_RECEIVER");
    let jack = round.hands[0].iter().find(|card| card.rank == CardRank::Jack).unwrap().id.clone();
    assert_eq!(submit_return(&mut round, seat(0), &jack).unwrap_err().code, "INVALID_RETURN_CARD");
    assert_eq!(round.phase, RoundPhase::Tribute);

    let mut returned = round.tribute.clone().unwrap();
    returned.returns.insert(seat(0), card(CardRank::Three));
    let mut twice = simple_round(OrdinaryRank::Seven);
    twice.phase = RoundPhase::Tribute;
    twice.hands = round.hands.clone();
    twice.tribute = Some(returned);
    assert_eq!(submit_return(&mut twice, seat(0), &two.id).unwrap_err().code, "RETURN_ALREADY_GIVEN");
}

#[test]
fn a_finished_player_cannot_play() {
    let mut round = simple_round(OrdinaryRank::Seven);
    round.active_seats = [seat(1), seat(2), seat(3)].into_iter().collect::<IndexSet<Seat>>();
    let error = play_cards(&mut round, seat(0), &["x".to_string()], None).unwrap_err();
    assert_eq!(error.code, "PLAYER_FINISHED");
}

#[test]
fn a_hand_shrinks_by_the_cards_played() {
    let mut round = simple_round(OrdinaryRank::Seven);
    play_only_card(&mut round, seat(0));
    let four = round.hands[1][0].id.clone();
    play_cards(&mut round, seat(1), &[four], None).unwrap();
    assert_eq!(round.hands[1].len(), 1);
    assert_eq!(round.current_play.as_ref().unwrap().cards.len(), 1);
}
