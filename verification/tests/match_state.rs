use open_guandan_server::match_state::{
    advance_level, create_match, create_match_with_random, pass_match_turn, play_match_cards, settle_round,
    start_next_round_with_random, MatchActionOutcome, MatchPhase, MatchState,
};
use open_guandan_server::round::{RoundPhase, RoundResult, RoundState};
use open_guandan_server::types::{Card, CardRank, OrdinaryRank, Seat, Suit, Team};

fn seat(value: u8) -> Seat {
    Seat::new(value).unwrap()
}

fn team(value: u8) -> Team {
    Team::new(value).unwrap()
}

fn spade(rank: CardRank) -> Card {
    Card { id: format!("test-card-{}", uuid::Uuid::new_v4()), deck_index: 0, suit: Suit::Spade, rank }
}

fn simple_round(level_rank: OrdinaryRank) -> RoundState {
    RoundState {
        number: 1,
        level_rank,
        level_owner_team: None,
        phase: RoundPhase::Playing,
        hands: [
            vec![spade(CardRank::Three)],
            vec![spade(CardRank::Four), spade(CardRank::Eight)],
            vec![spade(CardRank::Five)],
            vec![spade(CardRank::Six), spade(CardRank::Nine)],
        ],
        active_seats: Seat::all().into_iter().collect(),
        turn_seat: seat(0),
        current_play: None,
        consecutive_passes: 0,
        finish_order: Vec::new(),
        tribute: None,
    }
}

fn play_only_card(match_state: &mut MatchState, seat: Seat) -> MatchActionOutcome {
    let card_id = match_state.current_round.as_ref().unwrap().hands[seat.index()][0].id.clone();
    play_match_cards(match_state, seat, &[card_id], None).unwrap()
}

#[test]
fn level_advancement_caps_at_ace() {
    assert_eq!(advance_level(OrdinaryRank::Two, 3), OrdinaryRank::Five);
    assert_eq!(advance_level(OrdinaryRank::Queen, 3), OrdinaryRank::Ace);
    assert_eq!(advance_level(OrdinaryRank::Ace, 3), OrdinaryRank::Ace);
}

#[test]
fn playing_ace_wins_when_partner_is_not_last() {
    let mut match_state = create_match_with_random(&mut |_| 0).unwrap();
    match_state.team_levels[0] = OrdinaryRank::Ace;
    let mut round = simple_round(OrdinaryRank::Ace);
    round.level_owner_team = Some(team(0));
    match_state.current_round = Some(round);

    play_only_card(&mut match_state, seat(0));
    pass_match_turn(&mut match_state, seat(1)).unwrap();
    pass_match_turn(&mut match_state, seat(2)).unwrap();
    pass_match_turn(&mut match_state, seat(3)).unwrap();
    let outcome = play_only_card(&mut match_state, seat(2));
    assert_eq!(outcome.match_winner, Some(team(0)));
}

#[test]
fn failing_to_pass_ace_stays_at_ace_and_moves_between_rounds() {
    let mut match_state = create_match_with_random(&mut |_| 0).unwrap();
    match_state.team_levels[0] = OrdinaryRank::Ace;
    let mut round = simple_round(OrdinaryRank::Ace);
    round.level_owner_team = Some(team(0));
    match_state.current_round = Some(round);

    let result = RoundResult {
        winner_team: team(0),
        finish_order: vec![seat(0), seat(1), seat(3), seat(2)],
        double_last_seats: Vec::new(),
        partner_placement: 4,
    };
    let outcome = settle_round(&mut match_state, result).unwrap();
    assert_eq!(outcome.match_winner, None);
    assert_eq!(match_state.team_levels[0], OrdinaryRank::Ace);
    assert_eq!(match_state.phase, MatchPhase::BetweenRounds);
    assert!(match_state.current_round.is_none());
}

#[test]
fn settlement_advances_by_partner_placement() {
    for (placement, expected) in [(2, OrdinaryRank::Five), (3, OrdinaryRank::Four), (4, OrdinaryRank::Three)] {
        let mut match_state = create_match_with_random(&mut |_| 0).unwrap();
        let result = RoundResult {
            winner_team: team(0),
            finish_order: if placement == 2 {
                vec![seat(0), seat(2)]
            } else {
                vec![seat(0), seat(1), seat(2), seat(3)]
            },
            double_last_seats: if placement == 2 { vec![seat(1), seat(3)] } else { Vec::new() },
            partner_placement: placement,
        };
        settle_round(&mut match_state, result).unwrap();
        assert_eq!(match_state.team_levels[0], expected);
    }
}

#[test]
fn next_round_uses_pending_level_and_increments_number() {
    let mut match_state = create_match_with_random(&mut |_| 0).unwrap();
    let result = RoundResult {
        winner_team: team(0),
        finish_order: vec![seat(0), seat(1), seat(3), seat(2)],
        double_last_seats: Vec::new(),
        partner_placement: 4,
    };
    settle_round(&mut match_state, result).unwrap();
    let round = start_next_round_with_random(&mut match_state, &mut |_| 0).unwrap();
    assert_eq!(round.number, 2);
    assert_eq!(round.level_rank, OrdinaryRank::Three);
    assert_eq!(round.level_owner_team, Some(team(0)));
    assert_eq!(match_state.next_round_number, 3);
    assert_eq!(match_state.phase, MatchPhase::Playing);
}

#[test]
fn wrappers_reject_actions_between_rounds() {
    let mut match_state = create_match_with_random(&mut |_| 0).unwrap();
    match_state.phase = MatchPhase::BetweenRounds;
    match_state.current_round = None;
    let error = pass_match_turn(&mut match_state, seat(0)).unwrap_err();
    assert_eq!(error.code, "NO_ACTIVE_ROUND");
}

#[test]
fn a_new_match_starts_both_teams_at_two_with_a_dealt_round() {
    let match_state = create_match();
    assert_eq!(match_state.phase, MatchPhase::Playing);
    assert_eq!(match_state.team_levels, [OrdinaryRank::Two, OrdinaryRank::Two]);
    assert_eq!(match_state.next_round_number, 2);
    let round = match_state.current_round.as_ref().unwrap();
    assert_eq!(round.number, 1);
    assert!(round.hands.iter().all(|hand| hand.len() == 27));
    assert!(create_match_with_random(&mut |upper| upper).is_err());
}

#[test]
fn the_next_round_is_refused_while_one_is_active() {
    let mut match_state = create_match_with_random(&mut |_| 0).unwrap();
    let error = start_next_round_with_random(&mut match_state, &mut |_| 0).unwrap_err();
    assert_eq!(error.code, "ROUND_ALREADY_ACTIVE");
}
