//! A match: a sequence of rounds, each team climbing the levels from Two to Ace.

use vstd::prelude::*;
use crate::cards::draws_in_range;
use crate::errors::RuleError;
use crate::combinations::deref_decl;
use crate::round::{
    create_round, create_round_with_random, dealt_with_draws, fresh_round, pass_effect, pass_turn, play_cards, play_effect,
    result_incomplete, return_effect, submit_return, submit_tribute, tribute_effect, CreateRoundOptions,
    RoundResult, RoundState, TributeState, same_round,
};
use crate::types::{ordinary_index, CombinationDeclaration, OrdinaryRank, Seat, Team};

verus! {

/// Whether a round is being played or the match waits for the next one.
#[derive(Clone, Copy, Debug, PartialEq, Eq, Structural)]
pub enum MatchPhase {
    Playing,
    BetweenRounds,
}

/// The state of a match.
#[derive(Debug)]
pub struct MatchState {
    pub phase: MatchPhase,
    pub team_levels: [OrdinaryRank; 2],
    pub previous_round_result: Option<RoundResult>,
    pub current_round: Option<RoundState>,
    pub next_round_number: u32,
    pub next_level_rank: OrdinaryRank,
    pub next_level_owner_team: Option<Team>,
}

/// Two matches agree on every field, results and rounds compared as `same_result` and
/// `same_round` say.
pub open spec fn same_match(a: MatchState, b: MatchState) -> bool {
    &&& a.phase == b.phase
    &&& a.team_levels == b.team_levels
    &&& match (a.previous_round_result, b.previous_round_result) {
        (Some(x), Some(y)) => same_result(x, y),
        (None, None) => true,
        _ => false,
    }
    &&& match (a.current_round, b.current_round) {
        (Some(x), Some(y)) => same_round(x, y),
        (None, None) => true,
        _ => false,
    }
    &&& a.next_round_number == b.next_round_number
    &&& a.next_level_rank == b.next_level_rank
    &&& a.next_level_owner_team == b.next_level_owner_team
}

impl Clone for MatchState {
    fn clone(&self) -> (m: Self)
        ensures
            same_match(m, *self),
    {
        MatchState {
            phase: self.phase,
            team_levels: self.team_levels,
            previous_round_result: match &self.previous_round_result {
                Some(r) => Some(r.clone()),
                None => None,
            },
            current_round: match &self.current_round {
                Some(r) => Some(r.clone()),
                None => None,
            },
            next_round_number: self.next_round_number,
            next_level_rank: self.next_level_rank,
            next_level_owner_team: self.next_level_owner_team,
        }
    }
}

/// What an action of the match produced: the result of a round it ended, and the
/// team that won the match with it.
#[derive(Clone, Debug)]
pub struct MatchActionOutcome {
    pub round_result: Option<RoundResult>,
    pub match_winner: Option<Team>,
}

impl Default for MatchActionOutcome {
    fn default() -> (o: Self)
        ensures
            o.round_result is None,
            o.match_winner is None,
    {
        MatchActionOutcome { round_result: None, match_winner: None }
    }
}

/// Two round results agree on every field.
pub open spec fn same_result(a: RoundResult, b: RoundResult) -> bool {
    &&& a.winner_team == b.winner_team
    &&& a.finish_order@ == b.finish_order@
    &&& a.double_last_seats@ == b.double_last_seats@
    &&& a.partner_placement == b.partner_placement
}

/// The level `steps` above `rank`, stopping at Ace.
pub open spec fn advanced(rank: OrdinaryRank, steps: int) -> OrdinaryRank {
    crate::types::ordinary_rank_at(
        if ordinary_index(rank) + steps < 12 {
            ordinary_index(rank) + steps
        } else {
            12
        },
    )
}

/// Moves a level up by `steps`, stopping at Ace.
pub fn advance_level(rank: OrdinaryRank, steps: u8) -> (r: OrdinaryRank)
    ensures
        r == advanced(rank, steps as int),
{
    let index = rank.index() + steps as usize;
    let next_index = if index < 12 {
        index
    } else {
        12
    };
    OrdinaryRank::at(next_index)
}

/// The options of the first round of a match.
pub open spec fn initial_options() -> CreateRoundOptions {
    CreateRoundOptions { number: 1, level_rank: OrdinaryRank::Two, level_owner_team: None, previous_result: None }
}

fn initial_round_options() -> (o: CreateRoundOptions)
    ensures
        o == initial_options(),
{
    CreateRoundOptions { number: 1, level_rank: OrdinaryRank::Two, level_owner_team: None, previous_result: None }
}

/// A match that has just started with the round `round`.
pub open spec fn is_initial_match(m: MatchState, round: RoundState) -> bool {
    &&& m.phase == MatchPhase::Playing
    &&& m.team_levels == [OrdinaryRank::Two, OrdinaryRank::Two]
    &&& m.previous_round_result is None
    &&& m.current_round == Some(round)
    &&& m.next_round_number == 2
    &&& m.next_level_rank == OrdinaryRank::Two
    &&& m.next_level_owner_team is None
}

/// A new match whose first round is freshly dealt.
pub open spec fn new_match(m: MatchState) -> bool {
    m.current_round matches Some(round) && is_initial_match(m, round) && fresh_round(round, initial_options())
}

fn initial_match(current_round: RoundState) -> (m: MatchState)
    ensures
        is_initial_match(m, current_round),
{
    MatchState {
        phase: MatchPhase::Playing,
        team_levels: [OrdinaryRank::Two, OrdinaryRank::Two],
        previous_round_result: None,
        current_round: Some(current_round),
        next_round_number: 2,
        next_level_rank: OrdinaryRank::Two,
        next_level_owner_team: None,
    }
}

/// Starts a match at level Two for both teams, dealing the first round with the
/// thread-local random generator.
pub fn create_match() -> (m: MatchState)
    ensures
        new_match(m),
{
    match create_round(initial_round_options()) {
        Ok(round) => initial_match(round),
        Err(_) => vstd::pervasive::unreached(),
    }
}

/// Starts a match at level Two for both teams, dealing the first round with
/// `random_index`. A draw out of range is an internal error.
pub fn create_match_with_random<F>(random_index: &mut F) -> (r: Result<MatchState, RuleError>)
    where
        F: FnMut(usize) -> usize,
    requires
        forall|n: usize| n > 0 ==> call_requires(*old(random_index), (n,)),
    ensures
        r matches Ok(m) ==> new_match(m),
        r matches Ok(m) ==> dealt_with_draws(*old(random_index), m.current_round->0.hands),
        r matches Ok(m) ==> call_ensures(*old(random_index), (4usize,), m.current_round->0.turn_seat@ as usize),
        r matches Err(e) ==> e.code@ == "INTERNAL_ERROR"@,
        draws_in_range(*old(random_index), 108) ==> r is Ok,
{
    match create_round_with_random(initial_round_options(), random_index) {
        Ok(round) => Ok(initial_match(round)),
        Err(e) => Err(e),
    }
}

/// A round is in play: the match is playing and has a current round.
pub open spec fn round_in_play(m: MatchState) -> bool {
    m.phase == MatchPhase::Playing && m.current_round is Some
}

fn no_active_round() -> (e: RuleError)
    ensures
        e.code@ == "NO_ACTIVE_ROUND"@,
{
    RuleError::new("NO_ACTIVE_ROUND", "当前没有进行中的轮牌")
}

/// Levels gained by the winning team for the partner's place: 3 for second, 2 for
/// third, 1 otherwise.
pub open spec fn level_steps(partner_placement: u8) -> int {
    if partner_placement == 2 {
        3
    } else if partner_placement == 3 {
        2
    } else {
        1
    }
}

/// The team won the round at level Ace, owning the level, with the partner not last:
/// it wins the match.
pub open spec fn passes_ace(round: RoundState, result: RoundResult) -> bool {
    round.level_rank == OrdinaryRank::Ace && round.level_owner_team == Some(result.winner_team)
        && result.partner_placement != 4
}

/// The effect of settling a finished round on the match, and the outcome.
pub open spec fn settle_effect(
    old: MatchState,
    result: RoundResult,
    new: MatchState,
    r: Result<MatchActionOutcome, RuleError>,
) -> bool {
    if !round_in_play(old) {
        r matches Err(e) && e.code@ == "NO_ACTIVE_ROUND"@ && new == old
    } else if passes_ace(old.current_round->0, result) {
        &&& r matches Ok(o) && o.round_result == Some(result) && o.match_winner == Some(result.winner_team)
        &&& new == old
    } else {
        let w = result.winner_team@;
        let next = advanced(old.team_levels[w], level_steps(result.partner_placement));
        &&& r matches Ok(o) && o.round_result == Some(result) && o.match_winner is None
        &&& new.team_levels[w] == next
        &&& new.team_levels[1 - w] == old.team_levels[1 - w]
        &&& new.previous_round_result matches Some(p) && same_result(p, result)
        &&& new.current_round is None
        &&& new.phase == MatchPhase::BetweenRounds
        &&& new.next_level_rank == next
        &&& new.next_level_owner_team == Some(result.winner_team)
        &&& new.next_round_number == old.next_round_number
    }
}

/// Settles a finished round. Winning at level Ace while owning it, with the partner not
/// last, wins the match. Otherwise the winning team climbs by the partner's place (3
/// levels for second, 2 for third, 1 for last), stopping at Ace, and the match waits
/// for the next round at that level, owned by the winners.
pub fn settle_round(match_state: &mut MatchState, result: RoundResult) -> (r: Result<MatchActionOutcome, RuleError>)
    ensures
        settle_effect(*old(match_state), result, *final(match_state), r),
{
    let (level_rank, level_owner_team) = match &match_state.current_round {
        Some(round) => if match_state.phase == MatchPhase::Playing {
            (round.level_rank, round.level_owner_team)
        } else {
            return Err(no_active_round());
        },
        None => {
            return Err(no_active_round());
        },
    };
    let owner_won = match level_owner_team {
        Some(team) => team == result.winner_team,
        None => false,
    };
    if level_rank == OrdinaryRank::Ace && owner_won && result.partner_placement != 4 {
        let winner = result.winner_team;
        return Ok(MatchActionOutcome { round_result: Some(result), match_winner: Some(winner) });
    }
    let steps: u8 = if result.partner_placement == 2 {
        3
    } else if result.partner_placement == 3 {
        2
    } else {
        1
    };
    let winning_team = result.winner_team;
    let next_level = advance_level(match_state.team_levels[winning_team.index()], steps);
    match_state.team_levels[winning_team.index()] = next_level;
    match_state.previous_round_result = Some(result.clone());
    match_state.current_round = None;
    match_state.phase = MatchPhase::BetweenRounds;
    match_state.next_level_rank = next_level;
    match_state.next_level_owner_team = Some(winning_team);
    Ok(MatchActionOutcome { round_result: Some(result), match_winner: None })
}

/// The match with `round` as its current round.
pub open spec fn with_round(m: MatchState, round: RoundState) -> MatchState {
    MatchState { current_round: Some(round), ..m }
}

/// The effect of playing cards in the match: the play goes to the current round, and
/// a round that it ends is settled.
pub open spec fn match_play_effect(
    old: MatchState,
    seat: Seat,
    card_ids: Seq<String>,
    decl: Option<CombinationDeclaration>,
    new: MatchState,
    r: Result<MatchActionOutcome, RuleError>,
) -> bool {
    if !round_in_play(old) {
        r matches Err(e) && e.code@ == "NO_ACTIVE_ROUND"@ && new == old
    } else {
        exists|round: RoundState, rr: Result<Option<RoundResult>, RuleError>|
            #[trigger] play_effect(old.current_round->0, seat, card_ids, decl, round, rr) && match rr {
                Err(e) => r == Err::<MatchActionOutcome, RuleError>(e) && new == with_round(old, round),
                Ok(None) => r matches Ok(o) && o.round_result is None && o.match_winner is None && new
                    == with_round(old, round),
                Ok(Some(result)) => settle_effect(with_round(old, round), result, new, r),
            }
    }
}

/// Plays cards in the current round of the match (see `play_cards`), settling the round
/// when the play ends it (see `settle_round`).
pub fn play_match_cards(
    match_state: &mut MatchState,
    seat: Seat,
    card_ids: &[String],
    declaration: Option<&CombinationDeclaration>,
) -> (r: Result<MatchActionOutcome, RuleError>)
    ensures
        match_play_effect(*old(match_state), seat, card_ids@, deref_decl(declaration), *final(match_state), r),
{
    if match_state.phase != MatchPhase::Playing {
        return Err(no_active_round());
    }
    let ghost before = *match_state;
    let played = match &mut match_state.current_round {
        Some(round) => play_cards(round, seat, card_ids, declaration),
        None => {
            return Err(no_active_round());
        },
    };
    let ghost round = match_state.current_round->0;
    proof {
        assert(*match_state == with_round(before, round));
    }
    match played {
        Ok(Some(result)) => settle_round(match_state, result),
        Ok(None) => Ok(MatchActionOutcome::default()),
        Err(e) => Err(e),
    }
}

/// The effect of an action on the current round of the match: `effect` holds of the
/// round before and after, and of the result.
pub open spec fn round_action<T>(
    old: MatchState,
    new: MatchState,
    r: Result<T, RuleError>,
    effect: spec_fn(RoundState, RoundState, Result<T, RuleError>) -> bool,
) -> bool {
    if !round_in_play(old) {
        r matches Err(e) && e.code@ == "NO_ACTIVE_ROUND"@ && new == old
    } else {
        new.current_round matches Some(round) && effect(old.current_round->0, round, r) && new == with_round(
            old,
            round,
        )
    }
}

/// Passes the turn in the current round of the match (see `pass_turn`).
pub fn pass_match_turn(match_state: &mut MatchState, seat: Seat) -> (r: Result<(), RuleError>)
    requires
        old(match_state).current_round matches Some(round) ==> round.consecutive_passes < usize::MAX,
    ensures
        round_action(
            *old(match_state),
            *final(match_state),
            r,
            |a: RoundState, b: RoundState, r: Result<(), RuleError>| pass_effect(a, seat, b, r),
        ),
{
    if match_state.phase != MatchPhase::Playing {
        return Err(no_active_round());
    }
    match &mut match_state.current_round {
        Some(round) => pass_turn(round, seat),
        None => Err(no_active_round()),
    }
}

/// Gives a tribute card in the current round of the match (see `submit_tribute`).
pub fn give_match_tribute(match_state: &mut MatchState, seat: Seat, card_id: &str) -> (r: Result<(), RuleError>)
    ensures
        round_action(
            *old(match_state),
            *final(match_state),
            r,
            |a: RoundState, b: RoundState, r: Result<(), RuleError>| tribute_effect(a, seat, card_id@, b, r),
        ),
{
    if match_state.phase != MatchPhase::Playing {
        return Err(no_active_round());
    }
    match &mut match_state.current_round {
        Some(round) => submit_tribute(round, seat, card_id),
        None => Err(no_active_round()),
    }
}

/// Gives a return card in the current round of the match (see `submit_return`).
pub fn return_match_tribute(match_state: &mut MatchState, seat: Seat, card_id: &str) -> (r: Result<Option<TributeState>, RuleError>)
    ensures
        round_action(
            *old(match_state),
            *final(match_state),
            r,
            |a: RoundState, b: RoundState, r: Result<Option<TributeState>, RuleError>| return_effect(a, seat, card_id@, b, r),
        ),
{
    if match_state.phase != MatchPhase::Playing {
        return Err(no_active_round());
    }
    match &mut match_state.current_round {
        Some(round) => submit_return(round, seat, card_id),
        None => Err(no_active_round()),
    }
}

/// The options of the round that follows: the pending number, level and owner, and the
/// previous result.
pub open spec fn next_options(m: MatchState) -> CreateRoundOptions {
    CreateRoundOptions {
        number: m.next_round_number,
        level_rank: m.next_level_rank,
        level_owner_team: m.next_level_owner_team,
        previous_result: m.previous_round_result,
    }
}

/// The code that refuses to start the next round, before any dealing, or `None`.
pub open spec fn next_round_rejection(m: MatchState) -> Option<Seq<char>> {
    if m.phase != MatchPhase::BetweenRounds || m.current_round is Some {
        Some("ROUND_ALREADY_ACTIVE"@)
    } else if m.previous_round_result is None {
        Some("INTERNAL_ERROR"@)
    } else {
        None
    }
}

/// The effect of starting the next round: refused as `next_round_rejection` says, an
/// internal error for an incomplete previous result, otherwise a freshly dealt round
/// under `next_options` is installed and the match plays again.
pub open spec fn next_round_effect(old: MatchState, new: MatchState, r: Result<&RoundState, RuleError>) -> bool {
    match next_round_rejection(old) {
        Some(code) => r matches Err(e) && e.code@ == code && new == old,
        None => match r {
            Ok(round) => {
                &&& fresh_round(*round, next_options(old))
                &&& new == (MatchState {
                    phase: MatchPhase::Playing,
                    current_round: Some(*round),
                    next_round_number: (old.next_round_number + 1) as u32,
                    ..old
                })
            },
            Err(e) => e.code@ == "INTERNAL_ERROR"@ && new == old,
        },
    }
}

fn next_round_options(match_state: &MatchState) -> (r: Result<CreateRoundOptions, RuleError>)
    ensures
        match next_round_rejection(*match_state) {
            Some(code) => r matches Err(e) && e.code@ == code,
            None => r matches Ok(o) && o.number == match_state.next_round_number && o.level_rank
                == match_state.next_level_rank && o.level_owner_team == match_state.next_level_owner_team
                && (o.previous_result matches Some(p) && same_result(p, match_state.previous_round_result->0)),
        },
{
    if match_state.phase != MatchPhase::BetweenRounds || match_state.current_round.is_some() {
        return Err(RuleError::new("ROUND_ALREADY_ACTIVE", "当前并非轮牌间隔阶段"));
    }
    let previous_result = match &match_state.previous_round_result {
        Some(result) => result.clone(),
        None => {
            return Err(RuleError::internal("Missing previous round result"));
        },
    };
    Ok(
        CreateRoundOptions {
            number: match_state.next_round_number,
            level_rank: match_state.next_level_rank,
            level_owner_team: match_state.next_level_owner_team,
            previous_result: Some(previous_result),
        },
    )
}

fn install_next_round(match_state: &mut MatchState, round: RoundState)
    requires
        old(match_state).next_round_number < u32::MAX,
    ensures
        *final(match_state) == (MatchState {
            phase: MatchPhase::Playing,
            current_round: Some(round),
            next_round_number: (old(match_state).next_round_number + 1) as u32,
            ..*old(match_state)
        }),
{
    match_state.phase = MatchPhase::Playing;
    match_state.next_round_number = match_state.next_round_number + 1;
    match_state.current_round = Some(round);
}

/// Deals the next round with `random_index` and installs it (see `next_round_effect`).
/// A draw out of range is an internal error.
pub fn start_next_round_with_random<'a, F>(match_state: &'a mut MatchState, random_index: &mut F) -> (r: Result<&'a RoundState, RuleError>)
    where
        F: FnMut(usize) -> usize,
    requires
        forall|n: usize| n > 0 ==> call_requires(*old(random_index), (n,)),
        old(match_state).next_round_number < u32::MAX,
    ensures
        next_round_effect(*old(match_state), *final(match_state), r),
        r matches Ok(round) ==> dealt_with_draws(*old(random_index), round.hands),
        draws_in_range(*old(random_index), 108) && next_round_rejection(*old(match_state)) is None && !result_incomplete(
            old(match_state).previous_round_result->0,
        ) ==> r is Ok,
{
    let options = match next_round_options(match_state) {
        Ok(o) => o,
        Err(e) => {
            return Err(e);
        },
    };
    let round = match create_round_with_random(options, random_index) {
        Ok(r) => r,
        Err(e) => {
            return Err(e);
        },
    };
    install_next_round(match_state, round);
    match &match_state.current_round {
        Some(round) => Ok(round),
        None => vstd::pervasive::unreached(),
    }
}

/// Deals the next round with the thread-local random generator and installs it (see
/// `next_round_effect`); this fails only as that effect says.
pub fn start_next_round(match_state: &mut MatchState) -> (r: Result<&RoundState, RuleError>)
    requires
        old(match_state).next_round_number < u32::MAX,
    ensures
        next_round_effect(*old(match_state), *final(match_state), r),
        next_round_rejection(*old(match_state)) is None && !result_incomplete(
            old(match_state).previous_round_result->0,
        ) ==> r is Ok,
{
    let options = match next_round_options(match_state) {
        Ok(o) => o,
        Err(e) => {
            return Err(e);
        },
    };
    let round = match create_round(options) {
        Ok(r) => r,
        Err(e) => {
            return Err(e);
        },
    };
    install_next_round(match_state, round);
    match &match_state.current_round {
        Some(round) => Ok(round),
        None => vstd::pervasive::unreached(),
    }
}

/// Settling a round never lowers a team's level, and the winners climb at least one
/// level unless they are already at Ace.
pub proof fn law_settling_never_lowers_a_level(old: MatchState, result: RoundResult, new: MatchState, r: Result<MatchActionOutcome, RuleError>)
    requires
        0 <= result.winner_team@ < 2,
        settle_effect(old, result, new, r),
        r is Ok,
        new.current_round is None,
    ensures
        forall|t: int| 0 <= t < 2 ==> ordinary_index(#[trigger] new.team_levels[t]) >= ordinary_index(old.team_levels[t]),
        ordinary_index(old.team_levels[result.winner_team@]) < 12 ==> ordinary_index(new.team_levels[result.winner_team@])
            > ordinary_index(old.team_levels[result.winner_team@]),
{
    let w = result.winner_team@;
    crate::types::lemma_ordinary_index_roundtrip(old.team_levels[w]);
    let i = ordinary_index(old.team_levels[w]) + level_steps(result.partner_placement);
    crate::types::lemma_ordinary_rank_at_index(if i < 12 { i } else { 12 });
    assert(w == 0 || w == 1);
}

/// A round whose winners do not own its level never wins the match: settling it
/// answers with no match winner, ends the round, and raises the winners' level by
/// three for a partner in second place, two for third and one otherwise, stopping at
/// Ace; the winners own the next level.
pub proof fn law_winning_off_ones_own_level_only_climbs(
    old: MatchState,
    result: RoundResult,
    new: MatchState,
    r: Result<MatchActionOutcome, RuleError>,
)
    requires
        0 <= result.winner_team@ < 2,
        settle_effect(old, result, new, r),
        round_in_play(old),
        old.current_round->0.level_owner_team != Some(result.winner_team),
    ensures
        r matches Ok(o) && o.match_winner is None,
        new.phase == MatchPhase::BetweenRounds,
        new.current_round is None,
        ({
            let w = result.winner_team@;
            let steps: int = if result.partner_placement == 2 {
                3
            } else if result.partner_placement == 3 {
                2
            } else {
                1
            };
            let before = ordinary_index(old.team_levels[w]);
            &&& ordinary_index(new.team_levels[w]) == if before + steps < 12 { before + steps } else { 12 }
            &&& new.team_levels[1 - w] == old.team_levels[1 - w]
            &&& new.next_level_rank == new.team_levels[w]
            &&& new.next_level_owner_team == Some(result.winner_team)
        }),
{
    let w = result.winner_team@;
    crate::types::lemma_ordinary_index_roundtrip(old.team_levels[w]);
    let i = ordinary_index(old.team_levels[w]) + level_steps(result.partner_placement);
    crate::types::lemma_ordinary_rank_at_index(if i < 12 { i } else { 12 });
}

/// A match is won only by the team that won a round played at level Ace, owning that
/// level, with the partner not finishing last.
pub proof fn law_only_the_owner_of_ace_wins_the_match(
    old: MatchState,
    result: RoundResult,
    new: MatchState,
    r: Result<MatchActionOutcome, RuleError>,
)
    requires
        settle_effect(old, result, new, r),
        r matches Ok(o) && o.match_winner is Some,
    ensures
        r->Ok_0.match_winner == Some(result.winner_team),
        old.current_round is Some,
        old.current_round->0.level_rank == OrdinaryRank::Ace,
        old.current_round->0.level_owner_team == Some(result.winner_team),
        result.partner_placement != 4,
{
}

} // verus!
