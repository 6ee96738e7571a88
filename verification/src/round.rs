//! One round of play: dealing, tribute and return, playing, passing and finishing.

use vstd::prelude::*;
use indexmap::{IndexMap, IndexSet};
use crate::cards::{
    card_rank_strength, copy_cards, create_deck, deal_cards, drawn_by, draws_in_range, fisher_yates, is_deck_card, is_wildcard, ordinary_rank_value,
    rank_value, shuffle_cards_with, strength, valid_picks, wildcard,
};
use crate::combinations::{can_beat, rank_count, resolve_combination};
use crate::errors::{ErrorDetails, RuleError};
use crate::indexed::{
    distinct_keys, has_key, insert_entry, keys_of, lemma_elem_index, lemma_insert_entry, lemma_insert_lookup,
    lemma_insert_lookup_other, lemma_key_index,
    lemma_key_index_at, lookup, remove_elem, seat_card_entries, seat_card_map_clone, seat_card_map_contains,
    seat_card_map_get, seat_card_map_insert, seat_card_map_len, seat_card_map_new, seat_card_map_to_vec,
    seat_seat_entries, seat_seat_map_clone, seat_seat_map_get, seat_seat_map_insert, seat_seat_map_len,
    seat_seat_map_new, seat_seat_map_to_vec, seat_set_contains, seat_set_entries, seat_set_first, seat_set_insert,
    seat_set_clone, seat_set_len, seat_set_new, seat_set_shift_remove, seat_set_to_vec,
};
use crate::types::{
    ordinary_index, ordinary_of, seat_at, Card, CardRank, Combination, CombinationDeclaration, OrdinaryRank, Seat,
    Suit, Team,
};

verus! {

/// Whether a round is exchanging tribute or being played.
#[derive(Clone, Copy, Debug, PartialEq, Eq, Structural)]
pub enum RoundPhase {
    Tribute,
    Playing,
}

/// One giver (single tribute) or two givers (double tribute).
#[derive(Clone, Copy, Debug, PartialEq, Eq, Structural)]
pub enum TributeKind {
    Single,
    Double,
}

/// Tribute cards are being given, or return cards are being given back.
#[derive(Clone, Copy, Debug, PartialEq, Eq, Structural)]
pub enum TributeStage {
    Giving,
    Returning,
}

/// The last combination played in the current trick.
#[derive(Debug)]
pub struct PlayedCombination {
    pub seat: Seat,
    pub cards: Vec<Card>,
    pub combination: Combination,
}

/// Two plays agree: same seat, same cards and same combination, its wildcard
/// assignments compared by their entries.
pub open spec fn same_play(a: PlayedCombination, b: PlayedCombination) -> bool {
    &&& a.seat == b.seat
    &&& a.cards@ == b.cards@
    &&& a.combination.kind == b.combination.kind
    &&& a.combination.size == b.combination.size
    &&& a.combination.primary_rank == b.combination.primary_rank
    &&& a.combination.sequence_top == b.combination.sequence_top
    &&& a.combination.suit == b.combination.suit
    &&& wildcard_entries(a.combination.wildcard_assignments) == wildcard_entries(b.combination.wildcard_assignments)
}

impl Clone for PlayedCombination {
    fn clone(&self) -> (p: Self)
        ensures
            same_play(p, *self),
    {
        PlayedCombination { seat: self.seat, cards: copy_cards(self.cards.as_slice()), combination: self.combination.clone() }
    }
}

/// How a round ended.
#[derive(Debug)]
pub struct RoundResult {
    pub winner_team: Team,
    pub finish_order: Vec<Seat>,
    pub double_last_seats: Vec<Seat>,
    pub partner_placement: u8,
}

impl Clone for RoundResult {
    fn clone(&self) -> (r: Self)
        ensures
            r.winner_team == self.winner_team,
            r.finish_order@ == self.finish_order@,
            r.double_last_seats@ == self.double_last_seats@,
            r.partner_placement == self.partner_placement,
    {
        RoundResult {
            winner_team: self.winner_team,
            finish_order: self.finish_order.clone(),
            double_last_seats: self.double_last_seats.clone(),
            partner_placement: self.partner_placement,
        }
    }
}

/// The tribute exchange at the start of a round that follows another.
#[derive(Debug)]
pub struct TributeState {
    pub kind: TributeKind,
    pub stage: TributeStage,
    pub previous_first: Seat,
    pub previous_second: Option<Seat>,
    pub givers: Vec<Seat>,
    pub contributions: IndexMap<Seat, Card>,
    pub receiver_for_giver: IndexMap<Seat, Seat>,
    pub returns: IndexMap<Seat, Card>,
    pub leader_seat: Option<Seat>,
}

/// The entries of the tribute maps: contributions, receivers and returns.
pub open spec fn tribute_maps(t: TributeState) -> (Seq<(Seat, Card)>, Seq<(Seat, Seat)>, Seq<(Seat, Card)>) {
    (seat_card_entries(t.contributions), seat_seat_entries(t.receiver_for_giver), seat_card_entries(t.returns))
}

/// Two tribute states agree on every field, maps compared by their entries.
pub open spec fn same_tribute(a: TributeState, b: TributeState) -> bool {
    &&& a.kind == b.kind
    &&& a.stage == b.stage
    &&& a.previous_first == b.previous_first
    &&& a.previous_second == b.previous_second
    &&& a.givers@ == b.givers@
    &&& tribute_maps(a) == tribute_maps(b)
    &&& a.leader_seat == b.leader_seat
}

impl Clone for TributeState {
    fn clone(&self) -> (r: Self)
        ensures
            same_tribute(r, *self),
    {
        TributeState {
            kind: self.kind,
            stage: self.stage,
            previous_first: self.previous_first,
            previous_second: self.previous_second,
            givers: self.givers.clone(),
            contributions: seat_card_map_clone(&self.contributions),
            receiver_for_giver: seat_seat_map_clone(&self.receiver_for_giver),
            returns: seat_card_map_clone(&self.returns),
            leader_seat: self.leader_seat,
        }
    }
}

/// The state of one round.
#[derive(Debug)]
pub struct RoundState {
    pub number: u32,
    pub level_rank: OrdinaryRank,
    pub level_owner_team: Option<Team>,
    pub phase: RoundPhase,
    pub hands: [Vec<Card>; 4],
    pub active_seats: IndexSet<Seat>,
    pub turn_seat: Seat,
    pub current_play: Option<PlayedCombination>,
    pub consecutive_passes: usize,
    pub finish_order: Vec<Seat>,
    pub tribute: Option<TributeState>,
}

/// Two rounds agree on every field: hands, finish order and seats compared by their
/// contents, plays and tributes as `same_play` and `same_tribute` say.
pub open spec fn same_round(a: RoundState, b: RoundState) -> bool {
    &&& a.number == b.number
    &&& a.level_rank == b.level_rank
    &&& a.level_owner_team == b.level_owner_team
    &&& a.phase == b.phase
    &&& forall|h: int| 0 <= h < 4 ==> #[trigger] a.hands[h]@ == b.hands[h]@
    &&& active(a) == active(b)
    &&& a.turn_seat == b.turn_seat
    &&& match (a.current_play, b.current_play) {
        (Some(x), Some(y)) => same_play(x, y),
        (None, None) => true,
        _ => false,
    }
    &&& a.consecutive_passes == b.consecutive_passes
    &&& a.finish_order@ == b.finish_order@
    &&& match (a.tribute, b.tribute) {
        (Some(x), Some(y)) => same_tribute(x, y),
        (None, None) => true,
        _ => false,
    }
}

impl Clone for RoundState {
    fn clone(&self) -> (r: Self)
        ensures
            same_round(r, *self),
    {
        RoundState {
            number: self.number,
            level_rank: self.level_rank,
            level_owner_team: self.level_owner_team,
            phase: self.phase,
            hands: [
                copy_cards(self.hands[0].as_slice()),
                copy_cards(self.hands[1].as_slice()),
                copy_cards(self.hands[2].as_slice()),
                copy_cards(self.hands[3].as_slice()),
            ],
            active_seats: seat_set_clone(&self.active_seats),
            turn_seat: self.turn_seat,
            current_play: match &self.current_play {
                Some(p) => Some(p.clone()),
                None => None,
            },
            consecutive_passes: self.consecutive_passes,
            finish_order: self.finish_order.clone(),
            tribute: match &self.tribute {
                Some(t) => Some(t.clone()),
                None => None,
            },
        }
    }
}

/// What a new round starts from.
#[derive(Clone, Debug)]
pub struct CreateRoundOptions {
    pub number: u32,
    pub level_rank: OrdinaryRank,
    pub level_owner_team: Option<Team>,
    pub previous_result: Option<RoundResult>,
}

/// The seats still holding cards, in order.
pub open spec fn active(round: RoundState) -> Seq<Seat> {
    seat_set_entries(round.active_seats)
}

/// The hand of a seat.
pub open spec fn hand_of(round: RoundState, seat: Seat) -> Seq<Card> {
    round.hands[seat@]@
}

/// Number of big jokers in a hand.
pub open spec fn big_jokers(hand: Seq<Card>) -> nat {
    rank_count(hand, CardRank::BigJoker)
}

fn count_big_jokers(hand: &Vec<Card>) -> (n: usize)
    ensures
        n == big_jokers(hand@),
{
    let mut n: usize = 0;
    let mut i: usize = 0;
    while i < hand.len()
        invariant
            i <= hand@.len(),
            n == rank_count(hand@.take(i as int), CardRank::BigJoker),
            n <= i,
        decreases hand@.len() - i,
    {
        proof {
            assert(hand@.take(i + 1).drop_last() =~= hand@.take(i as int));
        }
        if hand[i].rank == CardRank::BigJoker {
            n = n + 1;
        }
        i = i + 1;
    }
    proof {
        assert(hand@.take(hand@.len() as int) =~= hand@);
    }
    n
}

/// The first active seat clockwise after `from` (possibly `from` itself, last).
pub open spec fn next_active(from: Seat, a: Seq<Seat>) -> Option<Seat> {
    if a.contains(seat_at((from@ + 1) % 4)) {
        Some(seat_at((from@ + 1) % 4))
    } else if a.contains(seat_at((from@ + 2) % 4)) {
        Some(seat_at((from@ + 2) % 4))
    } else if a.contains(seat_at((from@ + 3) % 4)) {
        Some(seat_at((from@ + 3) % 4))
    } else if a.contains(seat_at((from@ + 4) % 4)) {
        Some(seat_at((from@ + 4) % 4))
    } else {
        None
    }
}

fn next_active_seat(from: Seat, active_seats: &IndexSet<Seat>) -> (r: Result<Seat, RuleError>)
    ensures
        r is Ok <==> next_active(from, seat_set_entries(*active_seats)) is Some,
        r matches Ok(s) ==> Some(s) == next_active(from, seat_set_entries(*active_seats)),
        r matches Err(e) ==> e.code@ == "NO_ACTIVE_PLAYER"@,
{
    let mut candidate = from;
    let c1 = candidate.next();
    if seat_set_contains(active_seats, c1) {
        return Ok(c1);
    }
    let c2 = c1.next();
    if seat_set_contains(active_seats, c2) {
        return Ok(c2);
    }
    let c3 = c2.next();
    if seat_set_contains(active_seats, c3) {
        return Ok(c3);
    }
    let c4 = c3.next();
    if seat_set_contains(active_seats, c4) {
        return Ok(c4);
    }
    Err(RuleError::new("NO_ACTIVE_PLAYER", "没有可继续行动的玩家"))
}

/// Position of the first card with the id, or -1.
pub open spec fn find_card(hand: Seq<Card>, id: Seq<char>) -> int
    decreases hand.len(),
{
    if hand.len() == 0 {
        -1
    } else if hand[0].id@ == id {
        0
    } else {
        let r = find_card(hand.drop_first(), id);
        if r < 0 {
            -1
        } else {
            r + 1
        }
    }
}

proof fn lemma_find_card(hand: Seq<Card>, id: Seq<char>)
    ensures
        -1 <= find_card(hand, id) < hand.len(),
        find_card(hand, id) >= 0 ==> hand[find_card(hand, id)].id@ == id,
        find_card(hand, id) >= 0 ==> forall|j: int| 0 <= j < find_card(hand, id) ==> hand[j].id@ != id,
        find_card(hand, id) < 0 ==> forall|j: int| 0 <= j < hand.len() ==> hand[j].id@ != id,
    decreases hand.len(),
{
    if hand.len() > 0 && hand[0].id@ != id {
        lemma_find_card(hand.drop_first(), id);
        assert forall|j: int| 1 <= j < hand.len() implies hand[j] == hand.drop_first()[j - 1] by {}
    }
}

/// The card of the hand with the id, if any.
pub open spec fn card_in_hand(hand: Seq<Card>, id: Seq<char>) -> Option<Card> {
    if find_card(hand, id) >= 0 {
        Some(hand[find_card(hand, id)])
    } else {
        None
    }
}

fn find_in_hand(hand: &Vec<Card>, card_id: &String) -> (r: Option<Card>)
    ensures
        r == card_in_hand(hand@, card_id@),
{
    let mut i: usize = 0;
    proof {
        lemma_find_card(hand@, card_id@);
    }
    while i < hand.len()
        invariant
            i <= hand@.len(),
            forall|j: int| 0 <= j < i ==> hand@[j].id@ != card_id@,
        decreases hand@.len() - i,
    {
        if hand[i].id == *card_id {
            proof {
                lemma_find_card(hand@, card_id@);
                if find_card(hand@, card_id@) < i {
                    assert(hand@[find_card(hand@, card_id@)].id@ == card_id@);
                }
            }
            return Some(hand[i].clone());
        }
        i = i + 1;
    }
    None
}

fn card_from_hand(round: &RoundState, seat: Seat, card_id: &String) -> (r: Result<Card, RuleError>)
    ensures
        r is Ok <==> card_in_hand(hand_of(*round, seat), card_id@) is Some,
        r matches Ok(c) ==> Some(c) == card_in_hand(hand_of(*round, seat), card_id@),
        r matches Err(e) ==> e.code@ == "CARD_NOT_OWNED"@,
{
    match find_in_hand(&round.hands[seat.index()], card_id) {
        Some(card) => Ok(card),
        None => Err(RuleError::new("CARD_NOT_OWNED", "所选牌张不在玩家手中")),
    }
}

/// The hand without the cards whose ids are listed.
pub open spec fn without_ids(hand: Seq<Card>, ids: Seq<Seq<char>>) -> Seq<Card> {
    hand.filter(|c: Card| !ids.contains(c.id@))
}

/// The hand without the cards with the given id.
pub open spec fn without_id(hand: Seq<Card>, id: Seq<char>) -> Seq<Card> {
    hand.filter(|c: Card| c.id@ != id)
}

/// The views of a list of ids.
pub open spec fn id_views(ids: Seq<String>) -> Seq<Seq<char>> {
    ids.map_values(|s: String| s@)
}

fn listed(card_ids: &[String], id: &String) -> (b: bool)
    ensures
        b == id_views(card_ids@).contains(id@),
{
    let mut i: usize = 0;
    while i < card_ids.len()
        invariant
            i <= card_ids@.len(),
            forall|j: int| 0 <= j < i ==> card_ids@[j]@ != id@,
        decreases card_ids@.len() - i,
    {
        if card_ids[i] == *id {
            proof {
                assert(id_views(card_ids@)[i as int] == id@);
            }
            return true;
        }
        i = i + 1;
    }
    proof {
        if id_views(card_ids@).contains(id@) {
            let j = choose|j: int| 0 <= j < card_ids@.len() && id_views(card_ids@)[j] == id@;
            assert(card_ids@[j]@ == id@);
        }
    }
    false
}

fn remove_card_ids(hand: &mut Vec<Card>, card_ids: &[String])
    ensures
        final(hand)@ == without_ids(old(hand)@, id_views(card_ids@)),
{
    let ghost before_removal = hand@;
    let mut kept: Vec<Card> = Vec::new();
    let mut i: usize = 0;
    while i < hand.len()
        invariant
            hand@ == before_removal,
            i <= before_removal.len(),
            kept@ == without_ids(before_removal.take(i as int), id_views(card_ids@)),
        decreases before_removal.len() - i,
    {
        proof {
            assert(before_removal.take(i + 1).drop_last() =~= before_removal.take(i as int));
            assert(before_removal.take(i + 1).last() == before_removal[i as int]);
            reveal_with_fuel(Seq::<_>::filter, 1);
        }
        if !listed(card_ids, &hand[i].id) {
            kept.push(hand[i].clone());
        }
        i = i + 1;
    }
    proof {
        assert(before_removal.take(before_removal.len() as int) =~= before_removal);
    }
    *hand = kept;
}

fn remove_one_card(hand: &mut Vec<Card>, card_id: &String)
    ensures
        final(hand)@ == without_id(old(hand)@, card_id@),
{
    let ghost before_removal = hand@;
    let mut kept: Vec<Card> = Vec::new();
    let mut i: usize = 0;
    while i < hand.len()
        invariant
            hand@ == before_removal,
            i <= before_removal.len(),
            kept@ == without_id(before_removal.take(i as int), card_id@),
        decreases before_removal.len() - i,
    {
        proof {
            assert(before_removal.take(i + 1).drop_last() =~= before_removal.take(i as int));
            assert(before_removal.take(i + 1).last() == before_removal[i as int]);
            reveal_with_fuel(Seq::<_>::filter, 1);
        }
        if hand[i].id != *card_id {
            kept.push(hand[i].clone());
        }
        i = i + 1;
    }
    proof {
        assert(before_removal.take(before_removal.len() as int) =~= before_removal);
    }
    *hand = kept;
}

/// The tribute exchange a round starts with, given the dealt hands and the previous
/// result: none when the previous result has no finisher (an internal error); a double
/// tribute from the two double-last seats unless they hold both big jokers; otherwise a
/// single tribute from the last finisher to the first, unless the last finisher holds
/// both big jokers (a previous result without a fourth finisher is an internal error).
pub open spec fn tribute_refused(hands: [Vec<Card>; 4], result: RoundResult) -> bool {
    if result.double_last_seats@.len() == 2 {
        big_jokers(hands[result.double_last_seats@[0]@]@) + big_jokers(hands[result.double_last_seats@[1]@]@) == 2
    } else {
        big_jokers(hands[result.finish_order@[3]@]@) == 2
    }
}

/// The tribute state opened for the previous result (when not refused).
pub open spec fn opened_tribute(t: TributeState, result: RoundResult) -> bool {
    let first = result.finish_order@[0];
    &&& t.stage == TributeStage::Giving
    &&& t.previous_first == first
    &&& seat_card_entries(t.contributions).len() == 0
    &&& seat_card_entries(t.returns).len() == 0
    &&& if result.double_last_seats@.len() == 2 {
        &&& t.kind == TributeKind::Double
        &&& t.previous_second == Some(seat_at((first@ + 2) % 4))
        &&& t.givers@ == result.double_last_seats@
        &&& seat_seat_entries(t.receiver_for_giver).len() == 0
        &&& t.leader_seat is None
    } else {
        let last = result.finish_order@[3];
        &&& t.kind == TributeKind::Single
        &&& t.previous_second is None
        &&& t.givers@ == seq![last]
        &&& seat_seat_entries(t.receiver_for_giver) == seq![(last, first)]
        &&& t.leader_seat == Some(last)
    }
}

/// Whether the previous result lacks the finishers that opening a tribute reads.
pub open spec fn result_incomplete(result: RoundResult) -> bool {
    result.finish_order@.len() == 0 || (result.double_last_seats@.len() != 2 && result.finish_order@.len() < 4)
}

/// Opens the tribute exchange that follows the previous result: a double tribute from
/// the two last seats when partners finished first and second, else a single tribute
/// from the last seat to the first finisher. It is refused (`None`) when the givers
/// hold both big jokers between them.
pub fn create_tribute_state(hands: &[Vec<Card>; 4], previous_result: &RoundResult) -> (r: Result<Option<TributeState>, RuleError>)
    ensures
        r is Err <==> result_incomplete(*previous_result),
        r matches Err(e) ==> e.code@ == "INTERNAL_ERROR"@,
        r matches Ok(t) ==> (t is None <==> tribute_refused(*hands, *previous_result)),
        r matches Ok(Some(t)) ==> opened_tribute(t, *previous_result),
{
    if previous_result.finish_order.len() == 0 {
        return Err(RuleError::internal("Previous round has no first finisher"));
    }
    let previous_first = previous_result.finish_order[0];
    if previous_result.double_last_seats.len() == 2 {
        let givers = previous_result.double_last_seats.clone();
        let a = count_big_jokers(&hands[givers[0].index()]);
        let b = count_big_jokers(&hands[givers[1].index()]);
        if b <= 2 && a == 2 - b {
            return Ok(None);
        }
        return Ok(
            Some(
                TributeState {
                    kind: TributeKind::Double,
                    stage: TributeStage::Giving,
                    previous_first,
                    previous_second: Some(previous_first.partner()),
                    givers,
                    contributions: seat_card_map_new(),
                    receiver_for_giver: seat_seat_map_new(),
                    returns: seat_card_map_new(),
                    leader_seat: None,
                },
            ),
        );
    }
    if previous_result.finish_order.len() < 4 {
        return Err(RuleError::internal("Previous round has no last finisher"));
    }
    let previous_last = previous_result.finish_order[3];
    if count_big_jokers(&hands[previous_last.index()]) == 2 {
        return Ok(None);
    }
    let mut receivers = seat_seat_map_new();
    seat_seat_map_insert(&mut receivers, previous_last, previous_first);
    proof {
        assert(insert_entry(Seq::<(Seat, Seat)>::empty(), previous_last, previous_first) =~= seq![(previous_last, previous_first)]);
    }
    let mut givers: Vec<Seat> = Vec::new();
    givers.push(previous_last);
    proof {
        assert(givers@ =~= seq![previous_last]);
    }
    Ok(
        Some(
            TributeState {
                kind: TributeKind::Single,
                stage: TributeStage::Giving,
                previous_first,
                previous_second: None,
                givers,
                contributions: seat_card_map_new(),
                receiver_for_giver: receivers,
                returns: seat_card_map_new(),
                leader_seat: Some(previous_last),
            },
        ),
    )
}

/// `rand::random_range(0..upper)`: an index below `upper` drawn from the thread-local
/// generator; an empty range panics, hence `upper > 0`.
#[verifier::external_body]
pub(crate) fn random_below(upper: usize) -> (r: usize)
    requires
        upper > 0,
    ensures
        r < upper,
{
    rand::random_range(0..upper)
}

/// The four seats, in order.
fn all_seat_set() -> (s: IndexSet<Seat>)
    ensures
        seat_set_entries(s) == seq![seat_at(0), seat_at(1), seat_at(2), seat_at(3)],
{
    let seats = Seat::all();
    let mut s = seat_set_new();
    seat_set_insert(&mut s, seats[0]);
    seat_set_insert(&mut s, seats[1]);
    seat_set_insert(&mut s, seats[2]);
    seat_set_insert(&mut s, seats[3]);
    assert(seat_set_entries(s) =~= seq![seat_at(0), seat_at(1), seat_at(2), seat_at(3)]);
    s
}

/// The hands are a deal of some Fisher-Yates shuffle of the two decks.
pub open spec fn dealt_from_shuffled_deck(hands: [Vec<Card>; 4]) -> bool {
    exists|deck: Seq<Card>, picks: Seq<usize>|
        #![trigger fisher_yates(deck, picks)]
        {
            &&& deck.len() == 108
            &&& (forall|i: int| 0 <= i < 108 ==> is_deck_card(#[trigger] deck[i], i))
            &&& picks.len() == 107
            &&& valid_picks(108, picks)
            &&& forall|h: int, i: int|
                0 <= h < 4 && 0 <= i < 27 ==> (#[trigger] hands[h]@[i]) == fisher_yates(deck, picks)[4 * i + h]
        }
}

/// The hands are a deal of a Fisher-Yates shuffle of the two decks whose swap positions
/// are answers of `f` to the shuffle's draws.
pub open spec fn dealt_with_draws<F: FnMut(usize) -> usize>(f: F, hands: [Vec<Card>; 4]) -> bool {
    exists|deck: Seq<Card>, picks: Seq<usize>|
        #![trigger fisher_yates(deck, picks)]
        {
            &&& deck.len() == 108
            &&& (forall|i: int| 0 <= i < 108 ==> is_deck_card(#[trigger] deck[i], i))
            &&& picks.len() == 107
            &&& valid_picks(108, picks)
            &&& drawn_by(f, 108, picks)
            &&& forall|h: int, i: int|
                0 <= h < 4 && 0 <= i < 27 ==> (#[trigger] hands[h]@[i]) == fisher_yates(deck, picks)[4 * i + h]
        }
}

/// The state of a freshly dealt round under the options.
pub open spec fn fresh_round(round: RoundState, options: CreateRoundOptions) -> bool {
    &&& round.number == options.number
    &&& round.level_rank == options.level_rank
    &&& round.level_owner_team == options.level_owner_team
    &&& forall|h: int| 0 <= h < 4 ==> (#[trigger] round.hands[h]@).len() == 27
    &&& dealt_from_shuffled_deck(round.hands)
    &&& active(round) == seq![seat_at(0), seat_at(1), seat_at(2), seat_at(3)]
    &&& round.current_play is None
    &&& round.consecutive_passes == 0
    &&& round.finish_order@.len() == 0
    &&& match options.previous_result {
        None => round.tribute is None && round.phase == RoundPhase::Playing,
        Some(result) => {
            &&& round.turn_seat == result.finish_order@[0]
            &&& (round.tribute is None <==> tribute_refused(round.hands, result))
            &&& (round.tribute matches Some(t) ==> opened_tribute(t, result))
            &&& round.phase == if round.tribute is Some {
                RoundPhase::Tribute
            } else {
                RoundPhase::Playing
            }
        },
    }
}

/// Deals a new round, drawing each random index from `random_index`: first the 107
/// shuffle draws, then one draw below 4 for the leader of a first round. A following
/// round is led by the previous first finisher and opens the tribute exchange unless it
/// is refused. A draw out of range, or a previous result lacking the finishers that
/// the tribute reads, is an internal error.
pub fn create_round_with_random<F>(options: CreateRoundOptions, random_index: &mut F) -> (r: Result<RoundState, RuleError>)
    where
        F: FnMut(usize) -> usize,
    requires
        forall|n: usize| n > 0 ==> call_requires(*old(random_index), (n,)),
    ensures
        r matches Ok(round) ==> fresh_round(round, options),
        r matches Ok(round) ==> options.previous_result is None ==> round.turn_seat@ < 4,
        options.previous_result matches Some(result) && result_incomplete(result) ==> r is Err,
        r matches Err(e) ==> e.code@ == "INTERNAL_ERROR"@,
        draws_in_range(*old(random_index), 108) && !(options.previous_result matches Some(result)
            && result_incomplete(result)) ==> r is Ok,
        r matches Ok(round) ==> dealt_with_draws(*old(random_index), round.hands),
        r matches Ok(round) ==> (options.previous_result is None ==> call_ensures(
            *old(random_index),
            (4usize,),
            round.turn_seat@ as usize,
        )),
{
    let deck = create_deck();
    let shuffled = match shuffle_for_round(deck.as_slice(), random_index) {
        Ok(s) => s,
        Err(e) => {
            return Err(e);
        },
    };
    let hands = match deal_cards(shuffled.as_slice()) {
        Ok(h) => h,
        Err(e) => {
            return Err(e);
        },
    };
    let leader_index = random_index(4);
    let random_leader = if leader_index < 4 {
        Seat::new(leader_index as u8)
    } else {
        None
    };
    let random_leader = match random_leader {
        Some(s) => s,
        None => {
            return Err(RuleError::internal("Invalid random leader index"));
        },
    };
    let tribute = match &options.previous_result {
        Some(result) => match create_tribute_state(&hands, result) {
            Ok(t) => t,
            Err(e) => {
                return Err(e);
            },
        },
        None => None,
    };
    let initial_turn = match &options.previous_result {
        Some(result) => if result.finish_order.len() > 0 {
            result.finish_order[0]
        } else {
            random_leader
        },
        None => random_leader,
    };
    let phase = if tribute.is_some() {
        RoundPhase::Tribute
    } else {
        RoundPhase::Playing
    };
    let round = RoundState {
        number: options.number,
        level_rank: options.level_rank,
        level_owner_team: options.level_owner_team,
        phase,
        hands,
        active_seats: all_seat_set(),
        turn_seat: initial_turn,
        current_play: None,
        consecutive_passes: 0,
        finish_order: Vec::new(),
        tribute,
    };
    proof {
        let deck_s = deck@;
        let picks = choose|picks: Seq<usize>|
            #![trigger fisher_yates(deck_s, picks)]
            {
                &&& picks.len() == 107
                &&& valid_picks(108, picks)
                &&& drawn_by(*old(random_index), 108, picks)
                &&& shuffled@ == fisher_yates(deck_s, picks)
            };
        assert(dealt_from_shuffled_deck(round.hands));
        assert(dealt_with_draws(*old(random_index), round.hands));
    }
    Ok(round)
}

fn shuffle_for_round<F>(deck: &[Card], random_index: &mut F) -> (r: Result<Vec<Card>, RuleError>)
    where
        F: FnMut(usize) -> usize,
    requires
        forall|n: usize| n > 0 ==> call_requires(*old(random_index), (n,)),
        deck@.len() == 108,
    ensures
        r is Ok ==> exists|picks: Seq<usize>|
            #![trigger fisher_yates(deck@, picks)]
            {
                &&& picks.len() == 107
                &&& valid_picks(108, picks)
                &&& drawn_by(*old(random_index), 108, picks)
                &&& r->Ok_0@ == fisher_yates(deck@, picks)
            },
        forall|n: usize| n > 0 ==> call_requires(*final(random_index), (n,)),
        r matches Err(e) ==> e.code@ == "INTERNAL_ERROR"@,
        draws_in_range(*old(random_index), 108) ==> r is Ok,
        *final(random_index) == *old(random_index),
        r matches Ok(v) ==> v@.len() == 108,
{
    let r = shuffle_cards_with(deck, random_index);
    proof {
        if r is Ok {
            vstd::seq_lib::to_multiset_len(r->Ok_0@);
            vstd::seq_lib::to_multiset_len(deck@);
        }
    }
    r
}

/// Deals a new round with the thread-local random generator.
pub fn create_round(options: CreateRoundOptions) -> (r: Result<RoundState, RuleError>)
    ensures
        r matches Ok(round) ==> fresh_round(round, options),
        r is Err <==> (options.previous_result matches Some(result) && result_incomplete(result)),
        r matches Err(e) ==> e.code@ == "INTERNAL_ERROR"@,
{
    let mut draw = |upper: usize| -> (r: usize)
        requires
            upper > 0,
        ensures
            r < upper,
        { random_below(upper) };
    create_round_with_random(options, &mut draw)
}

} // verus!

verus! {

/// The four hands as sequences.
pub open spec fn hands_view(round: RoundState) -> Seq<Seq<Card>> {
    seq![round.hands[0]@, round.hands[1]@, round.hands[2]@, round.hands[3]@]
}

/// Every field but the hands and the tribute is the same.
pub open spec fn same_table(a: RoundState, b: RoundState) -> bool {
    &&& a.number == b.number
    &&& a.level_rank == b.level_rank
    &&& a.level_owner_team == b.level_owner_team
    &&& a.phase == b.phase
    &&& active(a) == active(b)
    &&& a.turn_seat == b.turn_seat
    &&& a.current_play == b.current_play
    &&& a.consecutive_passes == b.consecutive_passes
    &&& a.finish_order@ == b.finish_order@
}

/// `nt` is `t` with the given stage, maps and leader.
pub open spec fn tribute_is(
    nt: TributeState,
    t: TributeState,
    stage: TributeStage,
    contributions: Seq<(Seat, Card)>,
    receivers: Seq<(Seat, Seat)>,
    given_back: Seq<(Seat, Card)>,
    leader: Option<Seat>,
) -> bool {
    &&& nt.kind == t.kind
    &&& nt.previous_first == t.previous_first
    &&& nt.previous_second == t.previous_second
    &&& nt.givers@ == t.givers@
    &&& nt.stage == stage
    &&& tribute_maps(nt) == (contributions, receivers, given_back)
    &&& nt.leader_seat == leader
}

/// The hands after moving `card` from hand `from` to the end of hand `to`.
pub open spec fn move_card(hs: Seq<Seq<Card>>, from: int, to: int, card: Card) -> Seq<Seq<Card>> {
    let h1 = hs.update(from, without_id(hs[from], card.id@));
    h1.update(to, h1[to].push(card))
}

/// The hands after each move in turn.
pub open spec fn apply_moves(hs: Seq<Seq<Card>>, moves: Seq<(int, int, Card)>) -> Seq<Seq<Card>>
    decreases moves.len(),
{
    if moves.len() == 0 {
        hs
    } else {
        let m = moves.last();
        move_card(apply_moves(hs, moves.drop_last()), m.0, m.1, m.2)
    }
}

/// Clockwise distance used to break a tie between two equal tributes.
pub open spec fn clockwise(from: Seat, to: Seat) -> int {
    (from@ + 4 - to@) % 4
}

/// Receivers and leader after all contributions: unchanged for a single tribute; for a
/// double tribute the higher tribute (ties broken by clockwise distance from the
/// previous first finisher) goes to the previous first finisher, whose giver leads, and
/// the lower to the previous second. `None` when a double tribute is incomplete.
pub open spec fn finalize_plan(t: TributeState, c: Seq<(Seat, Card)>, level_rank: OrdinaryRank) -> Option<(Seq<(Seat, Seat)>, Option<Seat>)> {
    let recv = seat_seat_entries(t.receiver_for_giver);
    if t.kind == TributeKind::Double {
        if t.givers@.len() < 2 {
            None
        } else {
            let g1 = t.givers@[0];
            let g2 = t.givers@[1];
            match (lookup(c, g1), lookup(c, g2), t.previous_second) {
                (Some(c1), Some(c2), Some(second)) => {
                    let s1 = strength(c1.rank, level_rank);
                    let s2 = strength(c2.rank, level_rank);
                    let first_wins = s1 > s2 || (s1 == s2 && clockwise(t.previous_first, g1) <= clockwise(t.previous_first, g2));
                    let higher = if first_wins { g1 } else { g2 };
                    let lower = if first_wins { g2 } else { g1 };
                    Some((insert_entry(insert_entry(recv, higher, t.previous_first), lower, second), Some(higher)))
                },
                _ => None,
            }
        }
    } else {
        Some((recv, t.leader_seat))
    }
}

/// Every giver has a receiver.
pub open spec fn all_received(c: Seq<(Seat, Card)>, recv: Seq<(Seat, Seat)>) -> bool {
    forall|i: int| 0 <= i < c.len() ==> has_key(recv, #[trigger] c[i].0)
}

/// Each contribution moves from its giver to its receiver, in contribution order.
pub open spec fn gift_moves(c: Seq<(Seat, Card)>, recv: Seq<(Seat, Seat)>) -> Seq<(int, int, Card)> {
    Seq::new(c.len(), |i: int| (c[i].0@, lookup(recv, c[i].0)->0@, c[i].1))
}

/// The round after settling the contributions `c` of tribute `t`, and whether that
/// succeeded.
pub open spec fn finalized(old: RoundState, t: TributeState, c: Seq<(Seat, Card)>, new: RoundState, ok: bool) -> bool {
    &&& same_table(old, new)
    &&& new.tribute is Some
    &&& match finalize_plan(t, c, old.level_rank) {
        None => {
            &&& !ok
            &&& new.hands == old.hands
            &&& tribute_is(new.tribute->0, t, t.stage, c, seat_seat_entries(t.receiver_for_giver), seat_card_entries(t.returns), t.leader_seat)
        },
        Some((recv, leader)) => if all_received(c, recv) {
            &&& ok
            &&& hands_view(new) == apply_moves(hands_view(old), gift_moves(c, recv))
            &&& tribute_is(new.tribute->0, t, TributeStage::Returning, c, recv, seat_card_entries(t.returns), leader)
        } else {
            &&& !ok
            &&& new.hands == old.hands
            &&& tribute_is(new.tribute->0, t, t.stage, c, recv, seat_card_entries(t.returns), leader)
        },
    }
}

fn clockwise_distance(from: Seat, to: Seat) -> (d: u8)
    ensures
        d == clockwise(from, to),
{
    (from.value() + 4 - to.value()) % 4
}

proof fn lemma_apply_moves_len(hs: Seq<Seq<Card>>, moves: Seq<(int, int, Card)>)
    requires
        hs.len() == 4,
        forall|i: int| 0 <= i < moves.len() ==> 0 <= (#[trigger] moves[i]).0 < 4 && 0 <= moves[i].1 < 4,
    ensures
        apply_moves(hs, moves).len() == 4,
    decreases moves.len(),
{
    if moves.len() > 0 {
        lemma_apply_moves_len(hs, moves.drop_last());
    }
}

fn move_between_hands(hands: &mut [Vec<Card>; 4], from: Seat, to: Seat, card: Card)
    ensures
        seq![final(hands)[0]@, final(hands)[1]@, final(hands)[2]@, final(hands)[3]@] == move_card(
            seq![old(hands)[0]@, old(hands)[1]@, old(hands)[2]@, old(hands)[3]@],
            from@,
            to@,
            card,
        ),
{
    let f = from.index();
    let t = to.index();
    remove_one_card(&mut hands[f], &card.id);
    hands[t].push(card);
    assert(seq![hands[0]@, hands[1]@, hands[2]@, hands[3]@] =~= move_card(
        seq![old(hands)[0]@, old(hands)[1]@, old(hands)[2]@, old(hands)[3]@],
        from@,
        to@,
        card,
    ));
}

#[verifier::loop_isolation(false)]
fn finalize_contributions(round: &mut RoundState) -> (r: Result<(), RuleError>)
    requires
        old(round).tribute is Some,
    ensures
        finalized(
            *old(round),
            old(round).tribute->0,
            seat_card_entries(old(round).tribute->0.contributions),
            *final(round),
            r is Ok,
        ),
        r matches Err(e) ==> e.code@ == "INTERNAL_ERROR"@,
{
    let ghost old_round = *round;
    let mut tribute = round.tribute.take().unwrap();
    let ghost t = tribute;
    let ghost c = seat_card_entries(tribute.contributions);
    if tribute.kind == TributeKind::Double {
        if tribute.givers.len() < 2 {
            round.tribute = Some(tribute);
            return Err(RuleError::internal("Incomplete double tribute"));
        }
        let first_giver = tribute.givers[0];
        let second_giver = tribute.givers[1];
        let first_card = seat_card_map_get(&tribute.contributions, first_giver);
        let second_card = seat_card_map_get(&tribute.contributions, second_giver);
        let (first_card, second_card, previous_second) = match (first_card, second_card, tribute.previous_second) {
            (Some(a), Some(b), Some(p)) => (a, b, p),
            _ => {
                round.tribute = Some(tribute);
                return Err(RuleError::internal("Incomplete double tribute"));
            },
        };
        let first_strength = card_rank_strength(first_card.rank, round.level_rank);
        let second_strength = card_rank_strength(second_card.rank, round.level_rank);
        let first_wins = first_strength > second_strength || (first_strength == second_strength
            && clockwise_distance(tribute.previous_first, first_giver) <= clockwise_distance(
            tribute.previous_first,
            second_giver,
        ));
        let (higher_giver, lower_giver) = if first_wins {
            (first_giver, second_giver)
        } else {
            (second_giver, first_giver)
        };
        seat_seat_map_insert(&mut tribute.receiver_for_giver, higher_giver, tribute.previous_first);
        seat_seat_map_insert(&mut tribute.receiver_for_giver, lower_giver, previous_second);
        tribute.leader_seat = Some(higher_giver);
    }
    let ghost recv = seat_seat_entries(tribute.receiver_for_giver);
    assert(finalize_plan(t, c, old_round.level_rank) == Some((recv, tribute.leader_seat)));
    let contributions = seat_card_map_to_vec(&tribute.contributions);
    let mut transfers: Vec<(Seat, Seat, Card)> = Vec::new();
    let mut i: usize = 0;
    while i < contributions.len()
        invariant
            contributions@ == c,
            recv == seat_seat_entries(tribute.receiver_for_giver),
            round.hands == old_round.hands,
            same_table(old_round, *round),
            i <= c.len(),
            transfers@.len() == i,
            forall|j: int| 0 <= j < i ==> has_key(recv, #[trigger] c[j].0),
            forall|j: int|
                0 <= j < i ==> (#[trigger] transfers@[j]).0 == c[j].0 && transfers@[j].2 == c[j].1
                    && Some(transfers@[j].1) == lookup(recv, c[j].0),
        decreases c.len() - i,
    {
        let giver = contributions[i].0;
        let card = contributions[i].1.clone();
        match seat_seat_map_get(&tribute.receiver_for_giver, giver) {
            Some(receiver) => {
                transfers.push((giver, receiver, card));
            },
            None => {
                proof {
                    assert(!has_key(recv, c[i as int].0));
                    assert(!all_received(c, recv));
                }
                round.tribute = Some(tribute);

                return Err(RuleError::internal("Tribute receiver was not assigned"));
            },
        }
        i = i + 1;
    }
    let ghost moves = gift_moves(c, recv);
    let mut k: usize = 0;
    assert(moves.take(0) =~= Seq::<(int, int, Card)>::empty());

    while k < transfers.len()
        invariant
            k <= transfers@.len(),
            transfers@.len() == c.len(),
            moves == gift_moves(c, recv),
            forall|j: int|
                0 <= j < c.len() ==> (#[trigger] transfers@[j]).0 == c[j].0 && transfers@[j].2 == c[j].1
                    && Some(transfers@[j].1) == lookup(recv, c[j].0),
            hands_view(*round) == apply_moves(hands_view(old_round), moves.take(k as int)),
            same_table(old_round, *round),
        decreases transfers@.len() - k,
    {
        let giver = transfers[k].0;
        let receiver = transfers[k].1;
        let card = transfers[k].2.clone();
        proof {
            assert(moves.take(k + 1).drop_last() =~= moves.take(k as int));
            assert(moves.take(k + 1).last() == (giver@, receiver@, card));
        }
        move_between_hands(&mut round.hands, giver, receiver, card);
        k = k + 1;
    }
    proof {
        assert(moves.take(transfers@.len() as int) =~= moves);
    }
    tribute.stage = TributeStage::Returning;
    round.tribute = Some(tribute);
    Ok(())
}

} // verus!

verus! {

/// The code of a turn check: the round must be in the expected phase, and while
/// playing it must be the seat's turn.
pub open spec fn turn_rejection(round: RoundState, seat: Seat, expected: RoundPhase) -> Option<Seq<char>> {
    if round.phase != expected {
        Some("INVALID_PHASE"@)
    } else if expected == RoundPhase::Playing && round.turn_seat != seat {
        Some("NOT_YOUR_TURN"@)
    } else {
        None
    }
}

fn validate_turn(round: &RoundState, seat: Seat, expected_phase: RoundPhase) -> (r: Result<(), RuleError>)
    ensures
        r is Err <==> turn_rejection(*round, seat, expected_phase) is Some,
        r matches Err(e) ==> Some(e.code@) == turn_rejection(*round, seat, expected_phase),
{
    if round.phase != expected_phase {
        let mut message = String::from_str("当前轮牌不处于 ");
        match expected_phase {
            RoundPhase::Tribute => message.append("tribute"),
            RoundPhase::Playing => message.append("playing"),
        }
        message.append(" 阶段");
        return Err(RuleError::new("INVALID_PHASE", message.as_str()));
    }
    if expected_phase == RoundPhase::Playing && round.turn_seat != seat {
        return Err(RuleError::new("NOT_YOUR_TURN", "尚未轮到该玩家行动"));
    }
    Ok(())
}

/// Highest strength among the cards that are not wildcards, if any.
pub open spec fn max_tribute_strength(hand: Seq<Card>, level_rank: OrdinaryRank) -> Option<int>
    decreases hand.len(),
{
    if hand.len() == 0 {
        None
    } else {
        let rest = max_tribute_strength(hand.drop_last(), level_rank);
        if wildcard(hand.last(), level_rank) {
            rest
        } else {
            let s = strength(hand.last().rank, level_rank);
            match rest {
                Some(m) => Some(if m >= s { m } else { s }),
                None => Some(s),
            }
        }
    }
}

/// A tribute must be as strong as the strongest card of the hand that is not a wildcard.
pub open spec fn is_maximum_tribute(hand: Seq<Card>, selected: Card, level_rank: OrdinaryRank) -> bool {
    max_tribute_strength(hand, level_rank) == Some(strength(selected.rank, level_rank))
}

fn is_maximum_tribute_card(hand: &Vec<Card>, selected: &Card, level_rank: OrdinaryRank) -> (b: bool)
    ensures
        b == is_maximum_tribute(hand@, *selected, level_rank),
{
    let mut maximum: Option<u8> = None;
    let mut i: usize = 0;
    while i < hand.len()
        invariant
            i <= hand@.len(),
            match (maximum, max_tribute_strength(hand@.take(i as int), level_rank)) {
                (Some(a), Some(b)) => a == b,
                (None, None) => true,
                _ => false,
            },
        decreases hand@.len() - i,
    {
        proof {
            assert(hand@.take(i + 1).drop_last() =~= hand@.take(i as int));
            assert(hand@.take(i + 1).last() == hand@[i as int]);
        }
        if !is_wildcard(&hand[i], level_rank) {
            let s = card_rank_strength(hand[i].rank, level_rank);
            maximum = match maximum {
                Some(m) => Some(if m >= s { m } else { s }),
                None => Some(s),
            };
        }
        i = i + 1;
    }
    proof {
        assert(hand@.take(hand@.len() as int) =~= hand@);
    }
    match maximum {
        Some(m) => card_rank_strength(selected.rank, level_rank) == m,
        None => false,
    }
}

/// Whether the seat appears among the receivers.
pub open spec fn is_receiver(recv: Seq<(Seat, Seat)>, seat: Seat) -> bool {
    exists|i: int| 0 <= i < recv.len() && #[trigger] recv[i].1 == seat
}

/// The code that refuses a tribute, in the order of the checks, or `None`.
pub open spec fn tribute_rejection(round: RoundState, seat: Seat, card_id: Seq<char>) -> Option<Seq<char>> {
    if turn_rejection(round, seat, RoundPhase::Tribute) is Some {
        turn_rejection(round, seat, RoundPhase::Tribute)
    } else if !(round.tribute matches Some(t) && t.stage == TributeStage::Giving) {
        Some("INVALID_TRIBUTE_STAGE"@)
    } else if !round.tribute->0.givers@.contains(seat) {
        Some("NOT_TRIBUTE_GIVER"@)
    } else if has_key(seat_card_entries(round.tribute->0.contributions), seat) {
        Some("TRIBUTE_ALREADY_GIVEN"@)
    } else if card_in_hand(hand_of(round, seat), card_id) is None {
        Some("CARD_NOT_OWNED"@)
    } else if wildcard(card_in_hand(hand_of(round, seat), card_id)->0, round.level_rank) {
        Some("WILDCARD_CANNOT_BE_TRIBUTE"@)
    } else if !is_maximum_tribute(hand_of(round, seat), card_in_hand(hand_of(round, seat), card_id)->0, round.level_rank) {
        Some("TRIBUTE_NOT_MAXIMUM"@)
    } else {
        None
    }
}

fn seat_listed(seats: &Vec<Seat>, seat: Seat) -> (b: bool)
    ensures
        b == seats@.contains(seat),
{
    let mut i: usize = 0;
    while i < seats.len()
        invariant
            i <= seats@.len(),
            forall|j: int| 0 <= j < i ==> seats@[j] != seat,
        decreases seats@.len() - i,
    {
        if seats[i] == seat {
            return true;
        }
        i = i + 1;
    }
    false
}

/// The effect of `tribute` on the round, and its result.
pub open spec fn tribute_effect(old: RoundState, seat: Seat, card_id: Seq<char>, new: RoundState, r: Result<(), RuleError>) -> bool {
    &&& (tribute_rejection(old, seat, card_id) matches Some(code) ==> r matches Err(e) && e.code@ == code
            && new == old)
    &&& (tribute_rejection(old, seat, card_id) is None ==> {
            let t = old.tribute->0;
            let card = card_in_hand(hand_of(old, seat), card_id)->0;
            let c = insert_entry(seat_card_entries(t.contributions), seat, card);
            if c.len() == t.givers@.len() {
                &&& finalized(old, t, c, new, r is Ok)
                &&& r matches Err(e) ==> e.code@ == "INTERNAL_ERROR"@
            } else {
                &&& r is Ok
                &&& same_table(old, new)
                &&& new.hands == old.hands
                &&& new.tribute is Some
                &&& tribute_is(
                    new.tribute->0,
                    t,
                    t.stage,
                    c,
                    seat_seat_entries(t.receiver_for_giver),
                    seat_card_entries(t.returns),
                    t.leader_seat,
                )
            }
        })
}

/// Gives the seat's tribute card. The card must be in the seat's hand, must not be a
/// wildcard and must be as strong as its strongest non-wildcard card. Once every giver
/// has given, the cards move to their receivers and the return stage begins.
pub fn submit_tribute(round: &mut RoundState, seat: Seat, card_id: &str) -> (r: Result<(), RuleError>)
    ensures
        tribute_effect(*old(round), seat, card_id@, *final(round), r),

{
    let card_id = card_id.to_owned();
    match validate_turn(round, seat, RoundPhase::Tribute) {
        Ok(()) => {},
        Err(e) => {
            return Err(e);
        },
    }
    let giving = match &round.tribute {
        Some(t) => t.stage == TributeStage::Giving,
        None => false,
    };
    if !giving {
        return Err(RuleError::new("INVALID_TRIBUTE_STAGE", "当前不接受贡牌"));
    }
    let is_giver = match &round.tribute {
        Some(t) => seat_listed(&t.givers, seat),
        None => false,
    };
    if !is_giver {
        return Err(RuleError::new("NOT_TRIBUTE_GIVER", "该玩家无需贡牌"));
    }
    let already = match &round.tribute {
        Some(t) => seat_card_map_contains(&t.contributions, seat),
        None => false,
    };
    if already {
        return Err(RuleError::new("TRIBUTE_ALREADY_GIVEN", "该玩家已经贡牌"));
    }
    let card = match card_from_hand(round, seat, &card_id) {
        Ok(c) => c,
        Err(e) => {
            return Err(e);
        },
    };
    if is_wildcard(&card, round.level_rank) {
        return Err(RuleError::new("WILDCARD_CANNOT_BE_TRIBUTE", "红桃级牌不能用于进贡"));
    }
    if !is_maximum_tribute_card(&round.hands[seat.index()], &card, round.level_rank) {
        return Err(RuleError::new("TRIBUTE_NOT_MAXIMUM", "必须进贡手中最大的合资格牌"));
    }
    let ghost old_round = *round;
    let mut tribute = round.tribute.take().unwrap();
    seat_card_map_insert(&mut tribute.contributions, seat, card);
    let complete = seat_card_map_len(&tribute.contributions) == tribute.givers.len();
    round.tribute = Some(tribute);
    if complete {
        return finalize_contributions(round);
    }
    Ok(())
}

/// A low card is an ordinary card of natural value at most ten.
pub open spec fn low_card(card: Card) -> bool {
    card.suit != Suit::Joker && ordinary_of(card.rank) is Some && rank_value(ordinary_of(card.rank)->0) <= 10
}

/// Lowest strength in the hand, if any.
pub open spec fn min_strength(hand: Seq<Card>, level_rank: OrdinaryRank) -> Option<int>
    decreases hand.len(),
{
    if hand.len() == 0 {
        None
    } else {
        let s = strength(hand.last().rank, level_rank);
        match min_strength(hand.drop_last(), level_rank) {
            Some(m) => Some(if m <= s { m } else { s }),
            None => Some(s),
        }
    }
}

/// A return card must be low when the hand holds a low card; otherwise it must be one
/// of the weakest cards of the hand.
pub open spec fn returnable(hand: Seq<Card>, selected: Card, level_rank: OrdinaryRank) -> bool {
    if exists|i: int| 0 <= i < hand.len() && low_card(#[trigger] hand[i]) {
        low_card(selected)
    } else {
        min_strength(hand, level_rank) == Some(strength(selected.rank, level_rank))
    }
}

fn is_low_card(card: &Card) -> (b: bool)
    ensures
        b == low_card(*card),
{
    card.suit != Suit::Joker && match card.rank.as_ordinary() {
        Some(rank) => ordinary_rank_value(rank) <= 10,
        None => false,
    }
}

/// Whether the selected card may be given back from the hand.
pub fn can_return_card(hand: &[Card], selected: &Card, level_rank: OrdinaryRank) -> (b: bool)
    ensures
        b == returnable(hand@, *selected, level_rank),
{
    let mut i: usize = 0;
    while i < hand.len()
        invariant
            i <= hand@.len(),
            forall|j: int| 0 <= j < i ==> !low_card(#[trigger] hand@[j]),
        decreases hand@.len() - i,
    {
        if is_low_card(&hand[i]) {
            return is_low_card(selected);
        }
        i = i + 1;
    }
    let mut minimum: Option<u8> = None;
    let mut k: usize = 0;
    while k < hand.len()
        invariant
            k <= hand@.len(),
            match (minimum, min_strength(hand@.take(k as int), level_rank)) {
                (Some(a), Some(b)) => a == b,
                (None, None) => true,
                _ => false,
            },
        decreases hand@.len() - k,
    {
        proof {
            assert(hand@.take(k + 1).drop_last() =~= hand@.take(k as int));
            assert(hand@.take(k + 1).last() == hand@[k as int]);
        }
        let s = card_rank_strength(hand[k].rank, level_rank);
        minimum = match minimum {
            Some(m) => Some(if m <= s { m } else { s }),
            None => Some(s),
        };
        k = k + 1;
    }
    proof {
        assert(hand@.take(hand@.len() as int) =~= hand@);
    }
    match minimum {
        Some(m) => card_rank_strength(selected.rank, level_rank) == m,
        None => false,
    }
}

/// The code that refuses a return card, in the order of the checks, or `None`.
pub open spec fn return_rejection(round: RoundState, seat: Seat, card_id: Seq<char>) -> Option<Seq<char>> {
    if turn_rejection(round, seat, RoundPhase::Tribute) is Some {
        turn_rejection(round, seat, RoundPhase::Tribute)
    } else if !(round.tribute matches Some(t) && t.stage == TributeStage::Returning) {
        Some("INVALID_TRIBUTE_STAGE"@)
    } else if !is_receiver(seat_seat_entries(round.tribute->0.receiver_for_giver), seat) {
        Some("NOT_TRIBUTE_RECEIVER"@)
    } else if has_key(seat_card_entries(round.tribute->0.returns), seat) {
        Some("RETURN_ALREADY_GIVEN"@)
    } else if card_in_hand(hand_of(round, seat), card_id) is None {
        Some("CARD_NOT_OWNED"@)
    } else if !returnable(hand_of(round, seat), card_in_hand(hand_of(round, seat), card_id)->0, round.level_rank) {
        Some("INVALID_RETURN_CARD"@)
    } else {
        None
    }
}

/// Every receiver has given back a card.
pub open spec fn all_returned(recv: Seq<(Seat, Seat)>, ret: Seq<(Seat, Card)>) -> bool {
    forall|i: int| 0 <= i < recv.len() ==> has_key(ret, #[trigger] recv[i].1)
}

/// Each receiver's returned card moves back to its giver, in receiver order.
pub open spec fn return_moves(recv: Seq<(Seat, Seat)>, ret: Seq<(Seat, Card)>) -> Seq<(int, int, Card)> {
    Seq::new(recv.len(), |i: int| (recv[i].1@, recv[i].0@, lookup(ret, recv[i].1)->0))
}

fn is_receiver_of(receivers: &IndexMap<Seat, Seat>, seat: Seat) -> (b: bool)
    ensures
        b == is_receiver(seat_seat_entries(*receivers), seat),
{
    let entries = seat_seat_map_to_vec(receivers);
    let mut i: usize = 0;
    while i < entries.len()
        invariant
            entries@ == seat_seat_entries(*receivers),
            i <= entries@.len(),
            forall|j: int| 0 <= j < i ==> entries@[j].1 != seat,
        decreases entries@.len() - i,
    {
        if entries[i].1 == seat {
            return true;
        }
        i = i + 1;
    }
    false
}

/// The effect of `return` on the round, and its result.
pub open spec fn return_effect(old: RoundState, seat: Seat, card_id: Seq<char>, new: RoundState, r: Result<Option<TributeState>, RuleError>) -> bool {
    &&& (return_rejection(old, seat, card_id) matches Some(code) ==> r matches Err(e) && e.code@ == code
            && new == old)
    &&& (return_rejection(old, seat, card_id) is None ==> {
            let t = old.tribute->0;
            let card = card_in_hand(hand_of(old, seat), card_id)->0;
            let recv = seat_seat_entries(t.receiver_for_giver);
            let ret = insert_entry(seat_card_entries(t.returns), seat, card);
            if ret.len() != recv.len() {
                &&& r matches Ok(None)
                &&& same_table(old, new)
                &&& new.hands == old.hands
                &&& new.tribute is Some
                &&& tribute_is(new.tribute->0, t, t.stage, seat_card_entries(t.contributions), recv, ret, t.leader_seat)
            } else if all_returned(recv, ret) && t.leader_seat is Some {
                &&& r matches Ok(Some(done)) && tribute_is(done, t, t.stage, seat_card_entries(t.contributions), recv, ret, t.leader_seat)
                &&& hands_view(new) == apply_moves(hands_view(old), return_moves(recv, ret))
                &&& new.phase == RoundPhase::Playing
                &&& new.turn_seat == t.leader_seat->0
                &&& new.tribute is None
                &&& new.number == old.number
                &&& new.level_rank == old.level_rank
                &&& new.level_owner_team == old.level_owner_team
                &&& active(new) == active(old)
                &&& new.current_play == old.current_play
                &&& new.consecutive_passes == old.consecutive_passes
                &&& new.finish_order@ == old.finish_order@
            } else {
                &&& r matches Err(e) && e.code@ == "INTERNAL_ERROR"@
                &&& same_table(old, new)
                &&& new.hands == old.hands
                &&& new.tribute is Some
                &&& tribute_is(new.tribute->0, t, t.stage, seat_card_entries(t.contributions), recv, ret, t.leader_seat)
            }
        })
}

/// Gives back the seat's return card. The card must be in the seat's hand and be low
/// when the hand holds a low card, else one of its weakest cards. Once every receiver
/// has given back, the cards move to the givers, play starts with the tribute's leader,
/// and the completed tribute is returned.
#[verifier::loop_isolation(false)]
pub fn submit_return(round: &mut RoundState, seat: Seat, card_id: &str) -> (r: Result<Option<TributeState>, RuleError>)
    ensures
        return_effect(*old(round), seat, card_id@, *final(round), r),

{
    let card_id = card_id.to_owned();
    match validate_turn(round, seat, RoundPhase::Tribute) {
        Ok(()) => {},
        Err(e) => {
            return Err(e);
        },
    }
    let returning = match &round.tribute {
        Some(t) => t.stage == TributeStage::Returning,
        None => false,
    };
    if !returning {
        return Err(RuleError::new("INVALID_TRIBUTE_STAGE", "当前不接受还牌"));
    }
    let receiver = match &round.tribute {
        Some(t) => is_receiver_of(&t.receiver_for_giver, seat),
        None => false,
    };
    if !receiver {
        return Err(RuleError::new("NOT_TRIBUTE_RECEIVER", "该玩家无需还牌"));
    }
    let already = match &round.tribute {
        Some(t) => seat_card_map_contains(&t.returns, seat),
        None => false,
    };
    if already {
        return Err(RuleError::new("RETURN_ALREADY_GIVEN", "该玩家已经还牌"));
    }
    let card = match card_from_hand(round, seat, &card_id) {
        Ok(c) => c,
        Err(e) => {
            return Err(e);
        },
    };
    if !can_return_card(round.hands[seat.index()].as_slice(), &card, round.level_rank) {
        return Err(RuleError::new("INVALID_RETURN_CARD", "还牌必须不大于 10；若无此类牌则必须还最小牌"));
    }
    let ghost old_round = *round;
    let mut tribute = round.tribute.take().unwrap();
    let ghost t = tribute;
    seat_card_map_insert(&mut tribute.returns, seat, card);
    let ghost ret = seat_card_entries(tribute.returns);
    let ghost recv = seat_seat_entries(tribute.receiver_for_giver);
    if seat_card_map_len(&tribute.returns) != seat_seat_map_len(&tribute.receiver_for_giver) {
        round.tribute = Some(tribute);
        return Ok(None);
    }
    let receivers = seat_seat_map_to_vec(&tribute.receiver_for_giver);
    let mut transfers: Vec<(Seat, Seat, Card)> = Vec::new();
    let mut i: usize = 0;
    while i < receivers.len()
        invariant
            receivers@ == recv,
            ret == seat_card_entries(tribute.returns),
            recv == seat_seat_entries(tribute.receiver_for_giver),
            round.hands == old_round.hands,
            same_table(old_round, *round),
            round.tribute is None,
            i <= recv.len(),
            transfers@.len() == i,
            forall|j: int| 0 <= j < i ==> has_key(ret, #[trigger] recv[j].1),
            forall|j: int|
                0 <= j < i ==> (#[trigger] transfers@[j]).0 == recv[j].0 && transfers@[j].1 == recv[j].1
                    && Some(transfers@[j].2) == lookup(ret, recv[j].1),
        decreases recv.len() - i,
    {
        let giver = receivers[i].0;
        let receiver = receivers[i].1;
        match seat_card_map_get(&tribute.returns, receiver) {
            Some(returned) => {
                transfers.push((giver, receiver, returned));
            },
            None => {
                proof {
                    assert(!has_key(ret, recv[i as int].1));
                    assert(!all_returned(recv, ret));
                }
                round.tribute = Some(tribute);
                return Err(RuleError::internal("Missing return card"));
            },
        }
        i = i + 1;
    }
    let leader_seat = match tribute.leader_seat {
        Some(s) => s,
        None => {
            round.tribute = Some(tribute);
            return Err(RuleError::internal("Tribute leader was not assigned"));
        },
    };
    let completed = tribute.clone();
    let ghost moves = return_moves(recv, ret);
    let mut k: usize = 0;
    assert(moves.take(0) =~= Seq::<(int, int, Card)>::empty());
    while k < transfers.len()
        invariant
            k <= transfers@.len(),
            transfers@.len() == recv.len(),
            moves == return_moves(recv, ret),
            forall|j: int|
                0 <= j < recv.len() ==> (#[trigger] transfers@[j]).0 == recv[j].0 && transfers@[j].1 == recv[j].1
                    && Some(transfers@[j].2) == lookup(ret, recv[j].1),
            hands_view(*round) == apply_moves(hands_view(old_round), moves.take(k as int)),
            same_table(old_round, *round),
            round.tribute is None,
        decreases transfers@.len() - k,
    {
        let giver = transfers[k].0;
        let receiver = transfers[k].1;
        let returned = transfers[k].2.clone();
        proof {
            assert(moves.take(k + 1).drop_last() =~= moves.take(k as int));
            assert(moves.take(k + 1).last() == (receiver@, giver@, returned));
        }
        move_between_hands(&mut round.hands, receiver, giver, returned);
        k = k + 1;
    }
    proof {
        assert(moves.take(transfers@.len() as int) =~= moves);
    }
    round.phase = RoundPhase::Playing;
    round.turn_seat = leader_seat;
    round.tribute = None;
    Ok(Some(completed))
}

} // verus!

verus! {

/// Team number of a seat.
pub open spec fn team_of(s: Seat) -> int {
    s@ % 2
}

/// How the finish order and remaining seats settle a round: `None` while it goes on;
/// partners finishing first and second win with the other two double last; once three
/// have finished the last active seat completes the order and the partner's place is
/// 3 or 4. `Err(())` stands for an internal error.
pub open spec fn round_outcome(finish: Seq<Seat>, remaining: Seq<Seat>) -> Result<Option<(int, Seq<Seat>, Seq<Seat>, int)>, ()> {
    if finish.len() == 0 {
        Ok(None)
    } else if finish.len() >= 2 && team_of(finish[0]) == team_of(finish[1]) {
        Ok(Some((team_of(finish[0]), seq![finish[0], finish[1]], remaining, 2)))
    } else if finish.len() == 3 {
        if remaining.len() == 0 {
            Err(())
        } else {
            let order = finish.push(remaining[0]);
            let p = crate::indexed::elem_index(order, seat_at((finish[0]@ + 2) % 4));
            if p < 0 || !(p + 1 == 3 || p + 1 == 4) {
                Err(())
            } else {
                Ok(Some((team_of(finish[0]), order, Seq::empty(), p + 1)))
            }
        }
    } else {
        Ok(None)
    }
}

/// The result matches an outcome tuple.
pub open spec fn result_is(r: RoundResult, o: (int, Seq<Seat>, Seq<Seat>, int)) -> bool {
    r.winner_team@ == o.0 && r.finish_order@ == o.1 && r.double_last_seats@ == o.2 && r.partner_placement == o.3
}

fn position_of(seats: &Vec<Seat>, seat: Seat) -> (r: Option<usize>)
    ensures
        match r {
            Some(i) => i as int == crate::indexed::elem_index(seats@, seat) && i < seats@.len(),
            None => crate::indexed::elem_index(seats@, seat) < 0,
        },
{
    proof {
        lemma_elem_index(seats@, seat);
    }
    let mut i: usize = 0;
    while i < seats.len()
        invariant
            i <= seats@.len(),
            forall|j: int| 0 <= j < i ==> seats@[j] != seat,
            -1 <= crate::indexed::elem_index(seats@, seat) < seats@.len(),
            crate::indexed::elem_index(seats@, seat) >= 0 ==> seats@[crate::indexed::elem_index(seats@, seat)] == seat,
            crate::indexed::elem_index(seats@, seat) >= 0 ==> forall|j: int|
                0 <= j < crate::indexed::elem_index(seats@, seat) ==> seats@[j] != seat,
            crate::indexed::elem_index(seats@, seat) < 0 ==> !seats@.contains(seat),
        decreases seats@.len() - i,
    {
        if seats[i] == seat {
            return Some(i);
        }
        i = i + 1;
    }
    None
}

fn create_round_result(round: &RoundState) -> (r: Result<Option<RoundResult>, RuleError>)
    ensures
        r is Err <==> round_outcome(round.finish_order@, active(*round)) is Err,
        r matches Err(e) ==> e.code@ == "INTERNAL_ERROR"@,
        r matches Ok(None) ==> round_outcome(round.finish_order@, active(*round)) == Ok::<Option<(int, Seq<Seat>, Seq<Seat>, int)>, ()>(None),
        r matches Ok(Some(res)) ==> round_outcome(round.finish_order@, active(*round)) matches Ok(Some(o)) && result_is(res, o),
{
    let n = round.finish_order.len();
    if n == 0 {
        return Ok(None);
    }
    let first = round.finish_order[0];
    if n >= 2 {
        let second = round.finish_order[1];
        if first.team() == second.team() {
            let mut order: Vec<Seat> = Vec::new();
            order.push(first);
            order.push(second);
            assert(order@ =~= seq![first, second]);
            return Ok(
                Some(
                    RoundResult {
                        winner_team: first.team(),
                        finish_order: order,
                        double_last_seats: seat_set_to_vec(&round.active_seats),
                        partner_placement: 2,
                    },
                ),
            );
        }
    }
    if n == 3 {
        let last = match seat_set_first(&round.active_seats) {
            Some(s) => s,
            None => {
                return Err(RuleError::internal("Missing last active player"));
            },
        };
        let mut finish_order = round.finish_order.clone();
        finish_order.push(last);
        let partner = first.partner();
        let index = match position_of(&finish_order, partner) {
            Some(i) => i,
            None => {
                return Err(RuleError::internal("Invalid partner placement"));
            },
        };
        proof {
            assert(finish_order@ =~= round.finish_order@.push(last));
        }
        if !(index + 1 == 3 || index + 1 == 4) {
            return Err(RuleError::internal("Invalid partner placement"));
        }
        return Ok(
            Some(
                RoundResult {
                    winner_team: first.team(),
                    finish_order,
                    double_last_seats: Vec::new(),
                    partner_placement: (index + 1) as u8,
                },
            ),
        );
    }
    Ok(None)
}

/// The code that refuses a play before the cards are looked at, or `None`.
pub open spec fn play_rejection(round: RoundState, seat: Seat, card_ids: Seq<String>) -> Option<Seq<char>> {
    if turn_rejection(round, seat, RoundPhase::Playing) is Some {
        turn_rejection(round, seat, RoundPhase::Playing)
    } else if !active(round).contains(seat) {
        Some("PLAYER_FINISHED"@)
    } else if card_ids.len() == 0 || !id_views(card_ids).no_duplicates() {
        Some("INVALID_CARD_SELECTION"@)
    } else if exists|i: int| 0 <= i < card_ids.len() && card_in_hand(hand_of(round, seat), (#[trigger] card_ids[i])@) is None {
        Some("CARD_NOT_OWNED"@)
    } else {
        None
    }
}

/// The selected cards, in selection order.
pub open spec fn selected_cards(hand: Seq<Card>, card_ids: Seq<String>) -> Seq<Card> {
    Seq::new(card_ids.len(), |i: int| card_in_hand(hand, card_ids[i]@)->0)
}

fn no_repeated_ids(card_ids: &[String]) -> (b: bool)
    ensures
        b == id_views(card_ids@).no_duplicates(),
{
    let mut i: usize = 0;
    while i < card_ids.len()
        invariant
            i <= card_ids@.len(),
            forall|a: int, b: int| 0 <= a < b < i ==> id_views(card_ids@)[a] != id_views(card_ids@)[b],
        decreases card_ids@.len() - i,
    {
        let mut j: usize = 0;
        while j < i
            invariant
                i < card_ids@.len(),
                j <= i,
                forall|a: int, b: int| 0 <= a < b < i ==> id_views(card_ids@)[a] != id_views(card_ids@)[b],
                forall|a: int| 0 <= a < j ==> id_views(card_ids@)[a] != id_views(card_ids@)[i as int],
            decreases i - j,
        {
            if card_ids[j] == card_ids[i] {
                assert(id_views(card_ids@)[j as int] == id_views(card_ids@)[i as int]);
                return false;
            }
            j = j + 1;
        }
        i = i + 1;
    }
    true
}

fn select_cards(round: &RoundState, seat: Seat, card_ids: &[String]) -> (r: Result<Vec<Card>, RuleError>)
    ensures
        r is Err <==> exists|i: int| 0 <= i < card_ids@.len() && card_in_hand(hand_of(*round, seat), (#[trigger] card_ids@[i])@) is None,
        r matches Ok(v) ==> v@ == selected_cards(hand_of(*round, seat), card_ids@),
        r matches Err(e) ==> e.code@ == "CARD_NOT_OWNED"@,
{
    let mut cards: Vec<Card> = Vec::new();
    let mut i: usize = 0;
    while i < card_ids.len()
        invariant
            i <= card_ids@.len(),
            cards@.len() == i,
            forall|j: int| 0 <= j < i ==> card_in_hand(hand_of(*round, seat), (#[trigger] card_ids@[j])@) is Some,
            forall|j: int| 0 <= j < i ==> Some(#[trigger] cards@[j]) == card_in_hand(hand_of(*round, seat), card_ids@[j]@),
        decreases card_ids@.len() - i,
    {
        match card_from_hand(round, seat, &card_ids[i]) {
            Ok(c) => {
                cards.push(c);
            },
            Err(e) => {
                return Err(e);
            },
        }
        i = i + 1;
    }
    assert(cards@ =~= selected_cards(hand_of(*round, seat), card_ids@));
    Ok(cards)
}

} // verus!

verus! {

use crate::combinations::{achievable, beats, deref_decl, fits, justified, lone_wildcard, sem, unique_fit};
use crate::indexed::wildcard_entries;
use crate::types::SemanticKey;

/// The playable meaning that fits, when it is unique.
pub open spec fn the_fit(cards: Seq<Card>, level_rank: OrdinaryRank, decl: Option<CombinationDeclaration>) -> SemanticKey {
    choose|s: SemanticKey| achievable(cards, level_rank, s) && fits(s, decl)
}

/// Some playable meaning of the cards fits the optional declaration.
pub open spec fn some_fit(cards: Seq<Card>, level_rank: OrdinaryRank, decl: Option<CombinationDeclaration>) -> bool {
    exists|s: SemanticKey| #![trigger achievable(cards, level_rank, s)] achievable(cards, level_rank, s) && fits(s, decl)
}

/// The other hands are unchanged.
pub open spec fn other_hands_same(a: RoundState, b: RoundState, seat: Seat) -> bool {
    forall|h: int| 0 <= h < 4 && h != seat@ ==> #[trigger] a.hands[h]@ == b.hands[h]@
}

/// The turn moved to the next seat holding cards, or there was none.
pub open spec fn turn_moved_on(
    r: Result<Option<RoundResult>, RuleError>,
    new_turn: Seat,
    old_turn: Seat,
    next: Option<Seat>,
) -> bool {
    match next {
        Some(n) => r matches Ok(None) && new_turn == n,
        None => r matches Err(e) && e.code@ == "NO_ACTIVE_PLAYER"@ && new_turn == old_turn,
    }
}

/// The effect of committing an accepted play of the cards `sel`: they leave the hand
/// and become the current play, a seat that empties its hand finishes, and the round
/// is settled or the turn moves on.
pub open spec fn play_committed(
    old: RoundState,
    seat: Seat,
    card_ids: Seq<String>,
    sel: Seq<Card>,
    new: RoundState,
    r: Result<Option<RoundResult>, RuleError>,
) -> bool {
    let hand = without_ids(hand_of(old, seat), id_views(card_ids));
    let emptied = hand.len() == 0;
    let finish = if emptied { old.finish_order@.push(seat) } else { old.finish_order@ };
    let remaining = if emptied { remove_elem(active(old), seat) } else { active(old) };
    &&& hand_of(new, seat) == hand
    &&& other_hands_same(old, new, seat)
    &&& new.current_play matches Some(p) && p.seat == seat && p.cards@ == sel
    &&& new.consecutive_passes == 0
    &&& new.finish_order@ == finish
    &&& active(new) == remaining
    &&& new.number == old.number
    &&& new.level_rank == old.level_rank
    &&& new.level_owner_team == old.level_owner_team
    &&& new.phase == old.phase
    &&& new.tribute == old.tribute
    &&& if emptied {
        match round_outcome(finish, remaining) {
            Err(_) => r matches Err(e) && e.code@ == "INTERNAL_ERROR"@ && new.turn_seat
                == old.turn_seat,
            Ok(Some(o)) => r matches Ok(Some(res)) && result_is(res, o) && new.turn_seat
                == old.turn_seat,
            Ok(None) => turn_moved_on(r, new.turn_seat, old.turn_seat, next_active(seat, remaining)),
        }
    } else {
        turn_moved_on(r, new.turn_seat, old.turn_seat, next_active(seat, remaining))
    }
}

fn commit_play(
    round: &mut RoundState,
    seat: Seat,
    card_ids: &[String],
    cards: Vec<Card>,
    combination: Combination,
) -> (r: Result<Option<RoundResult>, RuleError>)
    ensures
        play_committed(*old(round), seat, card_ids@, cards@, *final(round), r),
        final(round).current_play matches Some(p) && p.combination == combination,
{
    let ghost sel = cards@;
    remove_card_ids(&mut round.hands[seat.index()], card_ids);
    round.current_play = Some(PlayedCombination { seat, cards, combination });
    round.consecutive_passes = 0;
    if round.hands[seat.index()].len() == 0 {
        round.finish_order.push(seat);
        seat_set_shift_remove(&mut round.active_seats, seat);
        match create_round_result(round) {
            Ok(Some(result)) => {
                return Ok(Some(result));
            },
            Ok(None) => {},
            Err(e) => {
                return Err(e);
            },
        }
    }
    match next_active_seat(seat, &round.active_seats) {
        Ok(next) => {
            round.turn_seat = next;
            Ok(None)
        },
        Err(e) => Err(e),
    }
}

/// What becomes of a play whose selection `sel` passed the checks on turn, seat and
/// ownership: it is refused unless exactly one playable meaning fits the declaration
/// and that meaning beats the current play; otherwise it is committed.
pub open spec fn play_outcome(
    old: RoundState,
    seat: Seat,
    card_ids: Seq<String>,
    sel: Seq<Card>,
    decl: Option<CombinationDeclaration>,
    new: RoundState,
    r: Result<Option<RoundResult>, RuleError>,
) -> bool {
    if !unique_fit(sel, old.level_rank, decl) {
        &&& r matches Err(e) && (e.code@ == "INVALID_COMBINATION"@ || e.code@ == "AMBIGUOUS_COMBINATION"@)
        &&& (r matches Err(e) ==> (e.code@ == "INVALID_COMBINATION"@ <==> !some_fit(sel, old.level_rank, decl)))
        &&& new == old
    } else if old.current_play matches Some(p) && !beats(
        the_fit(sel, old.level_rank, decl),
        sem(p.combination),
        old.level_rank,
    ) {
        &&& r matches Err(e) && e.code@ == "COMBINATION_TOO_SMALL"@
        &&& new == old
    } else {
        &&& play_committed(old, seat, card_ids, sel, new, r)
        &&& new.current_play matches Some(p) && sem(p.combination) == the_fit(sel, old.level_rank, decl) && (if lone_wildcard(
            sel,
            old.level_rank,
        ) {
            wildcard_entries(p.combination.wildcard_assignments).len() == 0
        } else {
            justified(sel, old.level_rank, (sem(p.combination), p.combination))
        })
    }
}

/// The effect of `play` on the round, and its result.
pub open spec fn play_effect(old: RoundState, seat: Seat, card_ids: Seq<String>, decl: Option<CombinationDeclaration>, new: RoundState, r: Result<Option<RoundResult>, RuleError>) -> bool {
    match play_rejection(old, seat, card_ids) {
        Some(code) => r matches Err(e) && e.code@ == code && new == old,
        None => play_outcome(old, seat, card_ids, selected_cards(hand_of(old, seat), card_ids), decl, new, r),
    }
}

fn play_selected(
    round: &mut RoundState,
    seat: Seat,
    card_ids: &[String],
    cards: Vec<Card>,
    declaration: Option<&CombinationDeclaration>,
) -> (r: Result<Option<RoundResult>, RuleError>)
    ensures
        play_outcome(*old(round), seat, card_ids@, cards@, deref_decl(declaration), *final(round), r),
{
    let ghost sel = cards@;
    let ghost decl = deref_decl(declaration);
    let combination = match resolve_combination(cards.as_slice(), round.level_rank, declaration) {
        Ok(c) => c,
        Err(e) => {
            proof {
                reveal_strlit("INVALID_COMBINATION");
                reveal_strlit("AMBIGUOUS_COMBINATION");
                assert("INVALID_COMBINATION"@[0] != "AMBIGUOUS_COMBINATION"@[0]);
            }
            return Err(e);
        },
    };
    proof {
        reveal(unique_fit);
        let s = the_fit(sel, round.level_rank, decl);
        assert(achievable(sel, round.level_rank, sem(combination)) && fits(sem(combination), decl));
        assert(achievable(sel, round.level_rank, s) && fits(s, decl));
        assert(sem(combination) == s);
    }
    let too_small = match &round.current_play {
        Some(current_play) => !can_beat(&combination, &current_play.combination, round.level_rank),
        None => false,
    };
    if too_small {
        return Err(RuleError::new("COMBINATION_TOO_SMALL", "所出牌型不能压制当前牌型"));
    }
    commit_play(round, seat, card_ids, cards, combination)
}

/// Plays the selected cards as one combination. The play must be in turn, by a seat
/// still holding cards, of one or more distinct cards from its hand that form exactly
/// one playable combination under the optional declaration, and it must beat the
/// current play if there is one. The cards leave the hand and become the current play;
/// a seat that empties its hand finishes, which may settle the round. Otherwise the
/// turn passes to the next seat still holding cards.
pub fn play_cards(
    round: &mut RoundState,
    seat: Seat,
    card_ids: &[String],
    declaration: Option<&CombinationDeclaration>,
) -> (r: Result<Option<RoundResult>, RuleError>)
    ensures
        play_effect(*old(round), seat, card_ids@, deref_decl(declaration), *final(round), r),
{
    match validate_turn(round, seat, RoundPhase::Playing) {
        Ok(()) => {},
        Err(e) => {
            return Err(e);
        },
    }
    if !seat_set_contains(&round.active_seats, seat) {
        return Err(RuleError::new("PLAYER_FINISHED", "该玩家已经出完手牌"));
    }
    if card_ids.len() == 0 || !no_repeated_ids(card_ids) {
        return Err(RuleError::new("INVALID_CARD_SELECTION", "必须选择至少一张且不得重复选择牌张"));
    }
    let cards = match select_cards(round, seat, card_ids) {
        Ok(c) => c,
        Err(e) => {
            return Err(e);
        },
    };
    play_selected(round, seat, card_ids, cards, declaration)
}

} // verus!

verus! {

/// The effect of `pass_turn` on the round, and its result.
pub open spec fn pass_effect(old: RoundState, seat: Seat, new: RoundState, r: Result<(), RuleError>) -> bool {
    match turn_rejection(old, seat, RoundPhase::Playing) {
        Some(code) => r matches Err(e) && e.code@ == code && new == old,
        None => match old.current_play {
            None => r matches Err(e) && e.code@ == "CANNOT_PASS_WHEN_LEADING"@ && new == old,
            Some(p) => {
                let a = active(old);
                let passes = old.consecutive_passes + 1;
                let last = p.seat;
                let needed = a.len() - if a.contains(last) { 1int } else { 0int };
                let leader = if a.contains(last) {
                    Some(last)
                } else if a.contains(seat_at((last@ + 2) % 4)) {
                    Some(seat_at((last@ + 2) % 4))
                } else {
                    next_active(last, a)
                };
                &&& new.hands == old.hands
                &&& new.number == old.number
                &&& new.level_rank == old.level_rank
                &&& new.level_owner_team == old.level_owner_team
                &&& new.phase == old.phase
                &&& active(new) == a
                &&& new.finish_order@ == old.finish_order@
                &&& new.tribute == old.tribute
                &&& if passes >= needed {
                    match leader {
                        Some(l) => r is Ok && new.current_play is None && new.consecutive_passes == 0 && new.turn_seat == l,
                        None => r matches Err(e) && e.code@ == "NO_ACTIVE_PLAYER"@ && new.current_play == old.current_play
                            && new.consecutive_passes == passes && new.turn_seat == old.turn_seat,
                    }
                } else {
                    &&& new.current_play == old.current_play
                    &&& new.consecutive_passes == passes
                    &&& match next_active(seat, a) {
                        Some(n) => r is Ok && new.turn_seat == n,
                        None => r matches Err(e) && e.code@ == "NO_ACTIVE_PLAYER"@ && new.turn_seat == old.turn_seat,
                    }
                }
            },
        },
    }
}

/// Passes the turn. The pass must be in turn and there must be a current play. When
/// every other seat still holding cards has passed, the trick ends: the last player
/// leads again, or, when that player has finished, their partner if still holding
/// cards, else the next seat holding cards. Otherwise the turn passes on.
pub fn pass_turn(round: &mut RoundState, seat: Seat) -> (r: Result<(), RuleError>)
    requires
        old(round).consecutive_passes < usize::MAX,
    ensures
        pass_effect(*old(round), seat, *final(round), r),

{
    match validate_turn(round, seat, RoundPhase::Playing) {
        Ok(()) => {},
        Err(e) => {
            return Err(e);
        },
    }
    let last_played_seat = match &round.current_play {
        Some(p) => p.seat,
        None => {
            return Err(RuleError::new("CANNOT_PASS_WHEN_LEADING", "领出玩家不能过牌"));
        },
    };
    round.consecutive_passes = round.consecutive_passes + 1;
    let last_player_still_active = seat_set_contains(&round.active_seats, last_played_seat);
    let count = seat_set_len(&round.active_seats);
    let passes_needed = if last_player_still_active {
        count - 1
    } else {
        count
    };
    if round.consecutive_passes >= passes_needed {
        let partner = last_played_seat.partner();
        let leader = if last_player_still_active {
            last_played_seat
        } else if seat_set_contains(&round.active_seats, partner) {
            partner
        } else {
            match next_active_seat(last_played_seat, &round.active_seats) {
                Ok(s) => s,
                Err(e) => {
                    return Err(e);
                },
            }
        };
        round.current_play = None;
        round.consecutive_passes = 0;
        round.turn_seat = leader;
        return Ok(());
    }
    match next_active_seat(seat, &round.active_seats) {
        Ok(next) => {
            round.turn_seat = next;
            Ok(())
        },
        Err(e) => Err(e),
    }
}

/// After a play that neither failed nor ended the round, the turn belongs to a seat
/// that still holds cards.
pub proof fn law_play_passes_the_turn_to_a_seat_still_playing(
    old: RoundState,
    seat: Seat,
    card_ids: Seq<String>,
    decl: Option<CombinationDeclaration>,
    new: RoundState,
)
    requires
        play_effect(old, seat, card_ids, decl, new, Ok(None)),
    ensures
        active(new).contains(new.turn_seat),
{
    reveal(play_committed);
}

/// After a pass that did not fail, the turn belongs to a seat that still holds cards.
pub proof fn law_pass_keeps_the_turn_with_a_seat_still_playing(old: RoundState, seat: Seat, new: RoundState)
    requires
        pass_effect(old, seat, new, Ok(())),
    ensures
        active(new).contains(new.turn_seat),
{
}

/// In a double tribute, once the last tribute is in and the exchange moves on to
/// returns, the giver whose card is strictly stronger under the level is paired with
/// the previous first finisher and leads the round, and the other giver is paired with
/// the previous second finisher.
pub proof fn law_stronger_double_tribute_goes_to_the_first_finisher(
    old: RoundState,
    seat: Seat,
    card_id: Seq<char>,
    new: RoundState,
)
    requires
        tribute_effect(old, seat, card_id, new, Ok(())),
        old.tribute is Some,
        old.tribute->0.kind == TributeKind::Double,
        old.tribute->0.givers@.len() == 2,
        new.tribute is Some,
        new.tribute->0.stage == TributeStage::Returning,
    ensures
        ({
            let t = old.tribute->0;
            let nt = new.tribute->0;
            let c = seat_card_entries(nt.contributions);
            let recv = seat_seat_entries(nt.receiver_for_giver);
            let g1 = t.givers@[0];
            let g2 = t.givers@[1];
            &&& lookup(c, g1) is Some
            &&& lookup(c, g2) is Some
            &&& t.previous_second is Some
            &&& strength(lookup(c, g1)->0.rank, old.level_rank) > strength(lookup(c, g2)->0.rank, old.level_rank)
                ==> lookup(recv, g1) == Some(t.previous_first) && lookup(recv, g2) == t.previous_second
                && nt.leader_seat == Some(g1)
            &&& strength(lookup(c, g2)->0.rank, old.level_rank) > strength(lookup(c, g1)->0.rank, old.level_rank)
                ==> lookup(recv, g2) == Some(t.previous_first) && lookup(recv, g1) == t.previous_second
                && nt.leader_seat == Some(g2)
        }),
{
    let t = old.tribute->0;
    let nt = new.tribute->0;
    assert(tribute_rejection(old, seat, card_id) is None);
    let card = card_in_hand(hand_of(old, seat), card_id)->0;
    let c = insert_entry(seat_card_entries(t.contributions), seat, card);
    assert(c.len() == t.givers@.len());
    assert(finalized(old, t, c, new, true));
    let plan = finalize_plan(t, c, old.level_rank);
    assert(plan is Some);
    let recv0 = seat_seat_entries(t.receiver_for_giver);
    let g1 = t.givers@[0];
    let g2 = t.givers@[1];
    let c1 = lookup(c, g1)->0;
    let c2 = lookup(c, g2)->0;
    let second = t.previous_second->0;
    let s1 = strength(c1.rank, old.level_rank);
    let s2 = strength(c2.rank, old.level_rank);
    assert(tribute_maps(nt).0 == c);
    if s1 != s2 {
        assert(g1 != g2);
        let first_wins = s1 > s2 || (s1 == s2 && clockwise(t.previous_first, g1) <= clockwise(t.previous_first, g2));
        let higher = if first_wins { g1 } else { g2 };
        let lower = if first_wins { g2 } else { g1 };
        let inner = insert_entry(recv0, higher, t.previous_first);
        let pr = plan->0;
        assert(pr.0 == insert_entry(inner, lower, second));
        lemma_insert_lookup(inner, lower, second);
        lemma_insert_lookup(recv0, higher, t.previous_first);
        lemma_insert_lookup_other(inner, lower, second, higher);
    }
}

/// When a pass closes the trick (it succeeds and leaves no current play), the seat
/// whose play stood leads the next trick if it still holds cards; if it has gone out,
/// its partner across the table leads when still holding cards. The pass count starts
/// again from zero.
pub proof fn law_closing_pass_hands_the_lead_to_the_standing_play(old: RoundState, seat: Seat, new: RoundState)
    requires
        pass_effect(old, seat, new, Ok(())),
        old.current_play is Some,
        new.current_play is None,
    ensures
        new.consecutive_passes == 0,
        active(old).contains(old.current_play->0.seat) ==> new.turn_seat == old.current_play->0.seat,
        !active(old).contains(old.current_play->0.seat) && (exists|q: Seat|
            #![trigger active(old).contains(q)]
            active(old).contains(q) && q@ == (old.current_play->0.seat@ + 2) % 4) ==> new.turn_seat@ == (
        old.current_play->0.seat@ + 2) % 4,
{
    let last = old.current_play->0.seat;
    if !active(old).contains(last) && (exists|q: Seat| #![trigger active(old).contains(q)] active(old).contains(q) && q@ == (last@ + 2) % 4) {
        let q = choose|q: Seat| #![trigger active(old).contains(q)] active(old).contains(q) && q@ == (last@ + 2) % 4;
        crate::types::lemma_seat_at((last@ + 2) % 4);
        assert(q == seat_at((last@ + 2) % 4));
    }
}

/// No two cards of the hand share an id.
pub open spec fn distinct_card_ids(hand: Seq<Card>) -> bool {
    forall|i: int, j: int| 0 <= i < j < hand.len() ==> hand[i].id@ != hand[j].id@
}

/// A play loses and invents no card: every card of the hand either stays in it or is
/// played, a card that stays was not selected, and a played card was selected from the
/// hand.
pub proof fn law_play_moves_exactly_the_selected_cards(
    old: RoundState,
    seat: Seat,
    card_ids: Seq<String>,
    decl: Option<CombinationDeclaration>,
    new: RoundState,
    r: Result<Option<RoundResult>, RuleError>,
)
    requires
        play_effect(old, seat, card_ids, decl, new, r),
        r is Ok,
        distinct_card_ids(hand_of(old, seat)),
    ensures
        new.current_play is Some,
        forall|c: Card|
            hand_of(old, seat).contains(c) ==> hand_of(new, seat).contains(c) || new.current_play->0.cards@.contains(c),
        forall|c: Card|
            hand_of(new, seat).contains(c) ==> hand_of(old, seat).contains(c) && !id_views(card_ids).contains(c.id@),
        forall|c: Card|
            new.current_play->0.cards@.contains(c) ==> hand_of(old, seat).contains(c) && id_views(card_ids).contains(c.id@),
        forall|h: int| 0 <= h < 4 && h != seat@ ==> #[trigger] new.hands[h]@ == old.hands[h]@,
{
    reveal(play_committed);
    let hand = hand_of(old, seat);
    let ids = id_views(card_ids);
    let sel = selected_cards(hand, card_ids);
    hand.filter_lemma(|c: Card| !ids.contains(c.id@));
    assert(new.current_play->0.cards@ == sel);
    assert(hand_of(new, seat) == without_ids(hand, ids));
    assert forall|c: Card| hand.contains(c) implies hand_of(new, seat).contains(c) || sel.contains(c) by {
        let i = choose|i: int| 0 <= i < hand.len() && hand[i] == c;
        if ids.contains(c.id@) {
            let k = choose|k: int| 0 <= k < ids.len() && ids[k] == c.id@;
            lemma_find_card(hand, c.id@);
            assert(find_card(hand, c.id@) == i) by {
                if find_card(hand, c.id@) < i {
                    assert(hand[find_card(hand, c.id@)].id@ == hand[i].id@);
                } else if find_card(hand, c.id@) > i {
                    assert(hand[i].id@ != c.id@);
                }
            }
            assert(card_ids[k]@ == c.id@);
            assert(sel[k] == c);
        } else {
            assert(without_ids(hand, ids).contains(c));
        }
    }
    assert forall|c: Card| hand_of(new, seat).contains(c) implies hand.contains(c) && !ids.contains(c.id@) by {
        hand.lemma_filter_contains_rev(|c: Card| !ids.contains(c.id@), c);
        let i = choose|i: int| 0 <= i < without_ids(hand, ids).len() && without_ids(hand, ids)[i] == c;
    }
    assert forall|c: Card| sel.contains(c) implies hand.contains(c) && ids.contains(c.id@) by {
        let k = choose|k: int| 0 <= k < sel.len() && sel[k] == c;
        lemma_find_card(hand, card_ids[k]@);
        assert(card_in_hand(hand, card_ids[k]@) is Some);
        assert(hand[find_card(hand, card_ids[k]@)] == c);
        assert(ids[k] == card_ids[k]@);
    }
}

/// The cards of the hand whose ids are listed.
pub open spec fn with_ids(hand: Seq<Card>, ids: Seq<Seq<char>>) -> Seq<Card> {
    hand.filter(|c: Card| ids.contains(c.id@))
}

proof fn lemma_split_by_ids(hand: Seq<Card>, ids: Seq<Seq<char>>)
    ensures
        with_ids(hand, ids).len() + without_ids(hand, ids).len() == hand.len(),
    decreases hand.len(),
{
    reveal_with_fuel(Seq::<_>::filter, 1);
    if hand.len() > 0 {
        lemma_split_by_ids(hand.drop_last(), ids);
    }
}

proof fn lemma_with_ids_distinct(hand: Seq<Card>, ids: Seq<Seq<char>>)
    requires
        distinct_card_ids(hand),
    ensures
        distinct_card_ids(with_ids(hand, ids)),
    decreases hand.len(),
{
    reveal_with_fuel(Seq::<_>::filter, 1);
    if hand.len() > 0 {
        let rest = hand.drop_last();
        assert(distinct_card_ids(rest));
        lemma_with_ids_distinct(rest, ids);
        let f = with_ids(rest, ids);
        if ids.contains(hand.last().id@) {
            assert forall|i: int| 0 <= i < f.len() implies f[i].id@ != hand.last().id@ by {
                rest.lemma_filter_contains_rev(|c: Card| ids.contains(c.id@), f[i]);
                let j = choose|j: int| 0 <= j < rest.len() && rest[j] == f[i];
                assert(hand[j] == rest[j]);
                assert(hand[hand.len() - 1] == hand.last());
            }
            assert(with_ids(hand, ids) == f.push(hand.last()));
        }
    }
}

/// A play moves exactly as many cards as were selected: the hand shrinks by the number
/// of cards played.
pub proof fn law_play_moves_as_many_cards_as_selected(
    old: RoundState,
    seat: Seat,
    card_ids: Seq<String>,
    decl: Option<CombinationDeclaration>,
    new: RoundState,
    r: Result<Option<RoundResult>, RuleError>,
)
    requires
        play_effect(old, seat, card_ids, decl, new, r),
        r is Ok,
        distinct_card_ids(hand_of(old, seat)),
    ensures
        new.current_play is Some,
        new.current_play->0.cards@.len() == card_ids.len(),
        hand_of(new, seat).len() + new.current_play->0.cards@.len() == hand_of(old, seat).len(),
{
    reveal(play_committed);
    let hand = hand_of(old, seat);
    let ids = id_views(card_ids);
    let f = with_ids(hand, ids);
    lemma_split_by_ids(hand, ids);
    lemma_with_ids_distinct(hand, ids);
    let g = f.map_values(|c: Card| c.id@);
    assert(g.no_duplicates()) by {
        assert forall|i: int, j: int| 0 <= i < g.len() && 0 <= j < g.len() && i != j implies g[i] != g[j] by {
            if i < j {
                assert(f[i].id@ != f[j].id@);
            } else {
                assert(f[j].id@ != f[i].id@);
            }
        }
    }
    hand.filter_lemma(|c: Card| ids.contains(c.id@));
    assert(g.to_set() =~= ids.to_set()) by {
        assert forall|x: Seq<char>| g.to_set().contains(x) implies ids.to_set().contains(x) by {
            let i = choose|i: int| 0 <= i < g.len() && g[i] == x;
            assert(ids.contains(f[i].id@));
        }
        assert forall|x: Seq<char>| ids.to_set().contains(x) implies g.to_set().contains(x) by {
            let k = choose|k: int| 0 <= k < ids.len() && ids[k] == x;
            assert(ids[k] == card_ids[k]@);
            assert(card_in_hand(hand, card_ids[k]@) is Some);
            lemma_find_card(hand, x);
            let i = find_card(hand, x);
            assert(f.contains(hand[i]));
            let j = choose|j: int| 0 <= j < f.len() && f[j] == hand[i];
            assert(g[j] == x);
        }
    }
    g.unique_seq_to_set();
    ids.unique_seq_to_set();
}

} // verus!
