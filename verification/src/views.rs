//! What a room looks like to one viewer: everything public, plus the viewer's own
//! hand. Reconnect tokens and the other hands never enter a view.

use vstd::prelude::*;
use indexmap::IndexMap;
use crate::cards::{sort_cards, stable_sort};
use crate::indexed::{
    key_index, lemma_key_index,
    participant_entries, participant_map_get, participant_map_index, participant_map_len, seat_card_entries,
    seat_card_map_len, seat_card_map_to_vec, seat_seat_entries, seat_seat_map_len, seat_seat_map_to_vec,
    seat_set_entries, seat_set_to_vec,
};
use crate::match_state::{same_result, MatchPhase, MatchState};
use crate::round::{
    active, same_play, same_tribute, PlayedCombination, RoundPhase, RoundResult, RoundState, TributeKind,
    TributeStage, TributeState,
};
use crate::rooms::{is_connected, member, members, ParticipantRole, PlayerId, RoomPhase, RoomState};
use crate::types::{Card, OrdinaryRank, Seat, Team};

verus! {

/// The viewer's own part of a room view.
#[derive(Debug)]
pub struct SelfView {
    pub participant_id: PlayerId,
    pub role: ParticipantRole,
    pub seat: Option<Seat>,
    pub ready: bool,
    /// The viewer's hand, sorted; empty for a viewer without a seat or without a round.
    pub hand: Vec<Card>,
}

/// A participant as everyone sees them.
#[derive(Debug)]
pub struct ParticipantView {
    pub id: PlayerId,
    pub display_name: String,
    pub role: ParticipantRole,
    pub seat: Option<Seat>,
    pub ready: bool,
    pub connected: bool,
}

/// The public state of a tribute exchange.
#[derive(Debug)]
pub struct TributeView {
    pub kind: TributeKind,
    pub stage: TributeStage,
    pub previous_first: Seat,
    pub previous_second: Option<Seat>,
    pub givers: Vec<Seat>,
    pub receiver_for_giver: Vec<(Seat, Seat)>,
    pub contributed_seats: Vec<Seat>,
    pub returned_seats: Vec<Seat>,
    /// The tribute cards, once they may be shown.
    pub contributions: Vec<(Seat, Card)>,
    /// The return cards, once they may be shown.
    pub returns: Vec<(Seat, Card)>,
}

/// The public state of a round: hands appear only as their sizes.
#[derive(Debug)]
pub struct RoundView {
    pub number: u32,
    pub phase: RoundPhase,
    pub level_rank: OrdinaryRank,
    pub level_owner_team: Option<Team>,
    pub turn_seat: Seat,
    pub current_play: Option<PlayedCombination>,
    pub consecutive_passes: usize,
    pub finish_order: Vec<Seat>,
    pub active_seats: Vec<Seat>,
    pub hand_counts: [usize; 4],
    pub tribute: Option<TributeView>,
}

/// The public state of a match.
#[derive(Debug)]
pub struct MatchView {
    pub phase: MatchPhase,
    pub team_levels: [OrdinaryRank; 2],
    pub next_round_number: u32,
    pub previous_round_result: Option<RoundResult>,
    pub current_round: Option<RoundView>,
}

/// A room as one viewer sees it.
#[derive(Debug)]
pub struct RoomView {
    pub room_code: String,
    pub phase: RoomPhase,
    pub version: u64,
    pub host_id: PlayerId,
    pub seats: [Option<PlayerId>; 4],
    pub participants: Vec<ParticipantView>,
    pub match_view: Option<MatchView>,
    pub self_view: Option<SelfView>,
}

/// The submitted cards in submission order when `reveal` holds, else none.
pub open spec fn visible(entries: Seq<(Seat, Card)>, reveal: bool) -> Seq<(Seat, Card)> {
    if reveal {
        entries
    } else {
        Seq::empty()
    }
}

/// Lists submitted cards with their seats, only when they may be revealed.
pub fn visible_submitted_cards(values: &IndexMap<Seat, Card>, reveal: bool) -> (v: Vec<(Seat, Card)>)
    ensures
        v@ == visible(seat_card_entries(*values), reveal),
{
    if !reveal {
        return Vec::new();
    }
    seat_card_map_to_vec(values)
}

/// The seats of the entries, in order.
pub open spec fn entry_seats(entries: Seq<(Seat, Card)>) -> Seq<Seat> {
    entries.map_values(|e: (Seat, Card)| e.0)
}

fn seats_of(entries: &Vec<(Seat, Card)>) -> (v: Vec<Seat>)
    ensures
        v@ == entry_seats(entries@),
{
    let mut v: Vec<Seat> = Vec::new();
    let mut i: usize = 0;
    while i < entries.len()
        invariant
            i <= entries@.len(),
            v@ == entry_seats(entries@.take(i as int)),
        decreases entries@.len() - i,
    {
        v.push(entries[i].0);
        i = i + 1;
        proof {
            assert(entry_seats(entries@.take(i as int)) =~= entry_seats(entries@.take(i - 1)).push(entries@[i - 1].0));
        }
    }
    proof {
        assert(entries@.take(i as int) =~= entries@);
    }
    v
}

/// The tribute cards show once every giver has given, or at once in a single tribute;
/// the return cards show once every receiver has returned.
pub open spec fn tribute_view_of(v: TributeView, t: TributeState) -> bool {
    let contributions_complete = seat_card_entries(t.contributions).len() == t.givers@.len();
    let returns_complete = t.stage == TributeStage::Returning && seat_card_entries(t.returns).len()
        == seat_seat_entries(t.receiver_for_giver).len();
    &&& v.kind == t.kind
    &&& v.stage == t.stage
    &&& v.previous_first == t.previous_first
    &&& v.previous_second == t.previous_second
    &&& v.givers@ == t.givers@
    &&& v.receiver_for_giver@ == seat_seat_entries(t.receiver_for_giver)
    &&& v.contributed_seats@ == entry_seats(seat_card_entries(t.contributions))
    &&& v.returned_seats@ == entry_seats(seat_card_entries(t.returns))
    &&& v.contributions@ == visible(
        seat_card_entries(t.contributions),
        t.kind == TributeKind::Single || contributions_complete,
    )
    &&& v.returns@ == visible(seat_card_entries(t.returns), returns_complete)
}

/// The public view of a tribute exchange.
pub fn tribute_view(tribute: &TributeState) -> (v: TributeView)
    ensures
        tribute_view_of(v, *tribute),
{
    let contributions_complete = seat_card_map_len(&tribute.contributions) == tribute.givers.len();
    let returns_complete = tribute.stage == TributeStage::Returning && seat_card_map_len(&tribute.returns)
        == seat_seat_map_len(&tribute.receiver_for_giver);
    let contributed = seat_card_map_to_vec(&tribute.contributions);
    let returned = seat_card_map_to_vec(&tribute.returns);
    TributeView {
        kind: tribute.kind,
        stage: tribute.stage,
        previous_first: tribute.previous_first,
        previous_second: tribute.previous_second,
        givers: tribute.givers.clone(),
        receiver_for_giver: seat_seat_map_to_vec(&tribute.receiver_for_giver),
        contributed_seats: seats_of(&contributed),
        returned_seats: seats_of(&returned),
        contributions: visible_submitted_cards(
            &tribute.contributions,
            tribute.kind == TributeKind::Single || contributions_complete,
        ),
        returns: visible_submitted_cards(&tribute.returns, returns_complete),
    }
}

/// The public view of a round: everything but the cards in the hands, which appear only
/// as counts.
pub open spec fn round_view_of(v: RoundView, round: RoundState) -> bool {
    &&& v.number == round.number
    &&& v.phase == round.phase
    &&& v.level_rank == round.level_rank
    &&& v.level_owner_team == round.level_owner_team
    &&& v.turn_seat == round.turn_seat
    &&& match (v.current_play, round.current_play) {
        (Some(a), Some(b)) => same_play(a, b),
        (None, None) => true,
        _ => false,
    }
    &&& v.consecutive_passes == round.consecutive_passes
    &&& v.finish_order@ == round.finish_order@
    &&& v.active_seats@ == active(round)
    &&& forall|h: int| 0 <= h < 4 ==> #[trigger] v.hand_counts[h] == round.hands[h]@.len()
    &&& match (v.tribute, round.tribute) {
        (Some(a), Some(b)) => tribute_view_of(a, b),
        (None, None) => true,
        _ => false,
    }
}

/// The public view of a round.
pub fn public_round_view(round: &RoundState) -> (v: RoundView)
    ensures
        round_view_of(v, *round),
{
    let tribute = match &round.tribute {
        Some(t) => Some(tribute_view(t)),
        None => None,
    };
    let current_play = match &round.current_play {
        Some(p) => Some(p.clone()),
        None => None,
    };
    RoundView {
        number: round.number,
        phase: round.phase,
        level_rank: round.level_rank,
        level_owner_team: round.level_owner_team,
        turn_seat: round.turn_seat,
        current_play,
        consecutive_passes: round.consecutive_passes,
        finish_order: round.finish_order.clone(),
        active_seats: seat_set_to_vec(&round.active_seats),
        hand_counts: [round.hands[0].len(), round.hands[1].len(), round.hands[2].len(), round.hands[3].len()],
        tribute,
    }
}

/// The view of one participant: everything but the reconnect token, and whether they
/// are connected rather than their connections.
pub open spec fn participant_view_of(v: ParticipantView, p: crate::rooms::Participant) -> bool {
    &&& v.id == p.id
    &&& v.display_name == p.display_name
    &&& v.role == p.role
    &&& v.seat == p.seat
    &&& v.ready == p.ready
    &&& v.connected == is_connected(p)
}

/// The public view of a match.
pub open spec fn match_view_of(v: MatchView, m: MatchState) -> bool {
    &&& v.phase == m.phase
    &&& v.team_levels == m.team_levels
    &&& v.next_round_number == m.next_round_number
    &&& match (v.previous_round_result, m.previous_round_result) {
        (Some(a), Some(b)) => same_result(a, b),
        (None, None) => true,
        _ => false,
    }
    &&& match (v.current_round, m.current_round) {
        (Some(a), Some(b)) => round_view_of(a, b),
        (None, None) => true,
        _ => false,
    }
}

/// The round being played in the room, if any.
pub open spec fn current_round_of(room: RoomState) -> Option<RoundState> {
    match room.match_state {
        Some(m) => m.current_round,
        None => None,
    }
}

/// The hand a viewer sees: their own hand, sorted, when they have a seat and a round is
/// on; otherwise nothing.
pub open spec fn own_hand(room: RoomState, seat: Option<Seat>) -> Seq<Card> {
    match (seat, current_round_of(room)) {
        (Some(s), Some(round)) => stable_sort(round.hands[s@]@, round.level_rank),
        _ => Seq::empty(),
    }
}

/// The view of the room for the viewer: every public part of the room, and, for a
/// viewer in the room, their own role, seat, readiness and hand.
pub open spec fn room_view_of(v: RoomView, room: RoomState, viewer_id: Option<Seq<char>>) -> bool {
    &&& v.room_code == room.code
    &&& v.phase == room.phase
    &&& v.version == room.version
    &&& v.host_id == room.host_id
    &&& v.seats@ == room.seats@
    &&& v.participants@.len() == members(room).len()
    &&& forall|i: int| 0 <= i < members(room).len() ==> participant_view_of(#[trigger] v.participants@[i], members(room)[i].1)
    &&& match (v.match_view, room.match_state) {
        (Some(a), Some(b)) => match_view_of(a, b),
        (None, None) => true,
        _ => false,
    }
    &&& match viewer_id {
        None => v.self_view is None,
        Some(id) => match member(room, id) {
            None => v.self_view is None,
            Some(p) => v.self_view matches Some(sv) && sv.participant_id == p.id && sv.role == p.role && sv.seat
                == p.seat && sv.ready == p.ready && sv.hand@ == own_hand(room, p.seat),
        },
    }
}

fn clone_id(id: &Option<PlayerId>) -> (c: Option<PlayerId>)
    ensures
        c == *id,
{
    match id {
        Some(s) => Some(s.clone()),
        None => None,
    }
}

/// Builds the room as the viewer sees it (see `room_view_of`).
pub fn create_room_view(room: &RoomState, viewer_id: Option<&str>) -> (v: RoomView)
    ensures
        room_view_of(v, *room, match viewer_id {
            Some(id) => Some(id@),
            None => None,
        }),
{
    let viewer = match viewer_id {
        Some(id) => participant_map_get(&room.participants, id),
        None => None,
    };
    let self_view = match viewer {
        Some(participant) => {
            let hand = match (participant.seat, &room.match_state) {
                (Some(seat), Some(m)) => match &m.current_round {
                    Some(round) => sort_cards(round.hands[seat.index()].as_slice(), round.level_rank),
                    None => Vec::new(),
                },
                _ => Vec::new(),
            };
            Some(
                SelfView {
                    participant_id: participant.id.clone(),
                    role: participant.role,
                    seat: participant.seat,
                    ready: participant.ready,
                    hand,
                },
            )
        },
        None => None,
    };
    let n = participant_map_len(&room.participants);
    let mut participants: Vec<ParticipantView> = Vec::new();
    let mut i: usize = 0;
    while i < n
        invariant
            i <= n,
            n == members(*room).len(),
            participants@.len() == i,
            forall|j: int| 0 <= j < i ==> participant_view_of(#[trigger] participants@[j], members(*room)[j].1),
        decreases n - i,
    {
        let participant = participant_map_index(&room.participants, i);
        participants.push(
            ParticipantView {
                id: participant.id.clone(),
                display_name: participant.display_name.clone(),
                role: participant.role,
                seat: participant.seat,
                ready: participant.ready,
                connected: participant.connected(),
            },
        );
        i = i + 1;
    }
    let match_view = match &room.match_state {
        Some(m) => {
            let previous_round_result = match &m.previous_round_result {
                Some(r) => Some(r.clone()),
                None => None,
            };
            let current_round = match &m.current_round {
                Some(round) => Some(public_round_view(round)),
                None => None,
            };
            Some(
                MatchView {
                    phase: m.phase,
                    team_levels: m.team_levels,
                    next_round_number: m.next_round_number,
                    previous_round_result,
                    current_round,
                },
            )
        },
        None => None,
    };
    let seats = [
        clone_id(&room.seats[0]),
        clone_id(&room.seats[1]),
        clone_id(&room.seats[2]),
        clone_id(&room.seats[3]),
    ];
    proof {
        assert(seats@ =~= room.seats@);
    }
    RoomView {
        room_code: room.code.clone(),
        phase: room.phase,
        version: room.version,
        host_id: room.host_id.clone(),
        seats,
        participants,
        match_view,
        self_view,
    }
}

/// A viewer without a seat sees no cards of any hand.
pub proof fn law_spectators_see_no_hand(room: RoomState, viewer_id: Seq<char>, v: RoomView)
    requires
        room_view_of(v, room, Some(viewer_id)),
        member(room, viewer_id) matches Some(p) && p.seat is None,
    ensures
        v.self_view matches Some(sv) && sv.hand@.len() == 0,
{
}

/// A seated viewer sees exactly the cards of their own hand, sorted, and nothing of the
/// other hands but their sizes.
pub proof fn law_players_see_only_their_own_hand(room: RoomState, viewer_id: Seq<char>, v: RoomView, round: RoundState, seat: Seat)
    requires
        room_view_of(v, room, Some(viewer_id)),
        member(room, viewer_id) matches Some(p) && p.seat == Some(seat),
        current_round_of(room) == Some(round),
    ensures
        v.self_view matches Some(sv) && sv.hand@.to_multiset() == round.hands[seat@]@.to_multiset(),
        v.match_view matches Some(mv) && mv.current_round matches Some(rv) && forall|h: int|
            0 <= h < 4 ==> #[trigger] rv.hand_counts[h] == round.hands[h]@.len(),
{
    crate::cards::law_sorting_orders_and_keeps_the_cards(round.hands[seat@]@, round.level_rank);
}

/// Two viewers of the same room see the same public part: the views differ only in
/// the viewer's own part.
pub proof fn law_views_differ_only_in_the_viewers_part(
    room: RoomState,
    a: Option<Seq<char>>,
    b: Option<Seq<char>>,
    va: RoomView,
    vb: RoomView,
)
    requires
        room_view_of(va, room, a),
        room_view_of(vb, room, b),
    ensures
        va.room_code == vb.room_code,
        va.phase == vb.phase,
        va.version == vb.version,
        va.host_id == vb.host_id,
        va.seats@ == vb.seats@,
        va.participants@ == vb.participants@,
        va.match_view is Some <==> vb.match_view is Some,
{
    assert(va.participants@ =~= vb.participants@);
}

/// Two participants agree on everything but the reconnect token.
pub open spec fn same_but_token(p: crate::rooms::Participant, q: crate::rooms::Participant) -> bool {
    &&& p.id == q.id
    &&& p.display_name == q.display_name
    &&& p.role == q.role
    &&& p.seat == q.seat
    &&& p.ready == q.ready
    &&& p.socket_ids@ == q.socket_ids@
}

/// Two rooms that differ at most in their participants' reconnect tokens.
pub open spec fn same_but_tokens(a: RoomState, b: RoomState) -> bool {
    &&& a.code == b.code
    &&& a.phase == b.phase
    &&& a.version == b.version
    &&& a.host_id == b.host_id
    &&& a.seats@ == b.seats@
    &&& a.match_state == b.match_state
    &&& members(a).len() == members(b).len()
    &&& forall|i: int|
        0 <= i < members(a).len() ==> (#[trigger] members(a)[i]).0 == members(b)[i].0 && same_but_token(
            members(a)[i].1,
            members(b)[i].1,
        )
}

/// Reconnect tokens never show in a view: rooms that differ only in tokens look the
/// same to every viewer, up to the copies of the match that each view holds.
pub proof fn law_views_do_not_depend_on_tokens(
    a: RoomState,
    b: RoomState,
    viewer_id: Option<Seq<char>>,
    va: RoomView,
    vb: RoomView,
)
    requires
        same_but_tokens(a, b),
        room_view_of(va, a, viewer_id),
        room_view_of(vb, b, viewer_id),
    ensures
        va.room_code == vb.room_code,
        va.phase == vb.phase,
        va.version == vb.version,
        va.host_id == vb.host_id,
        va.seats@ == vb.seats@,
        va.participants@ == vb.participants@,
        match (va.match_view, vb.match_view) {
            (Some(x), Some(y)) => match a.match_state {
                Some(m) => match_view_of(x, m) && match_view_of(y, m),
                None => false,
            },
            (None, None) => true,
            _ => false,
        },
        match (va.self_view, vb.self_view) {
            (Some(x), Some(y)) => x.participant_id == y.participant_id && x.role == y.role && x.seat == y.seat
                && x.ready == y.ready && x.hand@ == y.hand@,
            (None, None) => true,
            _ => false,
        },
{
    assert forall|i: int| 0 <= i < va.participants@.len() implies va.participants@[i] == vb.participants@[i] by {
        assert(members(a)[i].1.socket_ids@.len() == members(b)[i].1.socket_ids@.len());
    }
    assert(va.participants@ =~= vb.participants@);
    if let Some(id) = viewer_id {
        lemma_key_index(members(a), id);
        lemma_key_index(members(b), id);
        let ka = key_index(members(a), id);
        let kb = key_index(members(b), id);
        if ka >= 0 {
            assert(members(b)[ka].0 == id);
            if kb < ka {
                assert(members(a)[kb].0 == id);
            }
        }
        if kb >= 0 {
            assert(members(a)[kb].0 == id);
        }
        assert(ka == kb);
    }
}

/// Two rooms that differ at most in the cards of the hands of the current round other
/// than the hand of seat `seen`: those hands keep their sizes.
pub open spec fn differ_in_hidden_hands(a: RoomState, b: RoomState, seen: Option<Seat>) -> bool {
    match (a.match_state, b.match_state) {
        (Some(ma), Some(mb)) => match (ma.current_round, mb.current_round) {
            (Some(ra), Some(rb)) => {
                &&& a == (RoomState {
                    match_state: Some(
                        MatchState { current_round: Some(RoundState { hands: ra.hands, ..rb }), ..mb },
                    ),
                    ..b
                })
                &&& forall|h: int| 0 <= h < 4 ==> (#[trigger] ra.hands[h]@).len() == rb.hands[h]@.len()
                &&& seen matches Some(s) ==> ra.hands[s@]@ == rb.hands[s@]@
            },
            _ => a == b,
        },
        _ => a == b,
    }
}

/// A view shows the other seats' hands only through their sizes: a view of a room is
/// also a view of any room whose other hands hold other cards in the same numbers.
pub proof fn law_views_show_other_hands_only_by_size(a: RoomState, b: RoomState, viewer_id: Seq<char>, v: RoomView)
    requires
        room_view_of(v, b, Some(viewer_id)),
        differ_in_hidden_hands(
            a,
            b,
            match member(b, viewer_id) {
                Some(p) => p.seat,
                None => None,
            },
        ),
    ensures
        room_view_of(v, a, Some(viewer_id)),
{
    if let (Some(ma), Some(mb)) = (a.match_state, b.match_state) {
        if let (Some(ra), Some(rb)) = (ma.current_round, mb.current_round) {
            assert(members(a) == members(b));
            match member(b, viewer_id) {
                Some(p) => {
                    if let Some(s) = p.seat {
                        assert(ra.hands[s@]@ == rb.hands[s@]@);
                    }
                },
                None => {},
            }
        }
    }
}

} // verus!
