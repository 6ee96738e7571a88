//! Rooms: participants and seats in the lobby, commands against the match, connection
//! bookkeeping and cleanup of expired participants and idle rooms.

use vstd::prelude::*;
use indexmap::IndexMap;
use uuid::Uuid;
use vstd::string::*;
use crate::errors::{ErrorDetails, RuleError};
use crate::identity::{base64_url_no_pad, hyphenated_uuid, parses_as_uuid, encode_token, new_instance_id, new_participant_id, random_token_bytes};
use crate::indexed::{
    distinct_keys, elem_index, has_key, insert_entry, key_index, lemma_key_index_at, lemma_remove_entry,
    lemma_remove_without_keys, lemma_without_keys, lemma_without_no_keys, remove_entry, without_keys, lemma_elem_index, lemma_insert_entry, lemma_insert_lookup, lemma_key_index, lemma_update_at_key, lookup,
    participant_entries, participant_map_get, participant_map_get_mut, participant_map_index, participant_map_index_mut,
    participant_map_shift_remove, participant_map_clone, processed_map_clone,
    participant_map_insert, participant_map_len, participant_map_new, processed_entries, processed_map_new,
    processed_map_get, processed_map_insert, processed_map_len, processed_map_shift_remove_index, seat_card_entries,
    seat_card_map_to_vec,
    room_entries, room_map_contains_key, room_map_insert,
};
use crate::cards::copy_cards;
use crate::combinations::deref_decl;
use crate::match_state::{
    same_match, create_match, give_match_tribute, match_play_effect, new_match, next_round_effect, pass_match_turn,
    play_match_cards, return_match_tribute, round_action, MatchActionOutcome, MatchState,
};
use crate::round::{
    id_views, pass_effect, return_effect, tribute_effect, RoundPhase, RoundResult, RoundState, TributeKind, TributeState,
};
use crate::round::random_below;
use crate::text::{chars_of, lowercased, str_eq, string_of, to_lowercase, to_uppercase, trim, trimmed, uppercased, utf16_len, utf16_units};
use crate::types::{seat_at, Card, CombinationDeclaration, OrdinaryRank, Seat, Team};

verus! {

/// Identifier of a participant.
pub type PlayerId = String;

/// Whether a participant plays or watches.
#[derive(Clone, Copy, Debug, PartialEq, Eq, Structural)]
pub enum ParticipantRole {
    Player,
    Spectator,
}

/// Someone in a room.
#[derive(Debug)]
pub struct Participant {
    pub id: PlayerId,
    pub display_name: String,
    pub reconnect_token: String,
    pub role: ParticipantRole,
    pub seat: Option<Seat>,
    pub ready: bool,
    /// Live connections of the participant, each listed once.
    pub socket_ids: Vec<String>,
    pub disconnected_at: Option<u64>,
    pub joined_at: u64,
}

/// Two participants agree on every field, connections compared by their lists.
pub open spec fn same_participant(a: Participant, b: Participant) -> bool {
    &&& a.id == b.id
    &&& a.display_name == b.display_name
    &&& a.reconnect_token == b.reconnect_token
    &&& a.role == b.role
    &&& a.seat == b.seat
    &&& a.ready == b.ready
    &&& a.socket_ids@ == b.socket_ids@
    &&& a.disconnected_at == b.disconnected_at
    &&& a.joined_at == b.joined_at
}

impl Clone for Participant {
    fn clone(&self) -> (p: Self)
        ensures
            same_participant(p, *self),
    {
        let mut socket_ids: Vec<String> = Vec::new();
        let mut i: usize = 0;
        while i < self.socket_ids.len()
            invariant
                i <= self.socket_ids@.len(),
                socket_ids@ == self.socket_ids@.take(i as int),
            decreases self.socket_ids@.len() - i,
        {
            socket_ids.push(self.socket_ids[i].clone());
            i = i + 1;
            assert(socket_ids@ =~= self.socket_ids@.take(i as int));
        }
        assert(socket_ids@ =~= self.socket_ids@);
        Participant {
            id: self.id.clone(),
            display_name: self.display_name.clone(),
            reconnect_token: self.reconnect_token.clone(),
            role: self.role,
            seat: self.seat,
            ready: self.ready,
            socket_ids,
            disconnected_at: self.disconnected_at,
            joined_at: self.joined_at,
        }
    }
}

/// The participant has at least one live connection.
pub open spec fn is_connected(p: Participant) -> bool {
    p.socket_ids@.len() > 0
}

impl Participant {
    /// Whether the participant has a live connection.
    pub fn connected(&self) -> (b: bool)
        ensures
            b == is_connected(*self),
    {
        self.socket_ids.len() > 0
    }
}

/// Whether the room is gathering players or playing a match.
#[derive(Clone, Copy, Debug, PartialEq, Eq, Structural)]
pub enum RoomPhase {
    Lobby,
    Playing,
}

/// The state of a room.
#[derive(Debug)]
pub struct RoomState {
    /// Distinguishes successive rooms that happen to reuse the same public code.
    pub instance_id: Uuid,
    pub code: String,
    pub phase: RoomPhase,
    pub host_id: PlayerId,
    pub participants: IndexMap<PlayerId, Participant>,
    pub seats: [Option<PlayerId>; 4],
    pub match_state: Option<MatchState>,
    pub version: u64,
    pub last_activity_at: u64,
    pub processed_commands: IndexMap<String, u64>,
}

/// Two rooms agree on every field: participants key by key as `same_participant` says,
/// seats by their contents, matches as `same_match` says, processed commands by their
/// entries.
pub open spec fn same_room(a: RoomState, b: RoomState) -> bool {
    &&& a.instance_id == b.instance_id
    &&& a.code == b.code
    &&& a.phase == b.phase
    &&& a.host_id == b.host_id
    &&& members(a).len() == members(b).len()
    &&& forall|i: int|
        0 <= i < members(b).len() ==> #[trigger] members(a)[i].0 == members(b)[i].0 && same_participant(
            members(a)[i].1,
            members(b)[i].1,
        )
    &&& a.seats@ == b.seats@
    &&& match (a.match_state, b.match_state) {
        (Some(x), Some(y)) => same_match(x, y),
        (None, None) => true,
        _ => false,
    }
    &&& a.version == b.version
    &&& a.last_activity_at == b.last_activity_at
    &&& processed_entries(a.processed_commands) == processed_entries(b.processed_commands)
}

impl Clone for RoomState {
    fn clone(&self) -> (r: Self)
        ensures
            same_room(r, *self),
    {
        let seats = [
            clone_player_id(&self.seats[0]),
            clone_player_id(&self.seats[1]),
            clone_player_id(&self.seats[2]),
            clone_player_id(&self.seats[3]),
        ];
        proof {
            assert(seats@ =~= self.seats@);
        }
        RoomState {
            instance_id: self.instance_id,
            code: self.code.clone(),
            phase: self.phase,
            host_id: self.host_id.clone(),
            participants: participant_map_clone(&self.participants),
            seats,
            match_state: match &self.match_state {
                Some(m) => Some(m.clone()),
                None => None,
            },
            version: self.version,
            last_activity_at: self.last_activity_at,
            processed_commands: processed_map_clone(&self.processed_commands),
        }
    }
}

fn clone_player_id(id: &Option<PlayerId>) -> (c: Option<PlayerId>)
    ensures
        c == *id,
{
    match id {
        Some(s) => Some(s.clone()),
        None => None,
    }
}

/// What a participant needs to come back to a room.
#[derive(Clone, Debug)]
pub struct ParticipantCredentials {
    pub room_code: String,
    pub participant_id: PlayerId,
    pub reconnect_token: String,
    pub role: ParticipantRole,
    pub seat: Option<Seat>,
}

impl ParticipantCredentials {
    /// A command of this participant in this room, under the action id, against the
    /// expected version.
    pub fn command(&self, action_id: &str, expected_version: u64) -> (c: CommandContext)
        ensures
            c.room_code == self.room_code,
            c.participant_id == self.participant_id,
            c.action_id@ == action_id@,
            c.expected_version == expected_version,
    {
        CommandContext {
            room_code: self.room_code.clone(),
            participant_id: self.participant_id.clone(),
            action_id: action_id.to_owned(),
            expected_version,
        }
    }
}

/// Who sends a command to which room, under which action id, against which version.
#[derive(Debug)]
pub struct CommandContext {
    pub room_code: String,
    pub participant_id: PlayerId,
    pub action_id: String,
    pub expected_version: u64,
}

/// The participants of the room, in joining order, keyed by the characters of their id.
pub open spec fn members(room: RoomState) -> Seq<(Seq<char>, Participant)> {
    participant_entries(room.participants)
}

/// The participant with the id, if any.
pub open spec fn member(room: RoomState, id: Seq<char>) -> Option<Participant> {
    lookup(members(room), id)
}

/// The public form of a room code: trimmed and upper-cased.
pub open spec fn normalized_code(code: Seq<char>) -> Seq<char> {
    uppercased(trimmed(code))
}

/// Trims and upper-cases a room code.
pub fn normalize_room_code(code: &str) -> (r: String)
    ensures
        r@ == normalized_code(code@),
{
    to_uppercase(trim(code))
}

/// The error for a room code that names no room.
pub fn room_not_found() -> (e: RuleError)
    ensures
        e.code@ == "ROOM_NOT_FOUND"@,
{
    RuleError::new("ROOM_NOT_FOUND", "房间不存在或已过期")
}

/// A display name, once trimmed, must take 1 to 20 UTF-16 code units.
pub open spec fn valid_display_name(name: Seq<char>) -> bool {
    1 <= utf16_units(trimmed(name)) <= 20
}

/// Trims a display name and checks that it takes 1 to 20 UTF-16 code units.
pub fn validate_display_name(display_name: &str) -> (r: Result<String, RuleError>)
    ensures
        r is Ok <==> valid_display_name(display_name@),
        r matches Ok(s) ==> s@ == trimmed(display_name@),
        r matches Err(e) ==> e.code@ == "INVALID_DISPLAY_NAME"@,
{
    let trimmed_name = trim(display_name);
    let length = utf16_len(trimmed_name);
    if !(1 <= length && length <= 20) {
        return Err(RuleError::new("INVALID_DISPLAY_NAME", "临时用户名长度必须为 1 至 20 个字符"));
    }
    Ok(trimmed_name.to_owned())
}

/// The characters that room codes are made of: digits and capitals without the
/// look-alikes 0, 1, I and O.
pub open spec fn room_code_alphabet() -> Seq<char> {
    "23456789ABCDEFGHJKLMNPQRSTUVWXYZ"@
}

/// A room code: six characters of the alphabet.
pub open spec fn is_room_code(code: Seq<char>) -> bool {
    code.len() == 6 && forall|i: int| 0 <= i < 6 ==> room_code_alphabet().contains(#[trigger] code[i])
}

fn random_room_code() -> (code: String)
    ensures
        is_room_code(code@),
{
    let alphabet = "23456789ABCDEFGHJKLMNPQRSTUVWXYZ";
    proof {
        reveal_strlit("23456789ABCDEFGHJKLMNPQRSTUVWXYZ");
    }
    let mut chars: Vec<char> = Vec::new();
    let mut i: usize = 0;
    while i < 6
        invariant
            i <= 6,
            chars@.len() == i,
            alphabet@ == room_code_alphabet(),
            alphabet@.len() == 32,
            forall|j: int| 0 <= j < i ==> room_code_alphabet().contains(#[trigger] chars@[j]),
        decreases 6 - i,
    {
        let index = random_below(32);
        let c = alphabet.get_char(index);
        proof {
            assert(room_code_alphabet()[index as int] == c);
        }
        chars.push(c);
        i = i + 1;
    }
    string_of(chars.as_slice())
}

/// Draws up to 100 random room codes and returns the first that no room uses; after
/// 100 codes in use it gives up with an internal error.
pub fn generate_room_code(rooms: &IndexMap<String, RoomState>) -> (r: Result<String, RuleError>)
    ensures
        r matches Ok(code) ==> is_room_code(code@) && !has_key(room_entries(*rooms), code@),
        r matches Err(e) ==> e.code@ == "INTERNAL_ERROR"@,
        room_entries(*rooms).len() == 0 ==> r is Ok,
{
    let mut attempt: usize = 0;
    while attempt < 100
        invariant
            room_entries(*rooms).len() == 0 ==> attempt == 0,
        decreases 100 - attempt,
    {
        let code = random_room_code();
        proof {
            lemma_key_index(room_entries(*rooms), code@);
        }
        if !room_map_contains_key(rooms, code.as_str()) {
            return Ok(code);
        }
        attempt = attempt + 1;
    }
    Err(RuleError::internal("Unable to generate a unique room code after 100 attempts"))
}

/// A participant just created with the name, role and seat at time `now`: not ready, not
/// connected, counted as disconnected since `now`, with a hyphenated UUID as id and a token
/// that encodes 32 random bytes.
pub open spec fn new_participant(p: Participant, display_name: String, role: ParticipantRole, seat: Option<Seat>, now: u64) -> bool {
    &&& p.display_name == display_name
    &&& p.role == role
    &&& p.seat == seat
    &&& !p.ready
    &&& p.socket_ids@.len() == 0
    &&& p.disconnected_at == Some(now)
    &&& p.joined_at == now
    &&& hyphenated_uuid(p.id@)
    &&& exists|bytes: Seq<u8>| bytes.len() == 32 && p.reconnect_token@ == base64_url_no_pad(bytes)
}

/// Creates a participant with a random id and a random reconnect token.
pub fn create_participant(display_name: String, role: ParticipantRole, seat: Option<Seat>, now: u64) -> (p: Participant)
    ensures
        new_participant(p, display_name, role, seat, now),
{
    let token = random_token_bytes();
    let reconnect_token = encode_token(&token);
    Participant {
        id: new_participant_id(),
        display_name,
        reconnect_token,
        role,
        seat,
        ready: false,
        socket_ids: Vec::new(),
        disconnected_at: Some(now),
        joined_at: now,
    }
}

/// The credentials hold the room's code and the participant's id, token, role and seat.
pub open spec fn credentials_of(c: ParticipantCredentials, room: RoomState, p: Participant) -> bool {
    &&& c.room_code == room.code
    &&& c.participant_id == p.id
    &&& c.reconnect_token == p.reconnect_token
    &&& c.role == p.role
    &&& c.seat == p.seat
}

/// The credentials of a participant of the room.
pub fn credentials(room: &RoomState, participant: &Participant) -> (c: ParticipantCredentials)
    ensures
        credentials_of(c, *room, *participant),
{
    ParticipantCredentials {
        room_code: room.code.clone(),
        participant_id: participant.id.clone(),
        reconnect_token: participant.reconnect_token.clone(),
        role: participant.role,
        seat: participant.seat,
    }
}

/// A room just opened under the credentials' code by one player named `display_name`,
/// who hosts it from seat 0.
pub open spec fn opened_room(room: RoomState, c: ParticipantCredentials, display_name: String, now: u64) -> bool {
    &&& room.code == c.room_code
    &&& room.phase == RoomPhase::Lobby
    &&& room.host_id == c.participant_id
    &&& members(room).len() == 1
    &&& members(room)[0].0 == c.participant_id@
    &&& new_participant(members(room)[0].1, display_name, ParticipantRole::Player, Some(seat_at(0)), now)
    &&& members(room)[0].1.id == c.participant_id
    &&& members(room)[0].1.reconnect_token == c.reconnect_token
    &&& c.role == ParticipantRole::Player
    &&& c.seat == Some(seat_at(0))
    &&& room.seats[0] == Some(c.participant_id)
    &&& room.seats[1] is None && room.seats[2] is None && room.seats[3] is None
    &&& room.match_state is None
    &&& room.version == 1
    &&& room.last_activity_at == now
    &&& processed_entries(room.processed_commands).len() == 0
}

/// Opens a room under a fresh code, with the named player as host in seat 0. The name
/// is taken as given: `validate_display_name` is the check for it.
pub fn create_room(rooms: &mut IndexMap<String, RoomState>, display_name: String, now: u64) -> (r: Result<ParticipantCredentials, RuleError>)
    ensures
        r matches Ok(c) ==> {
            &&& !has_key(room_entries(*old(rooms)), c.room_code@)
            &&& is_room_code(c.room_code@)
            &&& room_entries(*final(rooms)) == room_entries(*old(rooms)).push(room_entries(*final(rooms)).last())
            &&& room_entries(*final(rooms)).last().0 == c.room_code@
            &&& opened_room(room_entries(*final(rooms)).last().1, c, display_name, now)
            &&& room_wf(room_entries(*final(rooms)).last().1)
        },
        r matches Err(e) ==> e.code@ == "INTERNAL_ERROR"@ && room_entries(*final(rooms)) == room_entries(*old(rooms)),
        room_entries(*old(rooms)).len() == 0 ==> r is Ok,
{
    let code = match generate_room_code(rooms) {
        Ok(c) => c,
        Err(e) => {
            return Err(e);
        },
    };
    let seat = Seat::all()[0];
    let participant = create_participant(display_name, ParticipantRole::Player, Some(seat), now);
    let participant_id = participant.id.clone();
    let mut participants = participant_map_new();
    participant_map_insert(&mut participants, participant_id.clone(), participant.clone());
    let room = RoomState {
        instance_id: new_instance_id(),
        code: code.clone(),
        phase: RoomPhase::Lobby,
        host_id: participant_id.clone(),
        participants,
        seats: [Some(participant_id), None, None, None],
        match_state: None,
        version: 1,
        last_activity_at: now,
        processed_commands: processed_map_new(),
    };
    let c = credentials(&room, &participant);
    proof {
        lemma_key_index(room_entries(*rooms), code@);
        assert(members(room) =~= seq![(participant.id@, members(room)[0].1)]);
    }
    room_map_insert(rooms, code, room);
    Ok(c)
}

/// The first empty seat, if any.
pub open spec fn first_open_seat(seats: [Option<PlayerId>; 4]) -> Option<Seat> {
    if seats[0] is None {
        Some(seat_at(0))
    } else if seats[1] is None {
        Some(seat_at(1))
    } else if seats[2] is None {
        Some(seat_at(2))
    } else if seats[3] is None {
        Some(seat_at(3))
    } else {
        None
    }
}

fn open_seat(seats: &[Option<PlayerId>; 4]) -> (r: Option<Seat>)
    ensures
        r == first_open_seat(*seats),
{
    let all = Seat::all();
    let mut i: usize = 0;
    while i < 4
        invariant
            i <= 4,
            forall|j: int| 0 <= j < i ==> seats[j] is Some,
            forall|j: int| 0 <= j < 4 ==> #[trigger] all[j] == seat_at(j),
        decreases 4 - i,
    {
        if seats[i].is_none() {
            return Some(all[i]);
        }
        i = i + 1;
    }
    None
}

/// Another participant already uses the name, compared in lower case.
pub open spec fn name_taken(room: RoomState, display_name: Seq<char>) -> bool {
    exists|i: int| 0 <= i < members(room).len() && lowercased((#[trigger] members(room)[i]).1.display_name@) == lowercased(display_name)
}

fn is_name_taken(room: &RoomState, display_name: &String) -> (b: bool)
    ensures
        b == name_taken(*room, display_name@),
{
    let normalized_name = to_lowercase(display_name.as_str());
    let n = participant_map_len(&room.participants);
    let mut i: usize = 0;
    while i < n
        invariant
            i <= n,
            n == members(*room).len(),
            normalized_name@ == lowercased(display_name@),
            forall|j: int| 0 <= j < i ==> lowercased((#[trigger] members(*room)[j]).1.display_name@) != lowercased(display_name@),
        decreases n - i,
    {
        let p = participant_map_index(&room.participants, i);
        let name = to_lowercase(p.display_name.as_str());
        if string_eq(&name, &normalized_name) {
            return true;
        }
        i = i + 1;
    }
    false
}

fn string_eq(a: &String, b: &String) -> (r: bool)
    ensures
        r == (a@ == b@),
{
    *a == *b
}

/// The effect of a join that passed the checks: the participant `p` is added under its
/// id, takes the first open seat while the room is in the lobby (else watches), and
/// hosts an empty room; the version moves on and the room counts as active at `now`.
pub open spec fn joined(old: RoomState, new: RoomState, c: ParticipantCredentials, display_name: String, now: u64) -> bool {
    let seat = if old.phase == RoomPhase::Lobby { first_open_seat(old.seats) } else { None };
    let role = if seat is Some { ParticipantRole::Player } else { ParticipantRole::Spectator };
    let p = lookup(members(new), c.participant_id@)->0;
    &&& members(new) == insert_entry(members(old), c.participant_id@, p)
    &&& new_participant(p, display_name, role, seat, now)
    &&& p.id == c.participant_id
    &&& p.reconnect_token == c.reconnect_token
    &&& c.role == role
    &&& c.seat == seat
    &&& c.room_code == old.code
    &&& new.seats@ == match seat {
        Some(s) => old.seats@.update(s@, Some(c.participant_id)),
        None => old.seats@,
    }
    &&& new.host_id == if members(old).len() == 0 { c.participant_id } else { old.host_id }
    &&& new.version == old.version + 1
    &&& new.last_activity_at == now
    &&& new.code == old.code
    &&& new.instance_id == old.instance_id
    &&& new.phase == old.phase
    &&& new.match_state == old.match_state
    &&& new.processed_commands == old.processed_commands
}

/// Adds a participant to the room: refused when the room holds 104 participants or
/// another participant has the same name in lower case; otherwise see `joined`. The
/// name is taken as given: `validate_display_name` is the check for it.
pub fn join_room(room: &mut RoomState, display_name: String, now: u64) -> (r: Result<ParticipantCredentials, RuleError>)
    requires
        old(room).version < u64::MAX,
    ensures
        members(*old(room)).len() >= 104 ==> (r matches Err(e) && e.code@ == "ROOM_FULL"@),
        members(*old(room)).len() < 104 && name_taken(*old(room), display_name@) ==> (r matches Err(e) && e.code@
            == "DISPLAY_NAME_TAKEN"@),
        r is Err ==> *final(room) == *old(room),
        members(*old(room)).len() < 104 && !name_taken(*old(room), display_name@) ==> (r matches Ok(c) && joined(
            *old(room),
            *final(room),
            c,
            display_name,
            now,
        )),
        room_wf(*old(room)) ==> room_wf(*final(room)),
{
    if participant_map_len(&room.participants) >= 104 {
        return Err(RuleError::new("ROOM_FULL", "房间人数已达上限"));
    }
    if is_name_taken(room, &display_name) {
        return Err(RuleError::new("DISPLAY_NAME_TAKEN", "该临时用户名已在房间中使用"));
    }
    let seat = if room.phase == RoomPhase::Lobby {
        open_seat(&room.seats)
    } else {
        None
    };
    let role = if seat.is_some() {
        ParticipantRole::Player
    } else {
        ParticipantRole::Spectator
    };
    let room_was_empty = participant_map_len(&room.participants) == 0;
    let participant = create_participant(display_name, role, seat, now);
    let participant_id = participant.id.clone();
    let ghost before = participant_entries(room.participants);
    let stored = participant.clone();
    let ghost stored_value = stored;
    participant_map_insert(&mut room.participants, participant_id.clone(), stored);
    proof {
        lemma_insert_lookup(before, participant_id@, stored_value);
        if room_wf(*old(room)) {
            lemma_insert_entry(before, participant_id@, stored_value);
            lemma_key_index(before, participant_id@);
            let t = participant_entries(room.participants);
            assert forall|j: int| 0 <= j < t.len() implies (#[trigger] t[j]).1.id@ == t[j].0 by {
                if j < before.len() && j != key_index(before, participant_id@) {
                    assert(t[j] == before[j]);
                }
            }
        }
    }
    match seat {
        Some(s) => {
            room.seats[s.index()] = Some(participant_id.clone());
        },
        None => {},
    }
    if room_was_empty {
        room.host_id = participant_id;
    }
    room.version = room.version + 1;
    room.last_activity_at = now;
    let c = credentials(room, &participant);
    Ok(c)
}

/// Something that happened in a room, published to its members.
#[derive(Debug)]
pub enum RoomEvent {
    ParticipantConnection { participant_id: PlayerId, connected: bool },
    Ready { participant_id: PlayerId, ready: bool },
    SeatChanged { participant_id: PlayerId, from_seat: Option<Seat>, to_seat: Seat },
    MatchStarted { round_number: u32, level_rank: OrdinaryRank },
    RoundFinished { result: RoundResult, team_levels: [OrdinaryRank; 2] },
    MatchFinished { winner_team: Team },
    TributeCompleted {
        kind: TributeKind,
        contributions: Vec<(Seat, Card)>,
        returns: Vec<(Seat, Card)>,
        leader_seat: Option<Seat>,
    },
    RoundStarted { round_number: u32, level_rank: OrdinaryRank, phase: RoundPhase },
    MatchAborted { by: PlayerId },
}

impl RoomEvent {
    /// The name under which the event is published.
    pub fn event_type(&self) -> (name: &'static str)
        ensures
            name@ == event_name(*self),
    {
        match self {
            RoomEvent::ParticipantConnection { .. } => "participant.connection",
            RoomEvent::Ready { .. } => "room.ready",
            RoomEvent::SeatChanged { .. } => "room.seat_changed",
            RoomEvent::MatchStarted { .. } => "match.started",
            RoomEvent::RoundFinished { .. } => "round.finished",
            RoomEvent::MatchFinished { .. } => "match.finished",
            RoomEvent::TributeCompleted { .. } => "tribute.completed",
            RoomEvent::RoundStarted { .. } => "round.started",
            RoomEvent::MatchAborted { .. } => "match.aborted",
        }
    }
}

/// The published name of each kind of event.
pub open spec fn event_name(e: RoomEvent) -> Seq<char> {
    match e {
        RoomEvent::ParticipantConnection { .. } => "participant.connection"@,
        RoomEvent::Ready { .. } => "room.ready"@,
        RoomEvent::SeatChanged { .. } => "room.seat_changed"@,
        RoomEvent::MatchStarted { .. } => "match.started"@,
        RoomEvent::RoundFinished { .. } => "round.finished"@,
        RoomEvent::MatchFinished { .. } => "match.finished"@,
        RoomEvent::TributeCompleted { .. } => "tribute.completed"@,
        RoomEvent::RoundStarted { .. } => "round.started"@,
        RoomEvent::MatchAborted { .. } => "match.aborted"@,
    }
}

/// The error for an id or token that does not match a participant of the room.
fn invalid_credentials() -> (e: RuleError)
    ensures
        e.code@ == "INVALID_CREDENTIALS"@,
{
    RuleError::new("INVALID_CREDENTIALS", "房间身份凭证无效")
}

/// The room has a participant with the id and token.
pub open spec fn credentials_match(room: RoomState, participant_id: Seq<char>, reconnect_token: Seq<char>) -> bool {
    member(room, participant_id) matches Some(p) && p.reconnect_token@ == reconnect_token
}

/// Checks a participant's id and reconnect token and returns the room's instance id.
pub fn authenticate(room: &RoomState, participant_id: &str, reconnect_token: &str) -> (r: Result<Uuid, RuleError>)
    ensures
        r is Ok <==> credentials_match(*room, participant_id@, reconnect_token@),
        r matches Ok(id) ==> id == room.instance_id,
        r matches Err(e) ==> e.code@ == "INVALID_CREDENTIALS"@,
{
    match participant_map_get(&room.participants, participant_id) {
        Some(participant) => {
            if str_eq(participant.reconnect_token.as_str(), reconnect_token) {
                Ok(room.instance_id)
            } else {
                Err(invalid_credentials())
            }
        },
        None => Err(invalid_credentials()),
    }
}

/// The characters of each socket id, in order.
pub open spec fn socket_views(p: Participant) -> Seq<Seq<char>> {
    id_views(p.socket_ids@)
}

fn socket_position(ids: &Vec<String>, socket_id: &str) -> (r: Option<usize>)
    ensures
        match r {
            Some(i) => i == elem_index(id_views(ids@), socket_id@) && i < ids@.len(),
            None => !id_views(ids@).contains(socket_id@),
        },
{
    proof {
        lemma_elem_index(id_views(ids@), socket_id@);
    }
    let mut i: usize = 0;
    while i < ids.len()
        invariant
            i <= ids@.len(),
            forall|j: int| 0 <= j < i ==> id_views(ids@)[j] != socket_id@,
            -1 <= elem_index(id_views(ids@), socket_id@) < ids@.len(),
            elem_index(id_views(ids@), socket_id@) >= 0 ==> id_views(ids@)[elem_index(id_views(ids@), socket_id@)]
                == socket_id@,
            elem_index(id_views(ids@), socket_id@) >= 0 ==> forall|j: int|
                0 <= j < elem_index(id_views(ids@), socket_id@) ==> id_views(ids@)[j] != socket_id@,
            elem_index(id_views(ids@), socket_id@) < 0 ==> !id_views(ids@).contains(socket_id@),
        decreases ids@.len() - i,
    {
        if str_eq(ids[i].as_str(), socket_id) {
            assert(id_views(ids@)[i as int] == socket_id@);
            return Some(i);
        }
        i = i + 1;
    }
    None
}

/// The room is unchanged but for its participants and its last activity.
pub open spec fn same_but_members(old: RoomState, new: RoomState) -> bool {
    &&& new.instance_id == old.instance_id
    &&& new.code == old.code
    &&& new.phase == old.phase
    &&& new.host_id == old.host_id
    &&& new.seats == old.seats
    &&& new.match_state == old.match_state
    &&& new.version == old.version
    &&& new.processed_commands == old.processed_commands
}

/// `q` is `p` with other connections and time of disconnection.
pub open spec fn same_but_connection(p: Participant, q: Participant) -> bool {
    &&& q.id == p.id
    &&& q.display_name == p.display_name
    &&& q.reconnect_token == p.reconnect_token
    &&& q.role == p.role
    &&& q.seat == p.seat
    &&& q.ready == p.ready
    &&& q.joined_at == p.joined_at
}

/// The members are those of `old` with the entry of `id` replaced by `q`.
pub open spec fn member_replaced(old: RoomState, new: RoomState, id: Seq<char>, q: Participant) -> bool {
    members(new) == members(old).update(key_index(members(old), id), (id, q))
}

/// The event that a participant's connection state changed.
pub open spec fn connection_event(e: RoomEvent, participant_id: Seq<char>, connected: bool) -> bool {
    match e {
        RoomEvent::ParticipantConnection { participant_id: id, connected: c } => id@ == participant_id && c == connected,
        _ => false,
    }
}

/// The code that refuses to connect a socket, or `None`.
pub open spec fn connect_rejection(room: RoomState, participant_id: Seq<char>, reconnect_token: Seq<char>, socket_id: Seq<char>) -> Option<Seq<char>> {
    match member(room, participant_id) {
        None => Some("INVALID_CREDENTIALS"@),
        Some(p) => if p.reconnect_token@ != reconnect_token {
            Some("INVALID_CREDENTIALS"@)
        } else if !socket_views(p).contains(socket_id) && p.socket_ids@.len() >= 8 {
            Some("TOO_MANY_CONNECTIONS"@)
        } else {
            None
        },
    }
}

/// The effect of `connect_socket`.
pub open spec fn connect_effect(
    old: RoomState,
    participant_id: Seq<char>,
    reconnect_token: Seq<char>,
    socket_id: Seq<char>,
    now: u64,
    new: RoomState,
    r: Result<Vec<RoomEvent>, RuleError>,
) -> bool {
    match connect_rejection(old, participant_id, reconnect_token, socket_id) {
        Some(code) => r matches Err(e) && e.code@ == code && new == old,
        None => {
            let p = member(old, participant_id)->0;
            let q = member(new, participant_id)->0;
            &&& member_replaced(old, new, participant_id, q)
            &&& same_but_members(old, new)
            &&& new.last_activity_at == now
            &&& same_but_connection(p, q)
            &&& socket_views(q) == if socket_views(p).contains(socket_id) {
                socket_views(p)
            } else {
                socket_views(p).push(socket_id)
            }
            &&& q.disconnected_at is None
            &&& r matches Ok(events) && events@.len() == (if is_connected(p) { 0int } else { 1int }) && (
            !is_connected(p) ==> connection_event(events@[0], participant_id, true))
        },
    }
}

/// Registers a live connection of a participant, who must present the right token and
/// may hold at most 8 connections. A participant who was not connected becomes
/// connected, which is published.
pub fn connect_socket(room: &mut RoomState, participant_id: &str, reconnect_token: &str, socket_id: &str, now: u64) -> (r: Result<Vec<RoomEvent>, RuleError>)
    ensures
        connect_effect(*old(room), participant_id@, reconnect_token@, socket_id@, now, *final(room), r),
        room_wf(*old(room)) ==> room_wf(*final(room)),
{
    let ghost before = members(*room);
    proof {
        lemma_key_index(before, participant_id@);
    }
    let (position, was_connected) = match participant_map_get(&room.participants, participant_id) {
        Some(participant) => {
            if !str_eq(participant.reconnect_token.as_str(), reconnect_token) {
                return Err(invalid_credentials());
            }
            let position = socket_position(&participant.socket_ids, socket_id);
            if position.is_none() && participant.socket_ids.len() >= 8 {
                return Err(RuleError::new("TOO_MANY_CONNECTIONS", "同一房间身份的连接数量过多"));
            }
            (position, participant.connected())
        },
        None => {
            return Err(invalid_credentials());
        },
    };
    let participant = match participant_map_get_mut(&mut room.participants, participant_id) {
        Some(p) => p,
        None => vstd::pervasive::unreached(),
    };
    proof {
        lemma_update_at_key(before, participant_id@, *final(participant));
    }
    if position.is_none() {
        participant.socket_ids.push(socket_id.to_owned());
        proof {
            assert(id_views(participant.socket_ids@) =~= socket_views(member(*old(room), participant_id@)->0).push(socket_id@));
        }
    }
    participant.disconnected_at = None;
    let became_connected = !was_connected && participant.connected();
    room.last_activity_at = now;
    let mut events: Vec<RoomEvent> = Vec::new();
    if became_connected {
        events.push(RoomEvent::ParticipantConnection { participant_id: participant_id.to_owned(), connected: true });
    }
    proof {
        lemma_elem_index(socket_views(member(*old(room), participant_id@)->0), socket_id@);
    }
    Ok(events)
}

/// The participant is in the room and has the socket registered.
pub open spec fn socket_registered(room: RoomState, participant_id: Seq<char>, socket_id: Seq<char>) -> bool {
    member(room, participant_id) matches Some(p) && socket_views(p).contains(socket_id)
}

/// Whether the participant is in the room with the socket registered.
pub fn is_socket_registered(room: &RoomState, participant_id: &str, socket_id: &str) -> (b: bool)
    ensures
        b == socket_registered(*room, participant_id@, socket_id@),
{
    match participant_map_get(&room.participants, participant_id) {
        Some(participant) => {
            proof {
                lemma_elem_index(socket_views(*participant), socket_id@);
            }
            socket_position(&participant.socket_ids, socket_id).is_some()
        },
        None => false,
    }
}

/// The effect of `disconnect_socket`.
pub open spec fn disconnect_effect(
    old: RoomState,
    participant_id: Seq<char>,
    socket_id: Seq<char>,
    now: u64,
    new: RoomState,
    r: Option<Vec<RoomEvent>>,
) -> bool {
    if !socket_registered(old, participant_id, socket_id) {
        r is None && new == old
    } else {
        let p = member(old, participant_id)->0;
        let q = member(new, participant_id)->0;
        &&& member_replaced(old, new, participant_id, q)
        &&& same_but_members(old, new)
        &&& new.last_activity_at == now
        &&& same_but_connection(p, q)
        &&& socket_views(q) == socket_views(p).remove(elem_index(socket_views(p), socket_id))
        &&& q.disconnected_at == if is_connected(q) { p.disconnected_at } else { Some(now) }
        &&& r matches Some(events) && events@.len() == (if is_connected(q) { 0int } else { 1int }) && (
        !is_connected(q) ==> connection_event(events@[0], participant_id, false))
    }
}

/// Drops a registered connection of a participant. Nothing changes, and `None` is
/// returned, unless the socket is registered. A participant left without connections
/// counts as disconnected from `now`, which is published.
pub fn disconnect_socket(room: &mut RoomState, participant_id: &str, socket_id: &str, now: u64) -> (r: Option<Vec<RoomEvent>>)
    ensures
        disconnect_effect(*old(room), participant_id@, socket_id@, now, *final(room), r),
        room_wf(*old(room)) ==> room_wf(*final(room)),
{
    let ghost before = members(*room);
    proof {
        lemma_key_index(before, participant_id@);
    }
    let position = match participant_map_get(&room.participants, participant_id) {
        Some(participant) => {
            proof {
                lemma_elem_index(socket_views(*participant), socket_id@);
            }
            match socket_position(&participant.socket_ids, socket_id) {
                Some(i) => i,
                None => {
                    return None;
                },
            }
        },
        None => {
            return None;
        },
    };
    let participant = match participant_map_get_mut(&mut room.participants, participant_id) {
        Some(p) => p,
        None => vstd::pervasive::unreached(),
    };
    proof {
        lemma_update_at_key(before, participant_id@, *final(participant));
    }
    let ghost old_ids = participant.socket_ids@;
    participant.socket_ids.remove(position);
    proof {
        assert(id_views(participant.socket_ids@) =~= id_views(old_ids).remove(position as int));
    }
    let connected = participant.connected();
    if !connected {
        participant.disconnected_at = Some(now);
    }
    room.last_activity_at = now;
    let mut events: Vec<RoomEvent> = Vec::new();
    if !connected {
        events.push(RoomEvent::ParticipantConnection { participant_id: participant_id.to_owned(), connected: false });
    }
    Some(events)
}

/// Every seat is taken by a participant of the room with a live connection.
pub open spec fn all_players_connected(room: RoomState) -> bool {
    forall|i: int|
        0 <= i < 4 ==> (#[trigger] room.seats[i] matches Some(id) && member(room, id@) matches Some(p)
            && is_connected(p))
}

/// Refuses to go on while a seat is empty or its player has no live connection.
pub fn require_all_players_connected(room: &RoomState) -> (r: Result<(), RuleError>)
    ensures
        r is Ok <==> all_players_connected(*room),
        r matches Err(e) ==> e.code@ == "GAME_PAUSED_FOR_RECONNECT"@,
{
    let mut i: usize = 0;
    while i < 4
        invariant
            i <= 4,
            forall|j: int|
                0 <= j < i ==> (#[trigger] room.seats[j] matches Some(id) && member(*room, id@) matches Some(p)
                    && is_connected(p)),
        decreases 4 - i,
    {
        let connected = match &room.seats[i] {
            Some(id) => match participant_map_get(&room.participants, id.as_str()) {
                Some(participant) => participant.connected(),
                None => false,
            },
            None => false,
        };
        if !connected {
            return Err(RuleError::new("GAME_PAUSED_FOR_RECONNECT", "有玩家断线，游戏暂时无法继续"));
        }
        i = i + 1;
    }
    Ok(())
}

/// The code that refuses an action reserved to the host, or `None`.
pub open spec fn host_rejection(room: RoomState, participant_id: Seq<char>) -> Option<Seq<char>> {
    if room.host_id@ != participant_id {
        Some("HOST_ONLY"@)
    } else {
        None
    }
}

/// Refuses an action of anyone but the host.
pub fn require_host(room: &RoomState, participant_id: &str) -> (r: Result<(), RuleError>)
    ensures
        r is Ok <==> room.host_id@ == participant_id@,
        r matches Err(e) ==> e.code@ == "HOST_ONLY"@,
{
    if !str_eq(room.host_id.as_str(), participant_id) {
        return Err(RuleError::new("HOST_ONLY", "只有房主可以执行此操作"));
    }
    Ok(())
}

fn participant_not_found() -> (e: RuleError)
    ensures
        e.code@ == "PARTICIPANT_NOT_FOUND"@,
{
    RuleError::new("PARTICIPANT_NOT_FOUND", "参与者不在房间中")
}

/// Looks a participant up by id.
pub fn participant<'a>(room: &'a RoomState, participant_id: &str) -> (r: Result<&'a Participant, RuleError>)
    ensures
        match member(*room, participant_id@) {
            Some(p) => r matches Ok(q) && *q == p,
            None => r matches Err(e) && e.code@ == "PARTICIPANT_NOT_FOUND"@,
        },
{
    match participant_map_get(&room.participants, participant_id) {
        Some(p) => Ok(p),
        None => Err(participant_not_found()),
    }
}

/// The code that refuses a player's action by this participant, or `None`: the
/// participant must be in the room, as a player with a seat.
pub open spec fn player_rejection(room: RoomState, participant_id: Seq<char>) -> Option<Seq<char>> {
    match member(room, participant_id) {
        None => Some("PARTICIPANT_NOT_FOUND"@),
        Some(p) => if p.role != ParticipantRole::Player || p.seat is None {
            Some("SPECTATOR_CANNOT_PLAY"@)
        } else {
            None
        },
    }
}

/// The seat of a participant that `player_rejection` lets through.
pub open spec fn seat_of(room: RoomState, participant_id: Seq<char>) -> Seat {
    member(room, participant_id)->0.seat->0
}

/// Looks up a participant who plays from a seat.
pub fn seated_player<'a>(room: &'a RoomState, participant_id: &str) -> (r: Result<&'a Participant, RuleError>)
    ensures
        match player_rejection(*room, participant_id@) {
            Some(code) => r matches Err(e) && e.code@ == code,
            None => r matches Ok(q) && *q == member(*room, participant_id@)->0,
        },
{
    let participant = match participant(room, participant_id) {
        Ok(p) => p,
        Err(e) => {
            return Err(e);
        },
    };
    if participant.role != ParticipantRole::Player || participant.seat.is_none() {
        return Err(RuleError::new("SPECTATOR_CANNOT_PLAY", "旁观者不能执行玩家操作"));
    }
    Ok(participant)
}

/// The code that refuses a player's move in the match, or `None`: every seat must be
/// connected, the participant must play from a seat, and a match must be on.
pub open spec fn player_action_rejection(room: RoomState, participant_id: Seq<char>) -> Option<Seq<char>> {
    if !all_players_connected(room) {
        Some("GAME_PAUSED_FOR_RECONNECT"@)
    } else if player_rejection(room, participant_id) is Some {
        player_rejection(room, participant_id)
    } else if room.match_state is None {
        Some("NO_ACTIVE_MATCH"@)
    } else {
        None
    }
}

fn no_active_match() -> (e: RuleError)
    ensures
        e.code@ == "NO_ACTIVE_MATCH"@,
{
    RuleError::new("NO_ACTIVE_MATCH", "当前没有进行中的一局牌")
}

fn player_seat(room: &RoomState, participant_id: &str) -> (r: Result<Seat, RuleError>)
    ensures
        match player_action_rejection(*room, participant_id@) {
            Some(code) => r matches Err(e) && e.code@ == code,
            None => r == Ok::<Seat, RuleError>(seat_of(*room, participant_id@)),
        },
{
    match require_all_players_connected(room) {
        Ok(()) => {},
        Err(e) => {
            return Err(e);
        },
    }
    let seat = match seated_player(room, participant_id) {
        Ok(p) => match p.seat {
            Some(s) => s,
            None => vstd::pervasive::unreached(),
        },
        Err(e) => {
            return Err(e);
        },
    };
    if room.match_state.is_none() {
        return Err(no_active_match());
    }
    Ok(seat)
}

/// `q` is `p` with the given role, seat and readiness.
pub open spec fn participant_with(p: Participant, q: Participant, role: ParticipantRole, seat: Option<Seat>, ready: bool) -> bool {
    &&& q.id == p.id
    &&& q.display_name == p.display_name
    &&& q.reconnect_token == p.reconnect_token
    &&& q.role == role
    &&& q.seat == seat
    &&& q.ready == ready
    &&& q.socket_ids@ == p.socket_ids@
    &&& q.disconnected_at == p.disconnected_at
    &&& q.joined_at == p.joined_at
}

/// The match is over and the room back in the lobby, every participant no longer ready;
/// nothing else changed.
pub open spec fn match_reset(old: RoomState, new: RoomState) -> bool {
    &&& new.match_state is None
    &&& new.phase == RoomPhase::Lobby
    &&& members(new).len() == members(old).len()
    &&& forall|i: int|
        0 <= i < members(old).len() ==> #[trigger] members(new)[i].0 == members(old)[i].0 && participant_with(
            members(old)[i].1,
            members(new)[i].1,
            members(old)[i].1.role,
            members(old)[i].1.seat,
            false,
        )
    &&& new.instance_id == old.instance_id
    &&& new.code == old.code
    &&& new.host_id == old.host_id
    &&& new.seats == old.seats
    &&& new.version == old.version
    &&& new.last_activity_at == old.last_activity_at
    &&& new.processed_commands == old.processed_commands
}

/// Ends the match: the room goes back to the lobby and every participant must ready
/// again.
pub fn reset_match(room: &mut RoomState)
    ensures
        match_reset(*old(room), *final(room)),
        room_wf(*old(room)) ==> room_wf(*final(room)),
{
    room.match_state = None;
    room.phase = RoomPhase::Lobby;
    let n = participant_map_len(&room.participants);
    let mut i: usize = 0;
    while i < n
        invariant
            i <= n,
            n == members(*old(room)).len(),
            members(*room).len() == n,
            room.match_state is None,
            room.phase == RoomPhase::Lobby,
            room.instance_id == old(room).instance_id,
            room.code == old(room).code,
            room.host_id == old(room).host_id,
            room.seats == old(room).seats,
            room.version == old(room).version,
            room.last_activity_at == old(room).last_activity_at,
            room.processed_commands == old(room).processed_commands,
            forall|j: int| 0 <= j < n ==> #[trigger] members(*room)[j].0 == members(*old(room))[j].0,
            forall|j: int|
                0 <= j < i ==> participant_with(
                    #[trigger] members(*old(room))[j].1,
                    members(*room)[j].1,
                    members(*old(room))[j].1.role,
                    members(*old(room))[j].1.seat,
                    false,
                ),
            forall|j: int| i <= j < n ==> #[trigger] members(*room)[j].1 == members(*old(room))[j].1,
        decreases n - i,
    {
        let participant = participant_map_index_mut(&mut room.participants, i);
        participant.ready = false;
        i = i + 1;
    }
    proof {
        assert forall|j: int| 0 <= j < n implies socket_views((#[trigger] members(*room)[j]).1) == socket_views(
            members(*old(room))[j].1,
        ) by {
            assert(members(*room)[j].1.socket_ids@ == members(*old(room))[j].1.socket_ids@);
        }
    }
}

fn match_already_started() -> (e: RuleError)
    ensures
        e.code@ == "MATCH_ALREADY_STARTED"@,
{
    RuleError::new("MATCH_ALREADY_STARTED", "一局牌已经开始")
}

/// The room is unchanged but for the entry of `participant_id`, which becomes `q`.
pub open spec fn only_member_changed(old: RoomState, new: RoomState, participant_id: Seq<char>, q: Participant) -> bool {
    &&& member_replaced(old, new, participant_id, q)
    &&& same_but_members(old, new)
    &&& new.last_activity_at == old.last_activity_at
}

/// The code that refuses `set_ready`, or `None`.
pub open spec fn ready_rejection(room: RoomState, participant_id: Seq<char>) -> Option<Seq<char>> {
    if room.phase != RoomPhase::Lobby {
        Some("MATCH_ALREADY_STARTED"@)
    } else {
        player_rejection(room, participant_id)
    }
}

/// The effect of `set_ready`.
pub open spec fn ready_effect(old: RoomState, participant_id: Seq<char>, ready: bool, new: RoomState, r: Result<Vec<RoomEvent>, RuleError>) -> bool {
    match ready_rejection(old, participant_id) {
        Some(code) => r matches Err(e) && e.code@ == code && new == old,
        None => {
            let p = member(old, participant_id)->0;
            let q = member(new, participant_id)->0;
            &&& only_member_changed(old, new, participant_id, q)
            &&& participant_with(p, q, p.role, p.seat, ready)
            &&& r matches Ok(events) && events@.len() == 1 && (events@[0] matches RoomEvent::Ready {
                participant_id: id,
                ready: rd,
            } && id@ == participant_id && rd == ready)
        },
    }
}

/// A seated player in the lobby marks themself ready or not ready.
pub fn set_ready(room: &mut RoomState, participant_id: &str, ready: bool) -> (r: Result<Vec<RoomEvent>, RuleError>)
    ensures
        ready_effect(*old(room), participant_id@, ready, *final(room), r),
        room_wf(*old(room)) ==> room_wf(*final(room)),
{
    if room.phase != RoomPhase::Lobby {
        return Err(match_already_started());
    }
    match seated_player(room, participant_id) {
        Ok(_) => {},
        Err(e) => {
            return Err(e);
        },
    }
    let ghost before = members(*room);
    proof {
        lemma_key_index(before, participant_id@);
    }
    let player = match participant_map_get_mut(&mut room.participants, participant_id) {
        Some(p) => p,
        None => vstd::pervasive::unreached(),
    };
    proof {
        lemma_update_at_key(before, participant_id@, *final(player));
    }
    player.ready = ready;
    let mut events: Vec<RoomEvent> = Vec::new();
    events.push(RoomEvent::Ready { participant_id: participant_id.to_owned(), ready });
    Ok(events)
}

/// The code that refuses `change_seat`, or `None`.
pub open spec fn seat_change_rejection(room: RoomState, participant_id: Seq<char>, target: Seat) -> Option<Seq<char>> {
    if room.phase != RoomPhase::Lobby {
        Some("MATCH_ALREADY_STARTED"@)
    } else if member(room, participant_id) is None {
        Some("PARTICIPANT_NOT_FOUND"@)
    } else if member(room, participant_id)->0.seat == Some(target) {
        Some("SEAT_UNCHANGED"@)
    } else if room.seats[target@] is Some {
        Some("SEAT_OCCUPIED"@)
    } else {
        None
    }
}

/// The effect of `change_seat`.
pub open spec fn seat_change_effect(old: RoomState, participant_id: Seq<char>, target: Seat, new: RoomState, r: Result<Vec<RoomEvent>, RuleError>) -> bool {
    match seat_change_rejection(old, participant_id, target) {
        Some(code) => r matches Err(e) && e.code@ == code && new == old,
        None => {
            let p = member(old, participant_id)->0;
            let q = member(new, participant_id)->0;
            let cleared = match p.seat {
                Some(s) => old.seats@.update(s@, None),
                None => old.seats@,
            };
            &&& member_replaced(old, new, participant_id, q)
            &&& participant_with(p, q, ParticipantRole::Player, Some(target), false)
            &&& new.seats@.len() == 4
            &&& new.seats@ == cleared.update(target@, new.seats[target@])
            &&& new.seats[target@] matches Some(id) && id@ == participant_id
            &&& new.instance_id == old.instance_id
            &&& new.code == old.code
            &&& new.phase == old.phase
            &&& new.host_id == old.host_id
            &&& new.match_state == old.match_state
            &&& new.version == old.version
            &&& new.last_activity_at == old.last_activity_at
            &&& new.processed_commands == old.processed_commands
            &&& r matches Ok(events) && events@.len() == 1 && (events@[0] matches RoomEvent::SeatChanged {
                participant_id: id,
                from_seat: from,
                to_seat: to,
            } && id@ == participant_id && from == p.seat && to == target)
        },
    }
}

/// In the lobby, a participant (player or spectator) moves to an empty seat and
/// becomes a player who must ready again; the seat they held is freed.
pub fn change_seat(room: &mut RoomState, participant_id: &str, target_seat: Seat) -> (r: Result<Vec<RoomEvent>, RuleError>)
    ensures
        seat_change_effect(*old(room), participant_id@, target_seat, *final(room), r),
        room_wf(*old(room)) ==> room_wf(*final(room)),
{
    if room.phase != RoomPhase::Lobby {
        return Err(match_already_started());
    }
    let previous_seat = match participant(room, participant_id) {
        Ok(p) => p.seat,
        Err(e) => {
            return Err(e);
        },
    };
    let unchanged = match previous_seat {
        Some(s) => s == target_seat,
        None => false,
    };
    if unchanged {
        return Err(RuleError::new("SEAT_UNCHANGED", "玩家已在该座位"));
    }
    if room.seats[target_seat.index()].is_some() {
        return Err(RuleError::new("SEAT_OCCUPIED", "该座位已被其他玩家占用"));
    }
    match previous_seat {
        Some(s) => {
            room.seats[s.index()] = None;
        },
        None => {},
    }
    room.seats[target_seat.index()] = Some(participant_id.to_owned());
    let ghost before = members(*room);
    proof {
        lemma_key_index(before, participant_id@);
    }
    let moved = match participant_map_get_mut(&mut room.participants, participant_id) {
        Some(p) => p,
        None => vstd::pervasive::unreached(),
    };
    proof {
        lemma_update_at_key(before, participant_id@, *final(moved));
    }
    moved.role = ParticipantRole::Player;
    moved.seat = Some(target_seat);
    moved.ready = false;
    let mut events: Vec<RoomEvent> = Vec::new();
    events.push(RoomEvent::SeatChanged { participant_id: participant_id.to_owned(), from_seat: previous_seat, to_seat: target_seat });
    Ok(events)
}

/// Every seat is taken by a participant of the room who is ready.
pub open spec fn all_ready(room: RoomState) -> bool {
    forall|i: int|
        0 <= i < 4 ==> (#[trigger] room.seats[i] matches Some(id) && member(room, id@) matches Some(p) && p.ready)
}

/// The code that refuses `start_match`, or `None`.
pub open spec fn start_rejection(room: RoomState, participant_id: Seq<char>) -> Option<Seq<char>> {
    if host_rejection(room, participant_id) is Some {
        host_rejection(room, participant_id)
    } else if room.phase != RoomPhase::Lobby {
        Some("MATCH_ALREADY_STARTED"@)
    } else if exists|i: int| 0 <= i < 4 && (#[trigger] room.seats[i]) is None {
        Some("SEATS_NOT_FULL"@)
    } else if !all_players_connected(room) {
        Some("GAME_PAUSED_FOR_RECONNECT"@)
    } else if !all_ready(room) {
        Some("PLAYERS_NOT_READY"@)
    } else {
        None
    }
}

/// The room with `m` as its match.
pub open spec fn with_match(room: RoomState, m: MatchState) -> RoomState {
    RoomState { match_state: Some(m), ..room }
}

/// The effect of `start_match`.
pub open spec fn start_effect(old: RoomState, participant_id: Seq<char>, new: RoomState, r: Result<Vec<RoomEvent>, RuleError>) -> bool {
    match start_rejection(old, participant_id) {
        Some(code) => r matches Err(e) && e.code@ == code && new == old,
        None => {
            &&& new.match_state matches Some(m) && new_match(m)
            &&& new == (RoomState { match_state: new.match_state, phase: RoomPhase::Playing, ..old })
            &&& r matches Ok(events) && events@.len() == 1 && (events@[0] matches RoomEvent::MatchStarted {
                round_number: n,
                level_rank: l,
            } && n == 1 && l == OrdinaryRank::Two)
        },
    }
}

/// The host starts a match from the lobby once all four seats are taken by connected,
/// ready players.
#[verifier::loop_isolation(false)]
pub fn start_match(room: &mut RoomState, participant_id: &str) -> (r: Result<Vec<RoomEvent>, RuleError>)
    ensures
        start_effect(*old(room), participant_id@, *final(room), r),
        room_wf(*old(room)) ==> room_wf(*final(room)),
{
    match require_host(room, participant_id) {
        Ok(()) => {},
        Err(e) => {
            return Err(e);
        },
    }
    if room.phase != RoomPhase::Lobby {
        return Err(match_already_started());
    }
    let mut i: usize = 0;
    while i < 4
        invariant
            i <= 4,
            forall|j: int| 0 <= j < i ==> (#[trigger] room.seats[j]) is Some,
        decreases 4 - i,
    {
        if room.seats[i].is_none() {
            assert(room.seats[i as int] is None);
            return Err(RuleError::new("SEATS_NOT_FULL", "必须坐满四名玩家"));
        }
        i = i + 1;
    }
    match require_all_players_connected(room) {
        Ok(()) => {},
        Err(e) => {
            return Err(e);
        },
    }
    let mut i: usize = 0;
    while i < 4
        invariant
            i <= 4,
            forall|j: int|
                0 <= j < i ==> (#[trigger] room.seats[j] matches Some(id) && member(*room, id@) matches Some(p)
                    && p.ready),
        decreases 4 - i,
    {
        let ready = match &room.seats[i] {
            Some(id) => match participant_map_get(&room.participants, id.as_str()) {
                Some(participant) => participant.ready,
                None => false,
            },
            None => false,
        };
        if !ready {
            assert(!(room.seats[i as int] matches Some(id) && member(*room, id@) matches Some(p) && p.ready));
            return Err(RuleError::new("PLAYERS_NOT_READY", "四名玩家必须全部准备"));
        }
        i = i + 1;
    }
    room.match_state = Some(create_match());
    room.phase = RoomPhase::Playing;
    let mut events: Vec<RoomEvent> = Vec::new();
    events.push(RoomEvent::MatchStarted { round_number: 1, level_rank: OrdinaryRank::Two });
    Ok(events)
}

/// The effect of `abort_match`.
pub open spec fn abort_effect(old: RoomState, participant_id: Seq<char>, new: RoomState, r: Result<Vec<RoomEvent>, RuleError>) -> bool {
    if host_rejection(old, participant_id) is Some {
        r matches Err(e) && e.code@ == "HOST_ONLY"@ && new == old
    } else if old.match_state is None {
        r matches Err(e) && e.code@ == "NO_ACTIVE_MATCH"@ && new == old
    } else {
        &&& match_reset(old, new)
        &&& r matches Ok(events) && events@.len() == 1 && (events@[0] matches RoomEvent::MatchAborted { by } && by@
            == participant_id)
    }
}

/// The host abandons the match; the room goes back to the lobby.
pub fn abort_match(room: &mut RoomState, participant_id: &str) -> (r: Result<Vec<RoomEvent>, RuleError>)
    ensures
        abort_effect(*old(room), participant_id@, *final(room), r),
        room_wf(*old(room)) ==> room_wf(*final(room)),
{
    match require_host(room, participant_id) {
        Ok(()) => {},
        Err(e) => {
            return Err(e);
        },
    }
    if room.match_state.is_none() {
        return Err(no_active_match());
    }
    reset_match(room);
    let mut events: Vec<RoomEvent> = Vec::new();
    events.push(RoomEvent::MatchAborted { by: participant_id.to_owned() });
    Ok(events)
}

/// The event that a round finished with the result, the teams now at these levels.
pub open spec fn round_finished_event(e: RoomEvent, result: RoundResult, team_levels: [OrdinaryRank; 2]) -> bool {
    e matches RoomEvent::RoundFinished { result: res, team_levels: levels } && res == result && levels == team_levels
}

/// The room after the match moved to `m2` with the outcome `outcome`: a finished
/// round is published with the teams' levels; a won match is published and the room
/// goes back to the lobby.
pub open spec fn settled_in_room(
    old: RoomState,
    m2: MatchState,
    outcome: MatchActionOutcome,
    new: RoomState,
    r: Result<Vec<RoomEvent>, RuleError>,
) -> bool {
    match outcome.round_result {
        None => new == with_match(old, m2) && (r matches Ok(events) && events@.len() == 0),
        Some(result) => match outcome.match_winner {
            None => new == with_match(old, m2) && (r matches Ok(events) && events@.len() == 1
                && round_finished_event(events@[0], result, m2.team_levels)),
            Some(winner) => {
                &&& match_reset(with_match(old, m2), new)
                &&& r matches Ok(events) && events@.len() == 2 && round_finished_event(
                    events@[0],
                    result,
                    m2.team_levels,
                ) && (events@[1] matches RoomEvent::MatchFinished { winner_team } && winner_team == winner)
            },
        },
    }
}

/// The effect of `play_cards` on the room.
pub open spec fn room_play_effect(
    old: RoomState,
    participant_id: Seq<char>,
    card_ids: Seq<String>,
    decl: Option<CombinationDeclaration>,
    new: RoomState,
    r: Result<Vec<RoomEvent>, RuleError>,
) -> bool {
    match player_action_rejection(old, participant_id) {
        Some(code) => r matches Err(e) && e.code@ == code && new == old,
        None => exists|m2: MatchState, mr: Result<MatchActionOutcome, RuleError>|
            #[trigger] match_play_effect(old.match_state->0, seat_of(old, participant_id), card_ids, decl, m2, mr)
                && match mr {
                Err(e) => r == Err::<Vec<RoomEvent>, RuleError>(e) && new == with_match(old, m2),
                Ok(outcome) => settled_in_room(old, m2, outcome, new, r),
            },
    }
}

/// A seated player plays cards in the match (see `play_match_cards`), while every seat
/// is connected.
pub fn play_cards(
    room: &mut RoomState,
    participant_id: &str,
    card_ids: &[String],
    declaration: Option<&CombinationDeclaration>,
) -> (r: Result<Vec<RoomEvent>, RuleError>)
    ensures
        room_play_effect(*old(room), participant_id@, card_ids@, deref_decl(declaration), *final(room), r),
        room_wf(*old(room)) ==> room_wf(*final(room)),
{
    let seat = match player_seat(room, participant_id) {
        Ok(s) => s,
        Err(e) => {
            return Err(e);
        },
    };
    let played = match &mut room.match_state {
        Some(m) => play_match_cards(m, seat, card_ids, declaration),
        None => vstd::pervasive::unreached(),
    };
    let outcome = match played {
        Ok(o) => o,
        Err(e) => {
            return Err(e);
        },
    };
    let team_levels = match &room.match_state {
        Some(m) => m.team_levels,
        None => vstd::pervasive::unreached(),
    };
    let winner = outcome.match_winner;
    let round_result = match outcome.round_result {
        Some(result) => result,
        None => {
            return Ok(Vec::new());
        },
    };
    let mut events: Vec<RoomEvent> = Vec::new();
    events.push(RoomEvent::RoundFinished { result: round_result, team_levels });
    match winner {
        Some(winner_team) => {
            reset_match(room);
            events.push(RoomEvent::MatchFinished { winner_team });
        },
        None => {},
    }
    Ok(events)
}

/// The round counters that the match actions increment are below their limits: the
/// passes of the current round and the number of the next round.
pub open spec fn counters_below_max(room: RoomState) -> bool {
    room.match_state matches Some(m) ==> {
        &&& m.next_round_number < u32::MAX
        &&& m.current_round matches Some(round) ==> round.consecutive_passes < usize::MAX
    }
}

/// The effect of a pass in the match (see `pass_match_turn`).
pub open spec fn pass_in_match(m: MatchState, seat: Seat, m2: MatchState, r: Result<(), RuleError>) -> bool {
    round_action(m, m2, r, |x: RoundState, y: RoundState, r: Result<(), RuleError>| pass_effect(x, seat, y, r))
}

/// The effect of a tribute card given in the match (see `give_match_tribute`).
pub open spec fn tribute_in_match(m: MatchState, seat: Seat, card_id: Seq<char>, m2: MatchState, r: Result<(), RuleError>) -> bool {
    round_action(
        m,
        m2,
        r,
        |x: RoundState, y: RoundState, r: Result<(), RuleError>| tribute_effect(x, seat, card_id, y, r),
    )
}

/// The room after a silent player action moved the match to `m2` with result `mr`:
/// nothing is published.
pub open spec fn silent_in_room(old: RoomState, m2: MatchState, mr: Result<(), RuleError>, new: RoomState, r: Result<Vec<RoomEvent>, RuleError>) -> bool {
    &&& new == with_match(old, m2)
    &&& match mr {
        Err(e) => r == Err::<Vec<RoomEvent>, RuleError>(e),
        Ok(()) => r matches Ok(events) && events@.len() == 0,
    }
}

/// The effect of `pass` on the room.
pub open spec fn room_pass_effect(old: RoomState, participant_id: Seq<char>, new: RoomState, r: Result<Vec<RoomEvent>, RuleError>) -> bool {
    match player_action_rejection(old, participant_id) {
        Some(code) => r matches Err(e) && e.code@ == code && new == old,
        None => exists|m2: MatchState, mr: Result<(), RuleError>|
            #[trigger] pass_in_match(old.match_state->0, seat_of(old, participant_id), m2, mr) && silent_in_room(
                old,
                m2,
                mr,
                new,
                r,
            ),
    }
}

/// A seated player passes (see `pass_match_turn`), while every seat is connected.
pub fn pass(room: &mut RoomState, participant_id: &str) -> (r: Result<Vec<RoomEvent>, RuleError>)
    requires
        counters_below_max(*old(room)),
    ensures
        room_pass_effect(*old(room), participant_id@, *final(room), r),
        room_wf(*old(room)) ==> room_wf(*final(room)),
{
    let seat = match player_seat(room, participant_id) {
        Ok(s) => s,
        Err(e) => {
            return Err(e);
        },
    };
    let done = match &mut room.match_state {
        Some(m) => pass_match_turn(m, seat),
        None => vstd::pervasive::unreached(),
    };
    proof {
        assert(pass_in_match(old(room).match_state->0, seat, room.match_state->0, done));
    }
    match done {
        Ok(()) => Ok(Vec::new()),
        Err(e) => Err(e),
    }
}

/// The effect of `give_tribute` on the room.
pub open spec fn room_tribute_effect(old: RoomState, participant_id: Seq<char>, card_id: Seq<char>, new: RoomState, r: Result<Vec<RoomEvent>, RuleError>) -> bool {
    match player_action_rejection(old, participant_id) {
        Some(code) => r matches Err(e) && e.code@ == code && new == old,
        None => exists|m2: MatchState, mr: Result<(), RuleError>|
            #[trigger] tribute_in_match(old.match_state->0, seat_of(old, participant_id), card_id, m2, mr)
                && silent_in_room(old, m2, mr, new, r),
    }
}

/// A seated player gives a tribute card (see `give_match_tribute`), while every seat
/// is connected.
pub fn give_tribute(room: &mut RoomState, participant_id: &str, card_id: &str) -> (r: Result<Vec<RoomEvent>, RuleError>)
    ensures
        room_tribute_effect(*old(room), participant_id@, card_id@, *final(room), r),
        room_wf(*old(room)) ==> room_wf(*final(room)),
{
    let seat = match player_seat(room, participant_id) {
        Ok(s) => s,
        Err(e) => {
            return Err(e);
        },
    };
    let done = match &mut room.match_state {
        Some(m) => give_match_tribute(m, seat, card_id),
        None => vstd::pervasive::unreached(),
    };
    proof {
        assert(tribute_in_match(old(room).match_state->0, seat, card_id@, room.match_state->0, done));
    }
    match done {
        Ok(()) => Ok(Vec::new()),
        Err(e) => Err(e),
    }
}

/// The event that the tribute exchange completed.
pub open spec fn tribute_completed_event(e: RoomEvent, t: TributeState) -> bool {
    e matches RoomEvent::TributeCompleted { kind, contributions, returns: given_back, leader_seat } && kind == t.kind
        && contributions@ == seat_card_entries(t.contributions) && given_back@ == seat_card_entries(t.returns)
        && leader_seat == t.leader_seat
}

/// The effect of a return card given in the match (see `return_match_tribute`).
pub open spec fn return_in_match(m: MatchState, seat: Seat, card_id: Seq<char>, m2: MatchState, r: Result<Option<TributeState>, RuleError>) -> bool {
    round_action(
        m,
        m2,
        r,
        |x: RoundState, y: RoundState, r: Result<Option<TributeState>, RuleError>| return_effect(x, seat, card_id, y, r),
    )
}

/// The effect of `return_tribute` on the room.
pub open spec fn room_return_effect(
    old: RoomState,
    participant_id: Seq<char>,
    card_id: Seq<char>,
    new: RoomState,
    r: Result<Vec<RoomEvent>, RuleError>,
) -> bool {
    match player_action_rejection(old, participant_id) {
        Some(code) => r matches Err(e) && e.code@ == code && new == old,
        None => exists|m2: MatchState, mr: Result<Option<TributeState>, RuleError>|
            #[trigger] return_in_match(old.match_state->0, seat_of(old, participant_id), card_id, m2, mr) && new
                == with_match(old, m2) && match mr {
                Err(e) => r == Err::<Vec<RoomEvent>, RuleError>(e),
                Ok(None) => r matches Ok(events) && events@.len() == 0,
                Ok(Some(t)) => r matches Ok(events) && events@.len() == 1 && tribute_completed_event(events@[0], t),
            },
    }
}

/// A seated player gives a return card (see `return_match_tribute`), while every seat
/// is connected; the completed exchange is published.
pub fn return_tribute(room: &mut RoomState, participant_id: &str, card_id: &str) -> (r: Result<Vec<RoomEvent>, RuleError>)
    ensures
        room_return_effect(*old(room), participant_id@, card_id@, *final(room), r),
        room_wf(*old(room)) ==> room_wf(*final(room)),
{
    let seat = match player_seat(room, participant_id) {
        Ok(s) => s,
        Err(e) => {
            return Err(e);
        },
    };
    let done = match &mut room.match_state {
        Some(m) => return_match_tribute(m, seat, card_id),
        None => vstd::pervasive::unreached(),
    };
    proof {
        assert(return_in_match(old(room).match_state->0, seat, card_id@, room.match_state->0, done));
    }
    match done {
        Ok(Some(tribute)) => {
            let mut events: Vec<RoomEvent> = Vec::new();
            events.push(
                RoomEvent::TributeCompleted {
                    kind: tribute.kind,
                    contributions: seat_card_map_to_vec(&tribute.contributions),
                    returns: seat_card_map_to_vec(&tribute.returns),
                    leader_seat: tribute.leader_seat,
                },
            );
            Ok(events)
        },
        Ok(None) => Ok(Vec::new()),
        Err(e) => Err(e),
    }
}

/// The code that refuses `start_next_round` before the match is asked, or `None`.
pub open spec fn next_round_room_rejection(room: RoomState, participant_id: Seq<char>) -> Option<Seq<char>> {
    if host_rejection(room, participant_id) is Some {
        host_rejection(room, participant_id)
    } else if !all_players_connected(room) {
        Some("GAME_PAUSED_FOR_RECONNECT"@)
    } else if room.match_state is None {
        Some("NO_ACTIVE_MATCH"@)
    } else {
        None
    }
}

/// The effect of `start_next_round` on the room.
pub open spec fn room_next_round_effect(old: RoomState, participant_id: Seq<char>, new: RoomState, r: Result<Vec<RoomEvent>, RuleError>) -> bool {
    match next_round_room_rejection(old, participant_id) {
        Some(code) => r matches Err(e) && e.code@ == code && new == old,
        None => exists|m2: MatchState, mr: Result<&RoundState, RuleError>|
            #[trigger] next_round_effect(old.match_state->0, m2, mr) && new == with_match(old, m2) && match mr {
                Err(e) => r == Err::<Vec<RoomEvent>, RuleError>(e),
                Ok(round) => r matches Ok(events) && events@.len() == 1 && (events@[0] matches RoomEvent::RoundStarted {
                    round_number,
                    level_rank,
                    phase,
                } && round_number == round.number && level_rank == round.level_rank && phase == round.phase),
            },
    }
}

/// The host deals the next round of the match (see `start_next_round` of the match),
/// while every seat is connected.
pub fn start_next_round(room: &mut RoomState, participant_id: &str) -> (r: Result<Vec<RoomEvent>, RuleError>)
    requires
        counters_below_max(*old(room)),
    ensures
        room_next_round_effect(*old(room), participant_id@, *final(room), r),
        room_wf(*old(room)) ==> room_wf(*final(room)),
{
    match require_host(room, participant_id) {
        Ok(()) => {},
        Err(e) => {
            return Err(e);
        },
    }
    match require_all_players_connected(room) {
        Ok(()) => {},
        Err(e) => {
            return Err(e);
        },
    }
    let started = match &mut room.match_state {
        Some(m) => match crate::match_state::start_next_round(m) {
            Ok(round) => Ok(RoomEvent::RoundStarted {
                round_number: round.number,
                level_rank: round.level_rank,
                phase: round.phase,
            }),
            Err(e) => Err(e),
        },
        None => {
            return Err(no_active_match());
        },
    };
    match started {
        Ok(event) => {
            let mut events: Vec<RoomEvent> = Vec::new();
            events.push(event);
            Ok(events)
        },
        Err(e) => Err(e),
    }
}

/// A command against a room.
#[derive(Debug)]
pub enum RoomCommand {
    SetReady(bool),
    ChangeSeat(Seat),
    StartMatch,
    PlayCards { card_ids: Vec<String>, declaration: Option<CombinationDeclaration> },
    Pass,
    GiveTribute(String),
    ReturnTribute(String),
    StartNextRound,
    AbortMatch,
}

/// What an executed command gives back: the room's version after it, whether it was a
/// repeat of a processed command, and the events to publish.
#[derive(Debug)]
pub struct CommandOutcome {
    pub version: u64,
    pub duplicate: bool,
    pub events: Vec<RoomEvent>,
}

/// The effect of the command's own operation on the room.
pub open spec fn command_effect(old: RoomState, participant_id: Seq<char>, command: RoomCommand, new: RoomState, r: Result<Vec<RoomEvent>, RuleError>) -> bool {
    match command {
        RoomCommand::SetReady(ready) => ready_effect(old, participant_id, ready, new, r),
        RoomCommand::ChangeSeat(seat) => seat_change_effect(old, participant_id, seat, new, r),
        RoomCommand::StartMatch => start_effect(old, participant_id, new, r),
        RoomCommand::PlayCards { card_ids, declaration } => room_play_effect(
            old,
            participant_id,
            card_ids@,
            declaration,
            new,
            r,
        ),
        RoomCommand::Pass => room_pass_effect(old, participant_id, new, r),
        RoomCommand::GiveTribute(card_id) => room_tribute_effect(old, participant_id, card_id@, new, r),
        RoomCommand::ReturnTribute(card_id) => room_return_effect(old, participant_id, card_id@, new, r),
        RoomCommand::StartNextRound => room_next_round_effect(old, participant_id, new, r),
        RoomCommand::AbortMatch => abort_effect(old, participant_id, new, r),
    }
}

/// The key under which a command is remembered: participant id, a colon, action id.
pub open spec fn command_key(participant_id: Seq<char>, action_id: Seq<char>) -> Seq<char> {
    participant_id + ":"@ + action_id
}

/// The last `n` entries, or all when there are fewer.
pub open spec fn keep_last<A>(s: Seq<A>, n: int) -> Seq<A> {
    if s.len() > n {
        s.subrange(s.len() - n, s.len() as int)
    } else {
        s
    }
}

/// The commit of a command that succeeded: the version moves on, the room counts as
/// active at `now`, and the command is remembered with the new version among the last
/// 500 processed commands.
pub open spec fn committed(mid: RoomState, new: RoomState, key: Seq<char>, now: u64) -> bool {
    &&& new == (RoomState {
        version: (mid.version + 1) as u64,
        last_activity_at: now,
        processed_commands: new.processed_commands,
        ..mid
    })
    &&& processed_entries(new.processed_commands) == keep_last(
        insert_entry(processed_entries(mid.processed_commands), key, (mid.version + 1) as u64),
        500,
    )
}

/// The effect of `execute`.
pub open spec fn execute_effect(old: RoomState, command: CommandContext, now: u64, action: RoomCommand, new: RoomState, r: Result<CommandOutcome, RuleError>) -> bool {
    let key = command_key(command.participant_id@, command.action_id@);
    match lookup(processed_entries(old.processed_commands), key) {
        Some(version) => r matches Ok(o) && o.version == version && o.duplicate && o.events@.len() == 0 && new == old,
        None => if old.version != command.expected_version {
            &&& r matches Err(e) && e.code@ == "STALE_STATE"@ && e.details == Some(
                ErrorDetails::ExpectedVersion(old.version),
            )
            &&& new == old
        } else {
            exists|mid: RoomState, events: Result<Vec<RoomEvent>, RuleError>|
                #[trigger] command_effect(old, command.participant_id@, action, mid, events) && match events {
                    Err(e) => r == Err::<CommandOutcome, RuleError>(e) && new == mid,
                    Ok(events) => {
                        &&& r matches Ok(o) && o.version == old.version + 1 && !o.duplicate && o.events == events
                        &&& committed(mid, new, key, now)
                    },
                }
        },
    }
}

/// Runs a participant's command against the room. A command already processed under
/// the same participant and action id is answered with the version it produced and
/// changes nothing, even against a stale version. Otherwise the command must be made
/// against the room's current version; its operation runs, and when it succeeds the
/// version moves on and the command is remembered (see `committed`).
pub fn execute(room: &mut RoomState, command: &CommandContext, now: u64, action: RoomCommand) -> (r: Result<CommandOutcome, RuleError>)
    requires
        old(room).version < u64::MAX,
        counters_below_max(*old(room)),
    ensures
        execute_effect(*old(room), *command, now, action, *final(room), r),
        room_wf(*old(room)) ==> room_wf(*final(room)),
{
    let mut key = String::from_str(command.participant_id.as_str());
    key.append(":");
    key.append(command.action_id.as_str());
    proof {
        reveal_strlit(":");
    }
    match processed_map_get(&room.processed_commands, key.as_str()) {
        Some(version) => {
            return Ok(CommandOutcome { version, duplicate: true, events: Vec::new() });
        },
        None => {},
    }
    if room.version != command.expected_version {
        return Err(
            RuleError::new("STALE_STATE", "客户端状态已经过期，请先同步最新房间状态").with_details(
                ErrorDetails::ExpectedVersion(room.version),
            ),
        );
    }
    let participant_id = command.participant_id.as_str();
    let ghost before = *room;
    let operated = match action {
        RoomCommand::SetReady(ready) => set_ready(room, participant_id, ready),
        RoomCommand::ChangeSeat(seat) => change_seat(room, participant_id, seat),
        RoomCommand::StartMatch => start_match(room, participant_id),
        RoomCommand::PlayCards { card_ids, declaration } => {
            let declared = match &declaration {
                Some(d) => Some(d),
                None => None,
            };
            play_cards(room, participant_id, card_ids.as_slice(), declared)
        },
        RoomCommand::Pass => pass(room, participant_id),
        RoomCommand::GiveTribute(card_id) => give_tribute(room, participant_id, card_id.as_str()),
        RoomCommand::ReturnTribute(card_id) => return_tribute(room, participant_id, card_id.as_str()),
        RoomCommand::StartNextRound => start_next_round(room, participant_id),
        RoomCommand::AbortMatch => abort_match(room, participant_id),
    };
    proof {
        assert(command_effect(before, command.participant_id@, action, *room, operated));
    }
    let events = match operated {
        Ok(events) => events,
        Err(e) => {
            return Err(e);
        },
    };
    room.version = room.version + 1;
    room.last_activity_at = now;
    let ghost inserted = insert_entry(processed_entries(room.processed_commands), key@, room.version);
    processed_map_insert(&mut room.processed_commands, key, room.version);
    let ghost recorded = *room;
    let ghost mut dropped: int = 0;
    while processed_map_len(&room.processed_commands) > 500
        invariant
            *room == (RoomState { processed_commands: room.processed_commands, ..recorded }),
            0 <= dropped <= inserted.len(),
            processed_entries(room.processed_commands) == inserted.subrange(dropped, inserted.len() as int),
            dropped > 0 ==> inserted.len() - dropped >= 500,
        decreases processed_entries(room.processed_commands).len(),
    {
        processed_map_shift_remove_index(&mut room.processed_commands, 0);
        proof {
            dropped = dropped + 1;
            assert(processed_entries(room.processed_commands) =~= inserted.subrange(dropped, inserted.len() as int));
        }
    }
    proof {
        assert(processed_entries(room.processed_commands) =~= keep_last(inserted, 500));
    }
    Ok(CommandOutcome { version: room.version, duplicate: false, events })
}

/// The room's participant map is well formed: no id is listed twice, each participant
/// is listed under its own id, and no participant lists a connection twice.
pub open spec fn room_wf(room: RoomState) -> bool {
    &&& distinct_keys(members(room))
    &&& forall|i: int| 0 <= i < members(room).len() ==> (#[trigger] members(room)[i]).1.id@ == members(room)[i].0
    &&& forall|i: int| 0 <= i < members(room).len() ==> socket_views((#[trigger] members(room)[i]).1).no_duplicates()
}

/// Position of the participant who joined first (the first of them on a tie).
pub open spec fn first_earliest(s: Seq<(Seq<char>, Participant)>) -> int
    decreases s.len(),
{
    if s.len() <= 1 {
        0
    } else {
        let i = first_earliest(s.drop_last());
        if s.last().1.joined_at < s[i].1.joined_at {
            s.len() - 1
        } else {
            i
        }
    }
}

proof fn lemma_first_earliest(s: Seq<(Seq<char>, Participant)>)
    requires
        s.len() > 0,
    ensures
        0 <= first_earliest(s) < s.len(),
        forall|j: int| 0 <= j < s.len() ==> s[first_earliest(s)].1.joined_at <= #[trigger] s[j].1.joined_at,
        forall|j: int| 0 <= j < first_earliest(s) ==> s[first_earliest(s)].1.joined_at < #[trigger] s[j].1.joined_at,
    decreases s.len(),
{
    if s.len() > 1 {
        lemma_first_earliest(s.drop_last());
        assert(forall|j: int| 0 <= j < s.len() - 1 ==> s.drop_last()[j] == s[j]);
    }
}

fn earliest_position(participants: &IndexMap<PlayerId, Participant>) -> (i: usize)
    requires
        participant_entries(*participants).len() > 0,
    ensures
        i == first_earliest(participant_entries(*participants)),
        i < participant_entries(*participants).len(),
{
    let n = participant_map_len(participants);
    let mut best: usize = 0;
    let mut i: usize = 1;
    while i < n
        invariant
            1 <= i <= n,
            n == participant_entries(*participants).len(),
            best == first_earliest(participant_entries(*participants).take(i as int)),
        decreases n - i,
    {
        proof {
            let s = participant_entries(*participants);
            assert(s.take(i + 1).drop_last() =~= s.take(i as int));
            lemma_first_earliest(s.take(i as int));
        }
        if participant_map_index(participants, i).joined_at < participant_map_index(participants, best).joined_at {
            best = i;
        }
        i = i + 1;
    }
    proof {
        assert(participant_entries(*participants).take(n as int) =~= participant_entries(*participants));
        lemma_first_earliest(participant_entries(*participants));
    }
    best
}

/// The effect of removing a participant: they leave the map and their seat; when they
/// hosted, the participant who joined first hosts, if any remains; the version moves
/// on. Removing an id that is not in the room changes nothing.
pub open spec fn removal_effect(old: RoomState, participant_id: Seq<char>, new: RoomState) -> bool {
    match member(old, participant_id) {
        None => new == old,
        Some(p) => {
            &&& members(new) == remove_entry(members(old), participant_id)
            &&& forall|i: int|
                0 <= i < 4 ==> #[trigger] new.seats[i] == if p.seat == Some(seat_at(i)) {
                    None
                } else {
                    old.seats[i]
                }
            &&& new.host_id == if old.host_id@ == participant_id && members(new).len() > 0 {
                members(new)[first_earliest(members(new))].1.id
            } else {
                old.host_id
            }
            &&& new.version == old.version + 1
            &&& new.instance_id == old.instance_id
            &&& new.code == old.code
            &&& new.phase == old.phase
            &&& new.match_state == old.match_state
            &&& new.last_activity_at == old.last_activity_at
            &&& new.processed_commands == old.processed_commands
        },
    }
}

/// Removes a participant from the room (see `removal_effect`).
pub fn remove_participant(room: &mut RoomState, participant_id: &str)
    requires
        old(room).version < u64::MAX,
    ensures
        removal_effect(*old(room), participant_id@, *final(room)),
        room_wf(*old(room)) ==> room_wf(*final(room)),
{
    let seat = match participant_map_get(&room.participants, participant_id) {
        Some(p) => p.seat,
        None => {
            return;
        },
    };
    let ghost before = members(*room);
    let _removed = participant_map_shift_remove(&mut room.participants, participant_id);
    proof {
        lemma_key_index(before, participant_id@);
        if distinct_keys(before) {
            lemma_remove_entry(before, participant_id@);
        }
        let i = key_index(before, participant_id@);
        assert forall|j: int| 0 <= j < members(*room).len() implies (#[trigger] members(*room)[j]) == before[if j < i {
            j
        } else {
            j + 1
        }] by {}
    }
    match seat {
        Some(s) => {
            room.seats[s.index()] = None;
        },
        None => {},
    }
    if str_eq(room.host_id.as_str(), participant_id) && participant_map_len(&room.participants) > 0 {
        let i = earliest_position(&room.participants);
        room.host_id = participant_map_index(&room.participants, i).id.clone();
    }
    room.version = room.version + 1;
}

proof fn lemma_first_earliest_unique(s: Seq<(Seq<char>, Participant)>, i: int)
    requires
        0 <= i < s.len(),
        forall|j: int| 0 <= j < s.len() ==> s[i].1.joined_at <= #[trigger] s[j].1.joined_at,
        forall|j: int| 0 <= j < i ==> s[i].1.joined_at < #[trigger] s[j].1.joined_at,
    ensures
        first_earliest(s) == i,
{
    lemma_first_earliest(s);
    let f = first_earliest(s);
    if f < i {
        assert(s[i].1.joined_at < s[f].1.joined_at);
    } else if f > i {
        assert(s[f].1.joined_at < s[i].1.joined_at);
    }
}

proof fn lemma_first_earliest_remove(s: Seq<(Seq<char>, Participant)>, j: int)
    requires
        0 <= j < s.len(),
        j != first_earliest(s),
        s.len() > 1,
    ensures
        s.remove(j)[first_earliest(s.remove(j))] == s[first_earliest(s)],
{
    lemma_first_earliest(s);
    let f = first_earliest(s);
    let t = s.remove(j);
    let g = if j < f { f - 1 } else { f };
    assert(t[g] == s[f]);
    assert forall|a: int| 0 <= a < t.len() implies t[g].1.joined_at <= #[trigger] t[a].1.joined_at by {
        let b = if a < j { a } else { a + 1 };
        assert(t[a] == s[b]);
    }
    assert forall|a: int| 0 <= a < g implies t[g].1.joined_at < #[trigger] t[a].1.joined_at by {
        let b = if a < j { a } else { a + 1 };
        assert(t[a] == s[b]);
    }
    lemma_first_earliest_unique(t, g);
}

/// Time elapsed from `then` to `now`, or zero when `now` is earlier.
pub open spec fn elapsed(now: u64, then: u64) -> int {
    if now >= then {
        now - then
    } else {
        0
    }
}

/// A participant expires once disconnected for at least the grace period.
pub open spec fn expired(p: Participant, now: u64, grace: u64) -> bool {
    !is_connected(p) && (p.disconnected_at matches Some(d) && elapsed(now, d) >= grace)
}

/// The ids of the participants that have expired.
pub open spec fn expired_ids(room: RoomState, now: u64, grace: u64) -> Set<Seq<char>> {
    Set::new(
        |k: Seq<char>|
            exists|j: int|
                0 <= j < members(room).len() && (#[trigger] members(room)[j]).0 == k && expired(
                    members(room)[j].1,
                    now,
                    grace,
                ),
    )
}

/// What becomes of a room after cleanup.
#[derive(Clone, Copy, Debug, PartialEq, Eq, Structural)]
pub enum CleanupOutcome {
    /// No one is connected and the room has been idle for the idle period: delete it.
    Delete,
    /// Participants were removed: publish the room.
    Publish,
    /// Nothing changed.
    Keep,
}

/// The effect of `expire_room` on the room's participants, seats, host and version.
pub open spec fn expiry_effect(old: RoomState, now: u64, grace: u64, new: RoomState) -> bool {
    &&& new.instance_id == old.instance_id
    &&& new.code == old.code
    &&& new.phase == old.phase
    &&& new.match_state == old.match_state
    &&& new.last_activity_at == old.last_activity_at
    &&& new.processed_commands == old.processed_commands
    &&& if old.phase == RoomPhase::Lobby {
        let gone = expired_ids(old, now, grace);
        &&& members(new) == without_keys(members(old), gone)
        &&& forall|i: int|
            0 <= i < 4 ==> #[trigger] new.seats[i] == if exists|j: int|
                0 <= j < members(old).len() && expired((#[trigger] members(old)[j]).1, now, grace)
                    && members(old)[j].1.seat == Some(seat_at(i)) {
                None
            } else {
                old.seats[i]
            }
        &&& !gone.contains(old.host_id@) ==> new.host_id == old.host_id
        &&& gone.contains(old.host_id@) && members(new).len() > 0 ==> new.host_id == members(new)[first_earliest(
            members(new),
        )].1.id
        &&& members(old).len() > 0 && (forall|j: int|
            0 <= j < members(old).len() ==> expired(#[trigger] members(old)[j].1, now, grace)) && has_key(
            members(old),
            old.host_id@,
        ) ==> new.host_id@ == members(old).last().0
        &&& gone.contains(old.host_id@) && members(new).len() == 0 ==> exists|j: int|
            0 <= j < members(old).len() && gone.contains((#[trigger] members(old)[j]).0) && new.host_id@
                == members(old)[j].0
        &&& new.version == old.version + (members(old).len() - members(new).len())
    } else {
        new == old
    }
}

/// The cleanup decision for the room after expiry.
pub open spec fn cleanup_outcome(old: RoomState, now: u64, ttl: u64, new: RoomState) -> CleanupOutcome {
    if !(exists|j: int| 0 <= j < members(new).len() && is_connected((#[trigger] members(new)[j]).1)) && elapsed(
        now,
        new.last_activity_at,
    ) >= ttl {
        CleanupOutcome::Delete
    } else if new.version != old.version {
        CleanupOutcome::Publish
    } else {
        CleanupOutcome::Keep
    }
}

/// The ids are the members' keys, in the members' order.
pub open spec fn all_keys_in_order(ids: Seq<String>, members: Seq<(Seq<char>, Participant)>) -> bool {
    ids.len() == members.len() && forall|u: int| 0 <= u < ids.len() ==> (#[trigger] ids[u])@ == members[u].0
}

fn expired_participant_ids(room: &RoomState, now: u64, reconnect_grace_ms: u64) -> (ids: Vec<String>)
    requires
        room_wf(*room),
    ensures
        ids@.len() <= members(*room).len(),
        forall|u: int| 0 <= u < ids@.len() ==> #[trigger] expired_ids(*room, now, reconnect_grace_ms).contains(ids@[u]@),
        forall|k: Seq<char>|
            #[trigger] expired_ids(*room, now, reconnect_grace_ms).contains(k) ==> exists|u: int|
                0 <= u < ids@.len() && (#[trigger] ids@[u])@ == k,
        (forall|j: int| 0 <= j < members(*room).len() ==> expired(#[trigger] members(*room)[j].1, now, reconnect_grace_ms))
            ==> all_keys_in_order(ids@, members(*room)),
{
    let n = participant_map_len(&room.participants);
    let mut ids: Vec<String> = Vec::new();
    let ghost mut pos: Seq<int> = Seq::empty();
    let ghost mut slot: Seq<int> = Seq::empty();
    let mut i: usize = 0;
    while i < n
        invariant
            i <= n,
            n == members(*room).len(),
            room_wf(*room),
            ids@.len() <= i,
            pos.len() == ids@.len(),
            slot.len() == i,
            forall|u: int|
                0 <= u < ids@.len() ==> 0 <= #[trigger] pos[u] < i && members(*room)[pos[u]].0 == ids@[u]@ && expired(
                    members(*room)[pos[u]].1,
                    now,
                    reconnect_grace_ms,
                ),
            forall|j: int|
                0 <= j < i && expired(members(*room)[j].1, now, reconnect_grace_ms) ==> 0 <= #[trigger] slot[j]
                    < ids@.len() && ids@[slot[j]]@ == members(*room)[j].0,
            (forall|j: int| 0 <= j < i ==> expired(#[trigger] members(*room)[j].1, now, reconnect_grace_ms)) ==> (
            ids@.len() == i && forall|u: int| 0 <= u < i ==> (#[trigger] ids@[u])@ == members(*room)[u].0),
        decreases n - i,
    {
        let participant = participant_map_index(&room.participants, i);
        let is_expired = !participant.connected() && match participant.disconnected_at {
            Some(disconnected_at) => now.saturating_sub(disconnected_at) >= reconnect_grace_ms,
            None => false,
        };
        if is_expired {
            ids.push(participant.id.clone());
            proof {
                assert(members(*room)[i as int].1.id@ == members(*room)[i as int].0);
                pos = pos.push(i as int);
                slot = slot.push(ids@.len() - 1);
            }
        } else {
            proof {
                slot = slot.push(0);
            }
        }
        i = i + 1;
    }
    proof {
        assert forall|u: int| 0 <= u < ids@.len() implies #[trigger] expired_ids(*room, now, reconnect_grace_ms).contains(
            ids@[u]@,
        ) by {
            let j = pos[u];
            assert(members(*room)[j].0 == ids@[u]@);
        }
        assert forall|k: Seq<char>| #[trigger] expired_ids(*room, now, reconnect_grace_ms).contains(k) implies exists|u: int|
            0 <= u < ids@.len() && (#[trigger] ids@[u])@ == k by {
            let j = choose|j: int|
                0 <= j < members(*room).len() && (#[trigger] members(*room)[j]).0 == k && expired(
                    members(*room)[j].1,
                    now,
                    reconnect_grace_ms,
                );
            let u = slot[j];
            assert(ids@[u]@ == k);
        }
    }
    ids
}

/// The set of the ids among the first `t` of the list.
pub open spec fn first_ids(ids: Seq<String>, t: int) -> Set<Seq<char>> {
    Set::new(|k: Seq<char>| exists|u: int| 0 <= u < t && (#[trigger] ids[u])@ == k)
}

/// The seats of the room after removing the participants with the first `t` ids of
/// the list from `start`: the seat of each removed participant is freed.
pub open spec fn seats_after_removals(start: RoomState, ids: Seq<String>, t: int, s: int) -> Option<PlayerId> {
    if exists|u: int|
        0 <= u < t && (member(start, (#[trigger] ids[u])@) matches Some(p) && p.seat == Some(seat_at(s))) {
        None
    } else {
        start.seats[s]
    }
}

fn remove_listed(room: &mut RoomState, ids: &Vec<String>)
    requires
        room_wf(*old(room)),
        ids@.len() <= members(*old(room)).len(),
        old(room).version + members(*old(room)).len() < u64::MAX,
        forall|u: int| 0 <= u < ids@.len() ==> #[trigger] member(*old(room), ids@[u]@) is Some,
    ensures
        members(*final(room)) == without_keys(members(*old(room)), first_ids(ids@, ids@.len() as int)),
        room_wf(*final(room)),
        final(room).instance_id == old(room).instance_id,
        final(room).code == old(room).code,
        final(room).phase == old(room).phase,
        final(room).match_state == old(room).match_state,
        final(room).last_activity_at == old(room).last_activity_at,
        final(room).processed_commands == old(room).processed_commands,
        final(room).version == old(room).version + (members(*old(room)).len() - members(*final(room)).len()),
        forall|s: int| 0 <= s < 4 ==> #[trigger] final(room).seats[s] == seats_after_removals(*old(room), ids@, ids@.len() as int, s),
        !first_ids(ids@, ids@.len() as int).contains(old(room).host_id@) ==> final(room).host_id == old(room).host_id,
        first_ids(ids@, ids@.len() as int).contains(old(room).host_id@) && members(*final(room)).len() > 0
            ==> final(room).host_id == members(*final(room))[first_earliest(members(*final(room)))].1.id,
        final(room).host_id == old(room).host_id || exists|j: int|
            0 <= j < members(*old(room)).len() && final(room).host_id@ == (#[trigger] members(*old(room))[j]).0,
        all_keys_in_order(ids@, members(*old(room))) && members(*old(room)).len() > 0 && has_key(
            members(*old(room)),
            old(room).host_id@,
        ) ==> final(room).host_id@ == members(*old(room)).last().0,
{
    let ghost start = *room;
    let ghost old_members = members(*room);
    proof {
        lemma_without_no_keys(old_members);
        assert(first_ids(ids@, 0) =~= Set::<Seq<char>>::empty());
    }
    let mut t: usize = 0;
    while t < ids.len()
        invariant
            t <= ids@.len(),
            ids@.len() <= old_members.len(),
            old_members == members(start),
            room_wf(start),
            start.version + old_members.len() < u64::MAX,
            forall|u: int| 0 <= u < ids@.len() ==> #[trigger] member(start, ids@[u]@) is Some,
            members(*room) == without_keys(old_members, first_ids(ids@, t as int)),
            room_wf(*room),
            room.instance_id == start.instance_id,
            room.code == start.code,
            room.phase == start.phase,
            room.match_state == start.match_state,
            room.last_activity_at == start.last_activity_at,
            room.processed_commands == start.processed_commands,
            room.version == start.version + (old_members.len() - members(*room).len()),
            members(*room).len() <= old_members.len(),
            forall|s: int| 0 <= s < 4 ==> #[trigger] room.seats[s] == seats_after_removals(start, ids@, t as int, s),
            !first_ids(ids@, t as int).contains(start.host_id@) ==> room.host_id == start.host_id,
            first_ids(ids@, t as int).contains(start.host_id@) && members(*room).len() > 0 ==> room.host_id
                == members(*room)[first_earliest(members(*room))].1.id,
            room.host_id == start.host_id || exists|j: int|
                0 <= j < old_members.len() && room.host_id@ == (#[trigger] old_members[j]).0,
            all_keys_in_order(ids@, old_members) ==> members(*room).len() == old_members.len() - t,
            all_keys_in_order(ids@, old_members) && t == old_members.len() && t > 0 && has_key(
                old_members,
                start.host_id@,
            ) ==> room.host_id@ == old_members.last().0,
        decreases ids@.len() - t,
    {
        let ghost before = *room;
        let ghost gone = first_ids(ids@, t as int);
        let ghost k = ids@[t as int]@;
        proof {
            lemma_without_keys(old_members, gone);
        }
        proof {
            if all_keys_in_order(ids@, old_members) {
                let n = old_members.len();
                assert(k == old_members[t as int].0);
                assert(!gone.contains(k)) by {
                    if gone.contains(k) {
                        let u = choose|u: int| 0 <= u < t && (#[trigger] ids@[u])@ == k;
                        assert(old_members[u].0 == k);
                    }
                }
                lemma_key_index_at(old_members, t as int);
                assert(lookup(members(before), k) == lookup(old_members, k));
                lemma_key_index(members(before), k);
                if t + 1 == n && has_key(old_members, start.host_id@) {
                    let cur = members(before);
                    assert(cur.len() == 1);
                    assert(key_index(cur, k) == 0);
                    assert(cur[0].1.id@ == cur[0].0);
                    if gone.contains(start.host_id@) {
                        assert(before.host_id == cur[first_earliest(cur)].1.id);
                    } else {
                        lemma_key_index(old_members, start.host_id@);
                        let j = key_index(old_members, start.host_id@);
                        if j < t {
                            assert(ids@[j]@ == start.host_id@);
                        }
                        assert(before.host_id@ == k);
                    }
                    assert(before.host_id@ == k);
                }
            }
        }
        remove_participant(room, ids[t].as_str());
        proof {
            let gone2 = first_ids(ids@, t + 1);
            assert(member(start, ids@[t as int]@) is Some);
            if gone.contains(k) {
                assert(gone2 =~= gone);
                lemma_key_index(members(before), k);
                assert(member(before, k) is None);
            } else {
                assert(gone2 =~= gone.insert(k));
                lemma_remove_without_keys(old_members, gone, k);
                assert(member(before, k) == member(start, k));
                lemma_key_index(members(before), k);
                let ki = key_index(members(before), k);
                if room.host_id != before.host_id {
                    let cur = members(*room);
                    let f = first_earliest(cur);
                    lemma_first_earliest(cur);
                    lemma_without_keys(old_members, gone2);
                    assert(old_members.contains(cur[f]));
                    let j = choose|j: int| 0 <= j < old_members.len() && old_members[j] == cur[f];
                    assert(cur[f].1.id@ == cur[f].0) by {
                        let y = if f < ki { f } else { f + 1 };
                        assert(cur[f] == members(before)[y]);
                    }
                    assert(room.host_id@ == old_members[j].0);
                }
                if before.host_id@ != k && members(*room).len() > 0 && gone.contains(start.host_id@) {
                    let f = first_earliest(members(before));
                    lemma_first_earliest(members(before));
                    assert(members(before)[f].1.id@ == members(before)[f].0);
                    assert(ki != f);
                    lemma_first_earliest_remove(members(before), ki);
                }
                assert forall|x: int| 0 <= x < members(*room).len() implies (#[trigger] members(*room)[x]).1.id@
                    == members(*room)[x].0 by {
                    let y = if x < ki { x } else { x + 1 };
                    assert(members(*room)[x] == members(before)[y]);
                }
            }
            assert forall|s: int| 0 <= s < 4 implies #[trigger] room.seats[s] == seats_after_removals(start, ids@, t + 1, s) by {
                assert(room.seats[s] == room.seats@[s]);
                assert(before.seats[s] == before.seats@[s]);
                assert(before.seats[s] == seats_after_removals(start, ids@, t as int, s));
                let hit = member(start, k) matches Some(p) && p.seat == Some(seat_at(s));
                let old_hit = exists|u: int|
                    0 <= u < t && (member(start, (#[trigger] ids@[u])@) matches Some(p) && p.seat == Some(seat_at(s)));
                let new_hit = exists|u: int|
                    0 <= u < t + 1 && (member(start, (#[trigger] ids@[u])@) matches Some(p) && p.seat == Some(seat_at(s)));
                assert(new_hit == (old_hit || hit)) by {
                    if hit {
                        assert(0 <= t < t + 1 && (member(start, ids@[t as int]@) matches Some(p) && p.seat == Some(seat_at(s))));
                    }
                    if new_hit {
                        let u = choose|u: int| 0 <= u < t + 1 && (member(start, (#[trigger] ids@[u])@) matches Some(p) && p.seat == Some(seat_at(s)));
                        if u < t {
                            assert(old_hit);
                        }
                    }
                }
                if gone.contains(k) {
                    assert(room.seats == before.seats);
                    if hit {
                        let u0 = choose|u: int| 0 <= u < t && (#[trigger] ids@[u])@ == k;
                        assert(member(start, ids@[u0]@) matches Some(p) && p.seat == Some(seat_at(s)));
                        assert(old_hit);
                    }
                } else {
                    let p = member(start, k)->0;
                    assert(member(before, k) == Some(p));
                }
            }
        }
        t = t + 1;
    }
}

fn any_participant_connected(room: &RoomState) -> (b: bool)
    ensures
        b == exists|j: int| 0 <= j < members(*room).len() && is_connected((#[trigger] members(*room)[j]).1),
{
    let n = participant_map_len(&room.participants);
    let mut i: usize = 0;
    while i < n
        invariant
            i <= n,
            n == members(*room).len(),
            forall|j: int| 0 <= j < i ==> !is_connected((#[trigger] members(*room)[j]).1),
        decreases n - i,
    {
        if participant_map_index(&room.participants, i).connected() {
            return true;
        }
        i = i + 1;
    }
    false
}

/// Cleans up a room at time `now`. In the lobby, participants disconnected for at
/// least `reconnect_grace_ms` are removed one by one (see `remove_participant`). A room
/// where no one is connected and nothing happened for `room_idle_ttl_ms` is to be
/// deleted; otherwise it is to be published when participants were removed.
pub fn expire_room(room: &mut RoomState, now: u64, reconnect_grace_ms: u64, room_idle_ttl_ms: u64) -> (outcome: CleanupOutcome)
    requires
        room_wf(*old(room)),
        old(room).version + members(*old(room)).len() < u64::MAX,
    ensures
        expiry_effect(*old(room), now, reconnect_grace_ms, *final(room)),
        outcome == cleanup_outcome(*old(room), now, room_idle_ttl_ms, *final(room)),
        room_wf(*final(room)),
{
    let version_before_cleanup = room.version;
    if room.phase == RoomPhase::Lobby {
        let expired_list = expired_participant_ids(room, now, reconnect_grace_ms);
        proof {
            assert forall|u: int| 0 <= u < expired_list@.len() implies #[trigger] member(*room, expired_list@[u]@) is Some by {
                assert(expired_ids(*room, now, reconnect_grace_ms).contains(expired_list@[u]@));
                let j = choose|j: int|
                    0 <= j < members(*room).len() && (#[trigger] members(*room)[j]).0 == expired_list@[u]@ && expired(
                        members(*room)[j].1,
                        now,
                        reconnect_grace_ms,
                    );
                lemma_key_index_at(members(*room), j);
            }
        }
        let ghost start = *room;
        remove_listed(room, &expired_list);
        proof {
            if first_ids(expired_list@, expired_list@.len() as int).contains(start.host_id@) && members(*room).len() == 0 {
                let gone = first_ids(expired_list@, expired_list@.len() as int);
                lemma_without_keys(members(start), gone);
                if room.host_id != start.host_id {
                    let j = choose|j: int| 0 <= j < members(start).len() && room.host_id@ == (#[trigger] members(start)[j]).0;
                    lemma_key_index_at(members(start), j);
                    let k = members(start)[j].0;
                    assert(gone.contains(k)) by {
                        if !gone.contains(k) {
                            assert(lookup(members(*room), k) == lookup(members(start), k));
                            lemma_key_index(members(*room), k);
                        }
                    }
                } else {
                    let u = choose|u: int| 0 <= u < expired_list@.len() && (#[trigger] expired_list@[u])@ == start.host_id@;
                    assert(expired_ids(start, now, reconnect_grace_ms).contains(expired_list@[u]@));
                    let j = choose|j: int|
                        0 <= j < members(start).len() && (#[trigger] members(start)[j]).0 == expired_list@[u]@ && expired(
                            members(start)[j].1,
                            now,
                            reconnect_grace_ms,
                        );
                    assert(room.host_id@ == members(start)[j].0);
                }
            }
            let n = members(start).len();
            assert(first_ids(expired_list@, expired_list@.len() as int) =~= expired_ids(start, now, reconnect_grace_ms));
            assert forall|s: int| 0 <= s < 4 implies #[trigger] room.seats[s] == if exists|j: int|
                0 <= j < members(start).len() && expired((#[trigger] members(start)[j]).1, now, reconnect_grace_ms)
                    && members(start)[j].1.seat == Some(seat_at(s)) {
                None
            } else {
                start.seats[s]
            } by {
                let t = expired_list@.len() as int;
                if exists|u: int| 0 <= u < t && (member(start, (#[trigger] expired_list@[u])@) matches Some(p) && p.seat == Some(seat_at(s))) {
                    let u = choose|u: int| 0 <= u < t && (member(start, (#[trigger] expired_list@[u])@) matches Some(p) && p.seat == Some(seat_at(s)));
                    assert(expired_ids(start, now, reconnect_grace_ms).contains(expired_list@[u]@));
                    let j = choose|j: int| 0 <= j < n && (#[trigger] members(start)[j]).0 == expired_list@[u]@ && expired(members(start)[j].1, now, reconnect_grace_ms);
                    lemma_key_index_at(members(start), j);
                }
                if exists|j: int| 0 <= j < n && expired((#[trigger] members(start)[j]).1, now, reconnect_grace_ms) && members(start)[j].1.seat == Some(seat_at(s)) {
                    let j = choose|j: int| 0 <= j < n && expired((#[trigger] members(start)[j]).1, now, reconnect_grace_ms) && members(start)[j].1.seat == Some(seat_at(s));
                    assert(expired_ids(start, now, reconnect_grace_ms).contains(members(start)[j].0));
                    let u = choose|u: int| 0 <= u < t && (#[trigger] expired_list@[u])@ == members(start)[j].0;
                    lemma_key_index_at(members(start), j);
                    assert(member(start, expired_list@[u]@) == Some(members(start)[j].1));
                }
            }
        }
    }
    let any_connected = any_participant_connected(room);
    let should_delete = !any_connected && now.saturating_sub(room.last_activity_at) >= room_idle_ttl_ms;
    if should_delete {
        CleanupOutcome::Delete
    } else if room.version != version_before_cleanup {
        CleanupOutcome::Publish
    } else {
        CleanupOutcome::Keep
    }
}

proof fn lemma_remembered_command(entries: Seq<(Seq<char>, u64)>, key: Seq<char>, version: u64)
    requires
        lookup(entries, key) is None,
    ensures
        lookup(keep_last(insert_entry(entries, key, version), 500), key) == Some(version),
{
    lemma_key_index(entries, key);
    let inserted = insert_entry(entries, key, version);
    assert(inserted == entries.push((key, version)));
    let kept = keep_last(inserted, 500);
    let last = kept.len() - 1;
    assert(kept[last] == (key, version));
    let offset = inserted.len() - kept.len();
    assert forall|j: int| 0 <= j < last implies kept[j].0 != key by {
        assert(kept[j] == entries[j + offset]);
    }
    lemma_key_index(kept, key);
    if key_index(kept, key) < last {
        assert(kept[key_index(kept, key)].0 == key);
    }
}

/// A command that was executed is remembered: sent again under the same participant
/// and action id, at any version and with any operation, it is answered as a
/// duplicate with the version it produced, and the room does not change.
pub proof fn law_executed_command_repeats_as_duplicate(
    old: RoomState,
    command: CommandContext,
    now: u64,
    action: RoomCommand,
    mid: RoomState,
    outcome: CommandOutcome,
    again: CommandContext,
    later: u64,
    other_action: RoomCommand,
    new: RoomState,
    r: Result<CommandOutcome, RuleError>,
)
    requires
        execute_effect(old, command, now, action, mid, Ok(outcome)),
        !outcome.duplicate,
        again.participant_id@ == command.participant_id@,
        again.action_id@ == command.action_id@,
        execute_effect(mid, again, later, other_action, new, r),
    ensures
        r matches Ok(o) && o.duplicate && o.version == outcome.version,
        new == mid,
{
    let key = command_key(command.participant_id@, command.action_id@);
    assert(command_key(again.participant_id@, again.action_id@) == key);
    let p = processed_entries(old.processed_commands);
    assert(lookup(p, key) is None);
    let (m0, events) = choose|m0: RoomState, events: Result<Vec<RoomEvent>, RuleError>|
        #[trigger] command_effect(old, command.participant_id@, action, m0, events) && match events {
            Err(e) => Ok::<CommandOutcome, RuleError>(outcome) == Err::<CommandOutcome, RuleError>(e) && mid == m0,
            Ok(events) => {
                &&& Ok::<CommandOutcome, RuleError>(outcome) matches Ok(o) && o.version == old.version + 1 && !o.duplicate
                    && o.events == events
                &&& committed(m0, mid, key, now)
            },
        };
    assert(m0.processed_commands == old.processed_commands && m0.version == old.version);
    lemma_remembered_command(p, key, (m0.version + 1) as u64);
}

/// The credentials that joining a room hands out authenticate their holder in the room
/// that the join produced.
pub proof fn law_joined_credentials_authenticate(
    old: RoomState,
    new: RoomState,
    c: ParticipantCredentials,
    display_name: String,
    now: u64,
)
    requires
        joined(old, new, c, display_name, now),
    ensures
        credentials_match(new, c.participant_id@, c.reconnect_token@),
        member(new, c.participant_id@) matches Some(p) && p.seat == c.seat && p.role == c.role,
{
    let p = lookup(members(new), c.participant_id@)->0;
    lemma_insert_lookup(members(old), c.participant_id@, p);
}

/// The credentials that opening a room hands out authenticate the host in the new room.
pub proof fn law_opened_room_credentials_authenticate(room: RoomState, c: ParticipantCredentials, display_name: String, now: u64)
    requires
        opened_room(room, c, display_name, now),
    ensures
        credentials_match(room, c.participant_id@, c.reconnect_token@),
        room.host_id == c.participant_id,
{
    lemma_key_index(members(room), c.participant_id@);
}

/// Once a match has left the lobby, whoever joins watches: they get no seat.
pub proof fn law_joining_after_the_lobby_makes_a_spectator(
    old: RoomState,
    new: RoomState,
    c: ParticipantCredentials,
    display_name: String,
    now: u64,
)
    requires
        joined(old, new, c, display_name, now),
        old.phase != RoomPhase::Lobby,
    ensures
        c.role == ParticipantRole::Spectator,
        c.seat is None,
        new.seats@ == old.seats@,
{
}

/// While a seat is empty or its player has no live connection, the match is paused:
/// every move of a player in it is refused with `GAME_PAUSED_FOR_RECONNECT` and the room
/// does not change.
pub proof fn law_a_disconnected_seat_pauses_the_match(
    old: RoomState,
    participant_id: Seq<char>,
    command: RoomCommand,
    new: RoomState,
    r: Result<Vec<RoomEvent>, RuleError>,
)
    requires
        !all_players_connected(old),
        command_effect(old, participant_id, command, new, r),
        command matches RoomCommand::PlayCards { .. } || command matches RoomCommand::Pass
            || command matches RoomCommand::GiveTribute(_) || command matches RoomCommand::ReturnTribute(_),
    ensures
        r matches Err(e) && e.code@ == "GAME_PAUSED_FOR_RECONNECT"@,
        new == old,
{
}

/// Dropping a connection undoes registering it: a socket that a participant did not
/// hold, once connected and then disconnected, leaves the participant with the
/// connections they had, and connected exactly when they were before.
pub proof fn law_disconnecting_undoes_connecting(
    r0: RoomState,
    r1: RoomState,
    r2: RoomState,
    participant_id: Seq<char>,
    reconnect_token: Seq<char>,
    socket_id: Seq<char>,
    t1: u64,
    t2: u64,
    c: Result<Vec<RoomEvent>, RuleError>,
    d: Option<Vec<RoomEvent>>,
)
    requires
        connect_effect(r0, participant_id, reconnect_token, socket_id, t1, r1, c),
        c is Ok,
        member(r0, participant_id) matches Some(p) && !socket_views(p).contains(socket_id),
        disconnect_effect(r1, participant_id, socket_id, t2, r2, d),
    ensures
        d is Some,
        member(r2, participant_id) matches Some(q) && socket_views(q) == socket_views(
            member(r0, participant_id)->0,
        ) && is_connected(q) == is_connected(member(r0, participant_id)->0),
        members(r2).len() == members(r0).len(),
{
    let p = member(r0, participant_id)->0;
    lemma_key_index(members(r0), participant_id);
    let q1 = member(r1, participant_id)->0;
    lemma_update_at_key(members(r0), participant_id, q1);
    assert(member(r1, participant_id) == Some(q1));
    assert(socket_views(q1) == socket_views(p).push(socket_id));
    assert(socket_views(q1).contains(socket_id)) by {
        assert(socket_views(q1)[socket_views(p).len() as int] == socket_id);
    }
    lemma_elem_index(socket_views(q1), socket_id);
    assert(elem_index(socket_views(q1), socket_id) == socket_views(p).len()) by {
        let e = elem_index(socket_views(q1), socket_id);
        if e < socket_views(p).len() {
            assert(socket_views(q1)[e] == socket_views(p)[e]);
        }
    }
    let q2 = member(r2, participant_id)->0;
    lemma_key_index(members(r1), participant_id);
    lemma_update_at_key(members(r1), participant_id, q2);
    assert(socket_views(q2) =~= socket_views(p));
    assert(socket_views(q2).len() == q2.socket_ids@.len());
    assert(socket_views(p).len() == p.socket_ids@.len());
}

/// A command either commits or leaves the version alone: a refused or failed command
/// keeps the room's version, and a committed one moves it on by one and remembers its
/// key with the new version.
pub proof fn law_commands_commit_or_keep_the_version(
    old: RoomState,
    command: CommandContext,
    now: u64,
    action: RoomCommand,
    new: RoomState,
    r: Result<CommandOutcome, RuleError>,
)
    requires
        execute_effect(old, command, now, action, new, r),
    ensures
        r is Err ==> new.version == old.version,
        r matches Ok(o) ==> (o.duplicate ==> new == old),
        r matches Ok(o) ==> (!o.duplicate ==> {
            &&& new.version == old.version + 1
            &&& o.version == new.version
            &&& lookup(
                processed_entries(new.processed_commands),
                command_key(command.participant_id@, command.action_id@),
            ) == Some(new.version)
        }),
{
    let key = command_key(command.participant_id@, command.action_id@);
    let p = processed_entries(old.processed_commands);
    if lookup(p, key) is None && old.version == command.expected_version {
        let (m0, events) = choose|m0: RoomState, events: Result<Vec<RoomEvent>, RuleError>|
            #[trigger] command_effect(old, command.participant_id@, action, m0, events) && match events {
                Err(e) => r == Err::<CommandOutcome, RuleError>(e) && new == m0,
                Ok(events) => {
                    &&& r matches Ok(o) && o.version == old.version + 1 && !o.duplicate && o.events == events
                    &&& committed(m0, new, key, now)
                },
            };
        assert(m0.processed_commands == old.processed_commands && m0.version == old.version);
        if r is Ok {
            lemma_remembered_command(p, key, (m0.version + 1) as u64);
        }
    }
}

/// The participant ids that opening or joining a room hands out pass the UUID check that
/// socket connections make (`validate_socket_auth`).
pub proof fn law_handed_out_ids_pass_the_uuid_check(
    old: RoomState,
    new: RoomState,
    c: ParticipantCredentials,
    display_name: String,
    now: u64,
)
    requires
        joined(old, new, c, display_name, now) || opened_room(new, c, display_name, now),
    ensures
        parses_as_uuid(c.participant_id@),
{
    if joined(old, new, c, display_name, now) {
        let p = lookup(members(new), c.participant_id@)->0;
        assert(hyphenated_uuid(p.id@));
    }
}

} // verus!
