use indexmap::IndexMap;
use open_guandan_server::errors::RuleError;
use open_guandan_server::rooms::{
    authenticate, connect_socket, create_room, disconnect_socket, execute, expire_room, join_room, normalize_room_code,
    room_not_found, validate_display_name, CleanupOutcome, CommandContext, CommandOutcome, ParticipantCredentials,
    ParticipantRole, RoomCommand, RoomEvent, RoomPhase, RoomState,
};
use open_guandan_server::types::Seat;

fn seat(value: u8) -> Seat {
    Seat::new(value).unwrap()
}

/// A process-local set of rooms driven through the library, with a settable clock.
struct Rooms {
    rooms: IndexMap<String, RoomState>,
    reconnect_grace_ms: u64,
    room_idle_ttl_ms: u64,
    now: u64,
}

impl Rooms {
    fn new(reconnect_grace_ms: u64, room_idle_ttl_ms: u64, now: u64) -> Self {
        Rooms { rooms: IndexMap::new(), reconnect_grace_ms, room_idle_ttl_ms, now }
    }

    fn default() -> Self {
        Rooms::new(90_000, 600_000, 1_000)
    }

    fn create_room(&mut self, display_name: &str) -> Result<ParticipantCredentials, RuleError> {
        let display_name = validate_display_name(display_name)?;
        create_room(&mut self.rooms, display_name, self.now)
    }

    fn join_room(&mut self, code: &str, display_name: &str) -> Result<ParticipantCredentials, RuleError> {
        let display_name = validate_display_name(display_name)?;
        let room = self.rooms.get_mut(&normalize_room_code(code)).ok_or_else(room_not_found)?;
        join_room(room, display_name, self.now)
    }

    fn require_room(&self, code: &str) -> RoomState {
        self.rooms.get(&normalize_room_code(code)).unwrap().clone()
    }

    fn connect(&mut self, who: &ParticipantCredentials, socket_id: &str) -> Result<Vec<RoomEvent>, RuleError> {
        let room = self.rooms.get_mut(&normalize_room_code(&who.room_code)).ok_or_else(room_not_found)?;
        connect_socket(room, &who.participant_id, &who.reconnect_token, socket_id, self.now)
    }

    fn run(&mut self, command: CommandContext, action: RoomCommand) -> Result<CommandOutcome, RuleError> {
        let room = self.rooms.get_mut(&normalize_room_code(&command.room_code)).ok_or_else(room_not_found)?;
        execute(room, &command, self.now, action)
    }

    fn remove_expired(&mut self) -> Vec<String> {
        let codes: Vec<String> = self.rooms.keys().cloned().collect();
        let mut deleted = Vec::new();
        for code in codes {
            let room = self.rooms.get_mut(&code).unwrap();
            if expire_room(room, self.now, self.reconnect_grace_ms, self.room_idle_ttl_ms) == CleanupOutcome::Delete {
                self.rooms.shift_remove(&code);
                deleted.push(code);
            }
        }
        deleted
    }
}

#[test]
fn first_four_participants_get_seats_and_fifth_is_spectator() {
    let mut rooms = Rooms::default();
    let first = rooms.create_room("玩家一").unwrap();
    let second = rooms.join_room(&first.room_code, "玩家二").unwrap();
    let third = rooms.join_room(&first.room_code, "玩家三").unwrap();
    let fourth = rooms.join_room(&first.room_code, "玩家四").unwrap();
    let spectator = rooms.join_room(&first.room_code, "旁观者").unwrap();

    assert_eq!(first.seat, Some(seat(0)));
    assert_eq!(second.seat, Some(seat(1)));
    assert_eq!(third.seat, Some(seat(2)));
    assert_eq!(fourth.seat, Some(seat(3)));
    assert_eq!(spectator.role, ParticipantRole::Spectator);
    assert_eq!(spectator.seat, None);
}

#[test]
fn display_name_limit_counts_utf16_code_units() {
    let mut rooms = Rooms::default();
    assert!(rooms.create_room(&"😀".repeat(10)).is_ok());
    let error = rooms.create_room(&"😀".repeat(11)).unwrap_err();
    assert_eq!(error.code, "INVALID_DISPLAY_NAME");
}

#[test]
fn duplicate_command_wins_before_stale_version_check() {
    let mut rooms = Rooms::default();
    let host = rooms.create_room("甲").unwrap();
    let result = rooms.run(host.command("action-01", 1), RoomCommand::SetReady(true)).unwrap();
    assert_eq!(result.version, 2);

    let duplicate = rooms.run(host.command("action-01", 0), RoomCommand::SetReady(false)).unwrap();
    assert!(duplicate.duplicate);
    assert_eq!(duplicate.version, 2);
    assert!(rooms.require_room(&host.room_code).participants[&host.participant_id].ready);
}

#[test]
fn player_can_move_to_any_empty_seat_and_must_ready_again() {
    let mut rooms = Rooms::default();
    let host = rooms.create_room("甲").unwrap();
    let player = rooms.join_room(&host.room_code, "乙").unwrap();
    rooms.run(player.command("ready-001", 2), RoomCommand::SetReady(true)).unwrap();

    let result = rooms.run(player.command("change-01", 3), RoomCommand::ChangeSeat(seat(3))).unwrap();

    assert_eq!(result.version, 4);
    let room = rooms.require_room(&host.room_code);
    let moved = &room.participants[&player.participant_id];
    assert_eq!(room.seats[1], None);
    assert_eq!(room.seats[3], Some(player.participant_id.clone()));
    assert_eq!(moved.role, ParticipantRole::Player);
    assert_eq!(moved.seat, Some(seat(3)));
    assert!(!moved.ready);
}

#[test]
fn occupied_seat_cannot_be_selected() {
    let mut rooms = Rooms::default();
    let host = rooms.create_room("甲").unwrap();
    let player = rooms.join_room(&host.room_code, "乙").unwrap();

    let error = rooms.run(host.command("change-01", 2), RoomCommand::ChangeSeat(seat(1))).unwrap_err();

    assert_eq!(error.code, "SEAT_OCCUPIED");
    let room = rooms.require_room(&host.room_code);
    assert_eq!(room.version, 2);
    assert_eq!(room.seats[0], Some(host.participant_id));
    assert_eq!(room.seats[1], Some(player.participant_id));
}

#[test]
fn spectator_can_take_a_seat_released_during_the_lobby() {
    let mut rooms = Rooms::new(100, 10_000, 1_000);
    let host = rooms.create_room("甲").unwrap();
    let second = rooms.join_room(&host.room_code, "乙").unwrap();
    let third = rooms.join_room(&host.room_code, "丙").unwrap();
    let expired = rooms.join_room(&host.room_code, "丁").unwrap();
    let spectator = rooms.join_room(&host.room_code, "观众").unwrap();

    for (index, participant) in [&host, &second, &third, &spectator].into_iter().enumerate() {
        let socket_id = format!("socket-{index}");
        rooms.connect(participant, &socket_id).unwrap();
    }
    rooms.now = 1_100;
    assert!(rooms.remove_expired().is_empty());
    let room = rooms.require_room(&host.room_code);
    assert!(!room.participants.contains_key(&expired.participant_id));
    assert_eq!(room.seats[3], None);

    rooms.run(spectator.command("change-01", room.version), RoomCommand::ChangeSeat(seat(3))).unwrap();

    let room = rooms.require_room(&host.room_code);
    let seated = &room.participants[&spectator.participant_id];
    assert_eq!(room.seats[3], Some(spectator.participant_id.clone()));
    assert_eq!(seated.role, ParticipantRole::Player);
    assert_eq!(seated.seat, Some(seat(3)));
}

#[test]
fn one_identity_has_a_bounded_number_of_live_sockets() {
    let mut rooms = Rooms::default();
    let host = rooms.create_room("甲").unwrap();
    for index in 0..8 {
        rooms.connect(&host, &format!("socket-{index}")).unwrap();
    }

    let error = rooms.connect(&host, "one-too-many").unwrap_err();
    assert_eq!(error.code, "TOO_MANY_CONNECTIONS");
}

#[test]
fn cleanup_releases_lobby_seat_and_moves_host() {
    let mut rooms = Rooms::new(100, 10_000, 1_000);
    let host = rooms.create_room("甲").unwrap();
    let replacement = rooms.join_room(&host.room_code, "乙").unwrap();
    rooms.connect(&replacement, "replacement-socket").unwrap();

    rooms.now = 1_100;
    assert!(rooms.remove_expired().is_empty());
    let room = rooms.require_room(&host.room_code);
    assert_eq!(room.host_id, replacement.participant_id);
    assert_eq!(room.seats[0], None);
    assert_eq!(room.seats[1], Some(replacement.participant_id));
}

#[test]
fn stale_versions_and_unknown_rooms_are_refused() {
    let mut rooms = Rooms::default();
    let host = rooms.create_room("甲").unwrap();
    let error = rooms.run(host.command("action-02", 7), RoomCommand::SetReady(true)).unwrap_err();
    assert_eq!(error.code, "STALE_STATE");
    assert!(rooms.join_room("ZZZZZZ", "乙").is_err());
    let error = rooms.join_room(&host.room_code, "  甲 ").unwrap_err();
    assert_eq!(error.code, "DISPLAY_NAME_TAKEN");
}

#[test]
fn reconnecting_publishes_only_state_changes() {
    let mut rooms = Rooms::default();
    let host = rooms.create_room("甲").unwrap();
    let events = rooms.connect(&host, "a").unwrap();
    assert_eq!(events.len(), 1);
    assert_eq!(events[0].event_type(), "participant.connection");
    assert!(rooms.connect(&host, "b").unwrap().is_empty());
    let mut forged = host.clone();
    forged.reconnect_token = "x".repeat(43);
    assert_eq!(rooms.connect(&forged, "c").unwrap_err().code, "INVALID_CREDENTIALS");

    let room = rooms.rooms.get_mut(&host.room_code).unwrap();
    assert!(disconnect_socket(room, &host.participant_id, "unknown", 5).is_none());
    assert_eq!(disconnect_socket(room, &host.participant_id, "a", 5).unwrap().len(), 0);
    assert_eq!(disconnect_socket(room, &host.participant_id, "b", 6).unwrap().len(), 1);
    assert_eq!(room.participants[&host.participant_id].disconnected_at, Some(6));
}

#[test]
fn the_host_starts_a_match_only_with_four_ready_connected_players() {
    let mut rooms = Rooms::default();
    let host = rooms.create_room("甲").unwrap();
    let error = rooms.run(host.command("start-001", 1), RoomCommand::StartMatch).unwrap_err();
    assert_eq!(error.code, "SEATS_NOT_FULL");
    let mut players = vec![host.clone()];
    for name in ["乙", "丙", "丁"] {
        players.push(rooms.join_room(&host.room_code, name).unwrap());
    }
    let version = rooms.require_room(&host.room_code).version;
    let error = rooms.run(players[1].command("start-002", version), RoomCommand::StartMatch).unwrap_err();
    assert_eq!(error.code, "HOST_ONLY");
    let error = rooms.run(host.command("start-003", version), RoomCommand::StartMatch).unwrap_err();
    assert_eq!(error.code, "GAME_PAUSED_FOR_RECONNECT");
    for (index, player) in players.iter().enumerate() {
        rooms.connect(player, &format!("s-{index}")).unwrap();
    }
    let error = rooms.run(host.command("start-004", version), RoomCommand::StartMatch).unwrap_err();
    assert_eq!(error.code, "PLAYERS_NOT_READY");
    for (index, player) in players.iter().enumerate() {
        let version = rooms.require_room(&host.room_code).version;
        rooms.run(player.command(&format!("ready-{index:04}"), version), RoomCommand::SetReady(true)).unwrap();
    }
    let version = rooms.require_room(&host.room_code).version;
    let started = rooms.run(host.command("start-005", version), RoomCommand::StartMatch).unwrap();
    assert_eq!(started.events.len(), 1);
    let room = rooms.require_room(&host.room_code);
    assert_eq!(room.phase, RoomPhase::Playing);
    assert!(room.match_state.is_some());

    let version = room.version;
    let aborted = rooms.run(host.command("abort-001", version), RoomCommand::AbortMatch).unwrap();
    assert_eq!(aborted.events[0].event_type(), "match.aborted");
    let room = rooms.require_room(&host.room_code);
    assert_eq!(room.phase, RoomPhase::Lobby);
    assert!(room.participants.values().all(|participant| !participant.ready));
}

fn started_room(rooms: &mut Rooms) -> Vec<ParticipantCredentials> {
    let host = rooms.create_room("甲").unwrap();
    let mut players = vec![host.clone()];
    for name in ["乙", "丙", "丁"] {
        players.push(rooms.join_room(&host.room_code, name).unwrap());
    }
    for (index, player) in players.iter().enumerate() {
        rooms.connect(player, &format!("p-{index}")).unwrap();
    }
    for (index, player) in players.iter().enumerate() {
        let version = rooms.require_room(&host.room_code).version;
        rooms.run(player.command(&format!("ready-{index:04}"), version), RoomCommand::SetReady(true)).unwrap();
    }
    let version = rooms.require_room(&host.room_code).version;
    rooms.run(host.command("start-000", version), RoomCommand::StartMatch).unwrap();
    players
}

#[test]
fn handed_out_credentials_authenticate_and_have_their_shape() {
    let mut rooms = Rooms::default();
    let host = rooms.create_room("甲").unwrap();
    assert_eq!(host.room_code.len(), 6);
    assert!(host.room_code.chars().all(|c| "23456789ABCDEFGHJKLMNPQRSTUVWXYZ".contains(c)));
    assert_eq!(host.participant_id.len(), 36);
    assert_eq!(host.reconnect_token.len(), 43);
    assert!(host.reconnect_token.chars().all(|c| c.is_ascii_alphanumeric() || c == '-' || c == '_'));
    let guest = rooms.join_room(&host.room_code.to_lowercase(), "乙").unwrap();
    let room = rooms.require_room(&host.room_code);
    assert_eq!(authenticate(&room, &host.participant_id, &host.reconnect_token).unwrap(), room.instance_id);
    assert!(authenticate(&room, &guest.participant_id, &guest.reconnect_token).is_ok());
    let error = authenticate(&room, &guest.participant_id, &host.reconnect_token).unwrap_err();
    assert_eq!(error.code, "INVALID_CREDENTIALS");
    assert_eq!(room.host_id, host.participant_id);
}

#[test]
fn display_names_are_compared_in_lower_case() {
    let mut rooms = Rooms::default();
    let host = rooms.create_room("Alice").unwrap();
    let error = rooms.join_room(&host.room_code, "ALICE").unwrap_err();
    assert_eq!(error.code, "DISPLAY_NAME_TAKEN");
    assert!(rooms.join_room(&host.room_code, "Bob").is_ok());
}

#[test]
fn participants_joining_a_started_match_watch() {
    let mut rooms = Rooms::default();
    let players = started_room(&mut rooms);
    let late = rooms.join_room(&players[0].room_code, "戊").unwrap();
    assert_eq!(late.role, ParticipantRole::Spectator);
    assert_eq!(late.seat, None);
}

#[test]
fn a_disconnected_player_pauses_the_match() {
    let mut rooms = Rooms::default();
    let players = started_room(&mut rooms);
    let code = players[0].room_code.clone();
    let room = rooms.rooms.get_mut(&code).unwrap();
    disconnect_socket(room, &players[2].participant_id, "p-2", 5).unwrap();
    let version = rooms.require_room(&code).version;
    let error = rooms.run(players[0].command("pass-0001", version), RoomCommand::Pass).unwrap_err();
    assert_eq!(error.code, "GAME_PAUSED_FOR_RECONNECT");
    assert_eq!(rooms.require_room(&code).version, version);
}

#[test]
fn disconnecting_a_fresh_socket_restores_the_connections() {
    let mut rooms = Rooms::default();
    let host = rooms.create_room("甲").unwrap();
    rooms.connect(&host, "a").unwrap();
    let before = rooms.require_room(&host.room_code).participants[&host.participant_id].socket_ids.clone();
    rooms.connect(&host, "b").unwrap();
    let room = rooms.rooms.get_mut(&host.room_code).unwrap();
    assert!(disconnect_socket(room, &host.participant_id, "b", 9).unwrap().is_empty());
    let after = &room.participants[&host.participant_id];
    assert_eq!(after.socket_ids, before);
    assert!(after.connected());
}

#[test]
fn lobby_and_match_refusals_name_their_reason() {
    let mut rooms = Rooms::default();
    let host = rooms.create_room("甲").unwrap();
    let spectators: Vec<ParticipantCredentials> =
        ["乙", "丙", "丁", "戊"].iter().map(|name| rooms.join_room(&host.room_code, name).unwrap()).collect();
    let watcher = &spectators[3];
    assert_eq!(watcher.role, ParticipantRole::Spectator);

    let version = rooms.require_room(&host.room_code).version;
    let error = rooms.run(watcher.command("ready-0001", version), RoomCommand::SetReady(true)).unwrap_err();
    assert_eq!(error.code, "SPECTATOR_CANNOT_PLAY");
    let mut stranger = host.clone();
    stranger.participant_id = "nobody".into();
    let error = rooms.run(stranger.command("ready-0002", version), RoomCommand::SetReady(true)).unwrap_err();
    assert_eq!(error.code, "PARTICIPANT_NOT_FOUND");
    let error = rooms.run(host.command("seat-0001", version), RoomCommand::ChangeSeat(seat(0))).unwrap_err();
    assert_eq!(error.code, "SEAT_UNCHANGED");
    let error = rooms.run(host.command("abort-0001", version), RoomCommand::AbortMatch).unwrap_err();
    assert_eq!(error.code, "NO_ACTIVE_MATCH");
    let error = rooms.run(host.command("pass-0001", version), RoomCommand::Pass).unwrap_err();
    assert_eq!(error.code, "GAME_PAUSED_FOR_RECONNECT");

    let players = started_room(&mut rooms);
    let version = rooms.require_room(&players[0].room_code).version;
    let error = rooms.run(players[1].command("ready-0003", version), RoomCommand::SetReady(false)).unwrap_err();
    assert_eq!(error.code, "MATCH_ALREADY_STARTED");
}

#[test]
fn a_room_holds_at_most_one_hundred_and_four_participants() {
    let mut rooms = Rooms::default();
    let host = rooms.create_room("host").unwrap();
    for index in 1..104 {
        rooms.join_room(&host.room_code, &format!("p{index}")).unwrap();
    }
    let error = rooms.join_room(&host.room_code, "late").unwrap_err();
    assert_eq!(error.code, "ROOM_FULL");
}

#[test]
fn a_cloned_room_copies_the_match_in_play() {
    let mut rooms = Rooms::default();
    let players = started_room(&mut rooms);
    let room = rooms.rooms.get(&players[0].room_code).unwrap();
    let copy = room.clone();
    let round = room.match_state.as_ref().unwrap().current_round.as_ref().unwrap();
    let copied = copy.match_state.as_ref().unwrap().current_round.as_ref().unwrap();
    assert_eq!(copied.turn_seat, round.turn_seat);
    assert_eq!(copied.hands, round.hands);
    assert_eq!(copy.version, room.version);
    assert_eq!(copy.participants.len(), room.participants.len());
}

#[test]
fn the_first_room_is_always_created() {
    let mut rooms: IndexMap<String, RoomState> = IndexMap::new();
    let credentials = create_room(&mut rooms, "甲".to_string(), 7).unwrap();
    assert_eq!(rooms.len(), 1);
    assert_eq!(rooms[0].code, credentials.room_code);
}

#[test]
fn when_everyone_expires_the_last_member_hosts() {
    let mut rooms = Rooms::new(100, 1_000_000, 1_000);
    let host = rooms.create_room("甲").unwrap();
    rooms.join_room(&host.room_code, "乙").unwrap();
    let last = rooms.join_room(&host.room_code, "丙").unwrap();
    rooms.now = 2_000;
    assert!(rooms.remove_expired().is_empty());
    let room = rooms.require_room(&host.room_code);
    assert!(room.participants.is_empty());
    assert_eq!(room.host_id, last.participant_id);
}

#[test]
fn handed_out_ids_pass_the_socket_check() {
    let mut rooms = Rooms::default();
    let host = rooms.create_room("甲").unwrap();
    let code = open_guandan_server::transport::validate_socket_auth(
        host.room_code.clone(),
        &host.participant_id,
        &host.reconnect_token,
    )
    .unwrap();
    assert_eq!(code, host.room_code);
}
