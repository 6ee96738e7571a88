use indexmap::IndexMap;
use open_guandan_server::rooms::{
    connect_socket, create_room, execute, join_room, ParticipantCredentials, RoomCommand, RoomState,
};
use open_guandan_server::views::{create_room_view, visible_submitted_cards};
use open_guandan_server::types::{Card, CardRank, Seat, Suit};

fn room_of(rooms: &mut IndexMap<String, RoomState>, who: &ParticipantCredentials) -> RoomState {
    rooms.get(&who.room_code).unwrap().clone()
}

#[test]
fn public_view_never_contains_credentials() {
    let mut rooms = IndexMap::new();
    let credentials = create_room(&mut rooms, "甲".to_string(), 0).unwrap();
    let room = room_of(&mut rooms, &credentials);
    let view = create_room_view(&room, None);

    let serialized = format!("{view:?}");
    assert!(!serialized.contains(&credentials.reconnect_token));
    assert!(view.self_view.is_none());
}

#[test]
fn only_a_seated_viewer_receives_their_own_hand() {
    let mut rooms: IndexMap<String, RoomState> = IndexMap::new();
    let host = create_room(&mut rooms, "甲".to_string(), 0).unwrap();
    let mut players = vec![host.clone()];
    for name in ["乙", "丙", "丁"] {
        let room = rooms.get_mut(&host.room_code).unwrap();
        players.push(join_room(room, name.to_string(), 0).unwrap());
    }
    let spectator = join_room(rooms.get_mut(&host.room_code).unwrap(), "观众".to_string(), 0).unwrap();

    for (index, player) in players.iter().enumerate() {
        let room = rooms.get_mut(&host.room_code).unwrap();
        connect_socket(room, &player.participant_id, &player.reconnect_token, &format!("view-{index}"), 0).unwrap();
    }
    for (index, player) in players.iter().enumerate() {
        let room = rooms.get_mut(&host.room_code).unwrap();
        let version = room.version;
        execute(room, &player.command(&format!("view-ready-{index}"), version), 0, RoomCommand::SetReady(true))
            .unwrap();
    }
    let room = rooms.get_mut(&host.room_code).unwrap();
    let version = room.version;
    execute(room, &host.command("view-start", version), 0, RoomCommand::StartMatch).unwrap();

    let room = room_of(&mut rooms, &host);
    let player_view = create_room_view(&room, Some(&host.participant_id));
    let spectator_view = create_room_view(&room, Some(&spectator.participant_id));
    let hand = &player_view.self_view.as_ref().unwrap().hand;
    assert_eq!(hand.len(), 27);
    assert!(spectator_view.self_view.as_ref().unwrap().hand.is_empty());

    let public_text = format!("{:?}", spectator_view);
    for card in hand {
        assert!(!public_text.contains(&card.id));
    }
    let round = spectator_view.match_view.as_ref().unwrap().current_round.as_ref().unwrap();
    assert_eq!(round.hand_counts, [27, 27, 27, 27]);
}

#[test]
fn submitted_cards_show_only_when_revealed() {
    let mut values = IndexMap::new();
    let seat = Seat::new(1).unwrap();
    values.insert(seat, Card { id: "c".into(), deck_index: 0, suit: Suit::Spade, rank: CardRank::Ace });
    assert!(visible_submitted_cards(&values, false).is_empty());
    let shown = visible_submitted_cards(&values, true);
    assert_eq!(shown.len(), 1);
    assert_eq!(shown[0].0, seat);
    assert_eq!(shown[0].1.id, "c");
}

#[test]
fn views_of_two_viewers_share_the_public_part() {
    let mut rooms: IndexMap<String, RoomState> = IndexMap::new();
    let host = create_room(&mut rooms, "甲".to_string(), 0).unwrap();
    let guest = join_room(rooms.get_mut(&host.room_code).unwrap(), "乙".to_string(), 0).unwrap();
    let room = room_of(&mut rooms, &host);
    let host_view = create_room_view(&room, Some(&host.participant_id));
    let guest_view = create_room_view(&room, Some(&guest.participant_id));
    assert_eq!(format!("{:?}", host_view.participants), format!("{:?}", guest_view.participants));
    assert_eq!(host_view.seats, guest_view.seats);
    assert_eq!(host_view.version, guest_view.version);
    assert_eq!(host_view.self_view.unwrap().seat, Some(Seat::new(0).unwrap()));
    assert_eq!(guest_view.self_view.unwrap().seat, Some(Seat::new(1).unwrap()));
}
