use open_guandan_server::types::{ordinary_ranks, CardRank, OrdinaryRank, Seat, Team};

#[test]
fn ordinary_rank_indices_and_card_ranks_stay_aligned() {
    for (index, rank) in ordinary_ranks().into_iter().enumerate() {
        assert_eq!(rank.index(), index);
        assert_eq!(CardRank::from(rank).as_ordinary(), Some(rank));
    }
    assert_eq!(CardRank::SmallJoker.as_ordinary(), None);
}

#[test]
fn seats_turn_clockwise_and_pair_across_the_table() {
    let seats = Seat::all();
    for (index, seat) in seats.iter().enumerate() {
        assert_eq!(seat.value() as usize, index);
        assert_eq!(seat.next().index(), (index + 1) % 4);
        assert_eq!(seat.partner().index(), (index + 2) % 4);
        assert_eq!(seat.partner().partner(), *seat);
        assert_eq!(seat.team(), seat.partner().team());
        assert_eq!(seat.team().index(), index % 2);
    }
    assert!(Seat::new(4).is_none());
    assert!(Team::new(2).is_none());
    assert_eq!(OrdinaryRank::at(12), OrdinaryRank::Ace);
}
