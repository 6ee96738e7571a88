//! Card, seat and combination vocabulary shared by every rule module.

use vstd::prelude::*;
use indexmap::IndexMap;

verus! {

/// One of the thirteen ordinary ranks, from two up to ace.
#[derive(Clone, Copy, Debug, PartialEq, Eq, Hash, PartialOrd, Ord, Structural)]
pub enum OrdinaryRank {
    Two,
    Three,
    Four,
    Five,
    Six,
    Seven,
    Eight,
    Nine,
    Ten,
    Jack,
    Queen,
    King,
    Ace,
}

/// Position of an ordinary rank in the natural order (two is 0, ace is 12).
pub open spec fn ordinary_index(r: OrdinaryRank) -> int {
    match r {
        OrdinaryRank::Two => 0,
        OrdinaryRank::Three => 1,
        OrdinaryRank::Four => 2,
        OrdinaryRank::Five => 3,
        OrdinaryRank::Six => 4,
        OrdinaryRank::Seven => 5,
        OrdinaryRank::Eight => 6,
        OrdinaryRank::Nine => 7,
        OrdinaryRank::Ten => 8,
        OrdinaryRank::Jack => 9,
        OrdinaryRank::Queen => 10,
        OrdinaryRank::King => 11,
        OrdinaryRank::Ace => 12,
    }
}

/// The ordinary rank at a position of the natural order.
pub open spec fn ordinary_rank_at(i: int) -> OrdinaryRank {
    if i <= 0 {
        OrdinaryRank::Two
    } else if i == 1 {
        OrdinaryRank::Three
    } else if i == 2 {
        OrdinaryRank::Four
    } else if i == 3 {
        OrdinaryRank::Five
    } else if i == 4 {
        OrdinaryRank::Six
    } else if i == 5 {
        OrdinaryRank::Seven
    } else if i == 6 {
        OrdinaryRank::Eight
    } else if i == 7 {
        OrdinaryRank::Nine
    } else if i == 8 {
        OrdinaryRank::Ten
    } else if i == 9 {
        OrdinaryRank::Jack
    } else if i == 10 {
        OrdinaryRank::Queen
    } else if i == 11 {
        OrdinaryRank::King
    } else {
        OrdinaryRank::Ace
    }
}

/// The position of an ordinary rank is below 13 and gives that rank back.
pub proof fn lemma_ordinary_index_roundtrip(r: OrdinaryRank)
    ensures
        0 <= ordinary_index(r) < 13,
        ordinary_rank_at(ordinary_index(r)) == r,
{
}

/// The rank at a position below 13 has that position.
pub proof fn lemma_ordinary_rank_at_index(i: int)
    requires
        0 <= i < 13,
    ensures
        ordinary_index(ordinary_rank_at(i)) == i,
{
}

impl OrdinaryRank {
    /// Position of the rank in the natural order.
    pub fn index(self) -> (r: usize)
        ensures
            r == ordinary_index(self),
            r < 13,
    {
        match self {
            OrdinaryRank::Two => 0,
            OrdinaryRank::Three => 1,
            OrdinaryRank::Four => 2,
            OrdinaryRank::Five => 3,
            OrdinaryRank::Six => 4,
            OrdinaryRank::Seven => 5,
            OrdinaryRank::Eight => 6,
            OrdinaryRank::Nine => 7,
            OrdinaryRank::Ten => 8,
            OrdinaryRank::Jack => 9,
            OrdinaryRank::Queen => 10,
            OrdinaryRank::King => 11,
            OrdinaryRank::Ace => 12,
        }
    }

    /// The rank at position `i` of the natural order.
    pub fn at(i: usize) -> (r: OrdinaryRank)
        requires
            i < 13,
        ensures
            r == ordinary_rank_at(i as int),
            ordinary_index(r) == i,
    {
        if i == 0 {
            OrdinaryRank::Two
        } else if i == 1 {
            OrdinaryRank::Three
        } else if i == 2 {
            OrdinaryRank::Four
        } else if i == 3 {
            OrdinaryRank::Five
        } else if i == 4 {
            OrdinaryRank::Six
        } else if i == 5 {
            OrdinaryRank::Seven
        } else if i == 6 {
            OrdinaryRank::Eight
        } else if i == 7 {
            OrdinaryRank::Nine
        } else if i == 8 {
            OrdinaryRank::Ten
        } else if i == 9 {
            OrdinaryRank::Jack
        } else if i == 10 {
            OrdinaryRank::Queen
        } else if i == 11 {
            OrdinaryRank::King
        } else {
            OrdinaryRank::Ace
        }
    }
}

/// The thirteen ordinary ranks in natural order.
pub fn ordinary_ranks() -> (v: Vec<OrdinaryRank>)
    ensures
        v@.len() == 13,
        forall|i: int| 0 <= i < 13 ==> #[trigger] v@[i] == ordinary_rank_at(i),
{
    let mut v: Vec<OrdinaryRank> = Vec::new();
    let mut i: usize = 0;
    while i < 13
        invariant
            i <= 13,
            v@.len() == i,
            forall|j: int| 0 <= j < i ==> #[trigger] v@[j] == ordinary_rank_at(j),
        decreases 13 - i,
    {
        v.push(OrdinaryRank::at(i));
        i = i + 1;
    }
    v
}

/// Any card rank: an ordinary rank or one of the two jokers.
#[derive(Clone, Copy, Debug, PartialEq, Eq, Hash, PartialOrd, Ord, Structural)]
pub enum CardRank {
    Two,
    Three,
    Four,
    Five,
    Six,
    Seven,
    Eight,
    Nine,
    Ten,
    Jack,
    Queen,
    King,
    Ace,
    SmallJoker,
    BigJoker,
}

/// The card rank that carries an ordinary rank.
pub open spec fn card_rank_of(r: OrdinaryRank) -> CardRank {
    match r {
        OrdinaryRank::Two => CardRank::Two,
        OrdinaryRank::Three => CardRank::Three,
        OrdinaryRank::Four => CardRank::Four,
        OrdinaryRank::Five => CardRank::Five,
        OrdinaryRank::Six => CardRank::Six,
        OrdinaryRank::Seven => CardRank::Seven,
        OrdinaryRank::Eight => CardRank::Eight,
        OrdinaryRank::Nine => CardRank::Nine,
        OrdinaryRank::Ten => CardRank::Ten,
        OrdinaryRank::Jack => CardRank::Jack,
        OrdinaryRank::Queen => CardRank::Queen,
        OrdinaryRank::King => CardRank::King,
        OrdinaryRank::Ace => CardRank::Ace,
    }
}

/// The ordinary rank of a card rank, or `None` for a joker.
pub open spec fn ordinary_of(r: CardRank) -> Option<OrdinaryRank> {
    match r {
        CardRank::Two => Some(OrdinaryRank::Two),
        CardRank::Three => Some(OrdinaryRank::Three),
        CardRank::Four => Some(OrdinaryRank::Four),
        CardRank::Five => Some(OrdinaryRank::Five),
        CardRank::Six => Some(OrdinaryRank::Six),
        CardRank::Seven => Some(OrdinaryRank::Seven),
        CardRank::Eight => Some(OrdinaryRank::Eight),
        CardRank::Nine => Some(OrdinaryRank::Nine),
        CardRank::Ten => Some(OrdinaryRank::Ten),
        CardRank::Jack => Some(OrdinaryRank::Jack),
        CardRank::Queen => Some(OrdinaryRank::Queen),
        CardRank::King => Some(OrdinaryRank::King),
        CardRank::Ace => Some(OrdinaryRank::Ace),
        CardRank::SmallJoker => None,
        CardRank::BigJoker => None,
    }
}

/// The wire label of a card rank.
pub open spec fn card_rank_label(r: CardRank) -> Seq<char> {
    match r {
        CardRank::Two => "2"@,
        CardRank::Three => "3"@,
        CardRank::Four => "4"@,
        CardRank::Five => "5"@,
        CardRank::Six => "6"@,
        CardRank::Seven => "7"@,
        CardRank::Eight => "8"@,
        CardRank::Nine => "9"@,
        CardRank::Ten => "10"@,
        CardRank::Jack => "J"@,
        CardRank::Queen => "Q"@,
        CardRank::King => "K"@,
        CardRank::Ace => "A"@,
        CardRank::SmallJoker => "small-joker"@,
        CardRank::BigJoker => "big-joker"@,
    }
}

/// An ordinary rank taken as a card rank is that ordinary rank again.
pub proof fn law_ordinary_ranks_round_trip_through_card_ranks(r: OrdinaryRank)
    ensures
        ordinary_of(card_rank_of(r)) == Some(r),
{
}

/// Every card rank but the two jokers is an ordinary rank, and comes back from it.
pub proof fn law_every_card_rank_but_the_jokers_is_ordinary(r: CardRank)
    ensures
        ordinary_of(r) is Some ==> card_rank_of(ordinary_of(r)->0) == r,
        ordinary_of(r) is None <==> (r == CardRank::SmallJoker || r == CardRank::BigJoker),
{
}

impl CardRank {
    /// The ordinary rank of this card rank; `None` for the jokers.
    pub fn as_ordinary(self) -> (r: Option<OrdinaryRank>)
        ensures
            r == ordinary_of(self),
    {
        match self {
            CardRank::Two => Some(OrdinaryRank::Two),
            CardRank::Three => Some(OrdinaryRank::Three),
            CardRank::Four => Some(OrdinaryRank::Four),
            CardRank::Five => Some(OrdinaryRank::Five),
            CardRank::Six => Some(OrdinaryRank::Six),
            CardRank::Seven => Some(OrdinaryRank::Seven),
            CardRank::Eight => Some(OrdinaryRank::Eight),
            CardRank::Nine => Some(OrdinaryRank::Nine),
            CardRank::Ten => Some(OrdinaryRank::Ten),
            CardRank::Jack => Some(OrdinaryRank::Jack),
            CardRank::Queen => Some(OrdinaryRank::Queen),
            CardRank::King => Some(OrdinaryRank::King),
            CardRank::Ace => Some(OrdinaryRank::Ace),
            CardRank::SmallJoker => None,
            CardRank::BigJoker => None,
        }
    }

    /// The wire label of this rank.
    pub fn as_str(self) -> (s: &'static str)
        ensures
            s@ == card_rank_label(self),
    {
        match self {
            CardRank::Two => "2",
            CardRank::Three => "3",
            CardRank::Four => "4",
            CardRank::Five => "5",
            CardRank::Six => "6",
            CardRank::Seven => "7",
            CardRank::Eight => "8",
            CardRank::Nine => "9",
            CardRank::Ten => "10",
            CardRank::Jack => "J",
            CardRank::Queen => "Q",
            CardRank::King => "K",
            CardRank::Ace => "A",
            CardRank::SmallJoker => "small-joker",
            CardRank::BigJoker => "big-joker",
        }
    }

    /// The card rank carrying an ordinary rank.
    pub fn from_ordinary(r: OrdinaryRank) -> (c: CardRank)
        ensures
            c == card_rank_of(r),
    {
        match r {
            OrdinaryRank::Two => CardRank::Two,
            OrdinaryRank::Three => CardRank::Three,
            OrdinaryRank::Four => CardRank::Four,
            OrdinaryRank::Five => CardRank::Five,
            OrdinaryRank::Six => CardRank::Six,
            OrdinaryRank::Seven => CardRank::Seven,
            OrdinaryRank::Eight => CardRank::Eight,
            OrdinaryRank::Nine => CardRank::Nine,
            OrdinaryRank::Ten => CardRank::Ten,
            OrdinaryRank::Jack => CardRank::Jack,
            OrdinaryRank::Queen => CardRank::Queen,
            OrdinaryRank::King => CardRank::King,
            OrdinaryRank::Ace => CardRank::Ace,
        }
    }
}

impl From<OrdinaryRank> for CardRank {
    fn from(value: OrdinaryRank) -> (r: CardRank) {
        CardRank::from_ordinary(value)
    }
}

impl vstd::std_specs::convert::FromSpecImpl<OrdinaryRank> for CardRank {
    open spec fn obeys_from_spec() -> bool {
        true
    }

    open spec fn from_spec(v: OrdinaryRank) -> CardRank {
        card_rank_of(v)
    }
}

/// One of the four ordinary suits.
#[derive(Clone, Copy, Debug, PartialEq, Eq, Hash, PartialOrd, Ord, Structural)]
pub enum OrdinarySuit {
    Heart,
    Diamond,
    Club,
    Spade,
}

/// Position of an ordinary suit in the order heart, diamond, club, spade.
pub open spec fn suit_index(s: OrdinarySuit) -> int {
    match s {
        OrdinarySuit::Heart => 0,
        OrdinarySuit::Diamond => 1,
        OrdinarySuit::Club => 2,
        OrdinarySuit::Spade => 3,
    }
}

/// The ordinary suit at a position of the order heart, diamond, club, spade.
pub open spec fn ordinary_suit_at(i: int) -> OrdinarySuit {
    if i <= 0 {
        OrdinarySuit::Heart
    } else if i == 1 {
        OrdinarySuit::Diamond
    } else if i == 2 {
        OrdinarySuit::Club
    } else {
        OrdinarySuit::Spade
    }
}

impl OrdinarySuit {
    /// The ordinary suit at position `i`.
    pub fn at(i: usize) -> (s: OrdinarySuit)
        requires
            i < 4,
        ensures
            s == ordinary_suit_at(i as int),
            suit_index(s) == i,
    {
        if i == 0 {
            OrdinarySuit::Heart
        } else if i == 1 {
            OrdinarySuit::Diamond
        } else if i == 2 {
            OrdinarySuit::Club
        } else {
            OrdinarySuit::Spade
        }
    }
}

/// A card suit: an ordinary suit, or the suit of the jokers.
#[derive(Clone, Copy, Debug, PartialEq, Eq, Hash, PartialOrd, Ord, Structural)]
pub enum Suit {
    Heart,
    Diamond,
    Club,
    Spade,
    Joker,
}

/// The suit carrying an ordinary suit.
pub open spec fn suit_of(s: OrdinarySuit) -> Suit {
    match s {
        OrdinarySuit::Heart => Suit::Heart,
        OrdinarySuit::Diamond => Suit::Diamond,
        OrdinarySuit::Club => Suit::Club,
        OrdinarySuit::Spade => Suit::Spade,
    }
}

/// The ordinary suit of a suit, or `None` for the joker suit.
pub open spec fn ordinary_suit_of(s: Suit) -> Option<OrdinarySuit> {
    match s {
        Suit::Heart => Some(OrdinarySuit::Heart),
        Suit::Diamond => Some(OrdinarySuit::Diamond),
        Suit::Club => Some(OrdinarySuit::Club),
        Suit::Spade => Some(OrdinarySuit::Spade),
        Suit::Joker => None,
    }
}

/// The wire label of a suit.
pub open spec fn suit_label(s: Suit) -> Seq<char> {
    match s {
        Suit::Heart => "heart"@,
        Suit::Diamond => "diamond"@,
        Suit::Club => "club"@,
        Suit::Spade => "spade"@,
        Suit::Joker => "joker"@,
    }
}

impl Suit {
    /// The ordinary suit of this suit; `None` for the joker suit.
    pub fn as_ordinary(self) -> (r: Option<OrdinarySuit>)
        ensures
            r == ordinary_suit_of(self),
    {
        match self {
            Suit::Heart => Some(OrdinarySuit::Heart),
            Suit::Diamond => Some(OrdinarySuit::Diamond),
            Suit::Club => Some(OrdinarySuit::Club),
            Suit::Spade => Some(OrdinarySuit::Spade),
            Suit::Joker => None,
        }
    }

    /// The wire label of this suit.
    pub fn as_str(self) -> (s: &'static str)
        ensures
            s@ == suit_label(self),
    {
        match self {
            Suit::Heart => "heart",
            Suit::Diamond => "diamond",
            Suit::Club => "club",
            Suit::Spade => "spade",
            Suit::Joker => "joker",
        }
    }

    /// The suit carrying an ordinary suit.
    pub fn from_ordinary(s: OrdinarySuit) -> (r: Suit)
        ensures
            r == suit_of(s),
    {
        match s {
            OrdinarySuit::Heart => Suit::Heart,
            OrdinarySuit::Diamond => Suit::Diamond,
            OrdinarySuit::Club => Suit::Club,
            OrdinarySuit::Spade => Suit::Spade,
        }
    }
}

impl From<OrdinarySuit> for Suit {
    fn from(value: OrdinarySuit) -> (r: Suit) {
        Suit::from_ordinary(value)
    }
}

impl vstd::std_specs::convert::FromSpecImpl<OrdinarySuit> for Suit {
    open spec fn obeys_from_spec() -> bool {
        true
    }

    open spec fn from_spec(v: OrdinarySuit) -> Suit {
        suit_of(v)
    }
}

/// One of the four seats at the table, numbered clockwise from 0 to 3.
#[derive(Clone, Copy, Debug, PartialEq, Eq, Hash, PartialOrd, Ord, Structural)]
pub struct Seat(pub(crate) u8);

impl View for Seat {
    type V = int;

    open(crate) spec fn view(&self) -> int {
        self.0 as int
    }
}

/// The seat with a given number, which must be below 4.
pub open(crate) spec fn seat_at(i: int) -> Seat {
    Seat(i as u8)
}

/// The seat numbered `i` has number `i`, and it is the only seat with that number; for
/// verified code outside this crate, which sees `seat_at` and the seat view as names.
pub proof fn lemma_seat_at(i: int)
    requires
        0 <= i < 4,
    ensures
        seat_at(i)@ == i,
        forall|s: Seat| #[trigger] s@ == i ==> s == seat_at(i),
{
}

impl Seat {
    #[verifier::type_invariant]
    spec fn seat_inv(self) -> bool {
        self.0 < 4
    }

    /// The seat numbered `value`, when `value` is below 4.
    pub fn new(value: u8) -> (r: Option<Seat>)
        ensures
            value < 4 ==> r == Some(seat_at(value as int)),
            value >= 4 ==> r is None,
    {
        if value < 4 {
            Some(Seat(value))
        } else {
            None
        }
    }

    /// The seat number as an index into four-element arrays.
    pub fn index(self) -> (r: usize)
        ensures
            r == self@,
            r < 4,
    {
        proof {
            use_type_invariant(&self);
        }
        self.0 as usize
    }

    /// The seat number.
    pub fn value(self) -> (r: u8)
        ensures
            r == self@,
            r < 4,
    {
        proof {
            use_type_invariant(&self);
        }
        self.0
    }

    /// The four seats in order.
    pub fn all() -> (r: [Seat; 4])
        ensures
            forall|i: int| 0 <= i < 4 ==> #[trigger] r[i] == seat_at(i),
    {
        [Seat(0), Seat(1), Seat(2), Seat(3)]
    }

    /// The next seat clockwise.
    pub fn next(self) -> (r: Seat)
        ensures
            r@ == (self@ + 1) % 4,
            r == seat_at((self@ + 1) % 4),
    {
        proof {
            use_type_invariant(&self);
        }
        Seat((self.0 + 1) % 4)
    }

    /// The partner seat across the table.
    pub fn partner(self) -> (r: Seat)
        ensures
            r@ == (self@ + 2) % 4,
            r == seat_at((self@ + 2) % 4),
    {
        proof {
            use_type_invariant(&self);
        }
        Seat((self.0 + 2) % 4)
    }

    /// The team of the seat: seats 0 and 2 form team 0, seats 1 and 3 team 1.
    pub fn team(self) -> (r: Team)
        ensures
            r@ == self@ % 2,
    {
        proof {
            use_type_invariant(&self);
        }
        Team(self.0 % 2)
    }
}

/// One of the two partnerships.
#[derive(Clone, Copy, Debug, PartialEq, Eq, Hash, PartialOrd, Ord, Structural)]
pub struct Team(pub(crate) u8);

impl View for Team {
    type V = int;

    open(crate) spec fn view(&self) -> int {
        self.0 as int
    }
}

impl Team {
    #[verifier::type_invariant]
    spec fn team_inv(self) -> bool {
        self.0 < 2
    }

    /// The team numbered `value`, when `value` is below 2.
    pub fn new(value: u8) -> (r: Option<Team>)
        ensures
            value < 2 ==> r is Some && r->0@ == value,
            value >= 2 ==> r is None,
    {
        if value < 2 {
            Some(Team(value))
        } else {
            None
        }
    }

    /// The team number as an index into two-element arrays.
    pub fn index(self) -> (r: usize)
        ensures
            r == self@,
            r < 2,
    {
        proof {
            use_type_invariant(&self);
        }
        self.0 as usize
    }
}

/// A physical card of one of the two decks.
#[derive(Debug, PartialEq, Eq)]
pub struct Card {
    pub id: String,
    pub deck_index: u8,
    pub suit: Suit,
    pub rank: CardRank,
}

impl Clone for Card {
    fn clone(&self) -> (c: Self)
        ensures
            c == *self,
    {
        Card { id: self.id.clone(), deck_index: self.deck_index, suit: self.suit, rank: self.rank }
    }
}

/// The ten combination kinds of the game.
#[derive(Clone, Copy, Debug, PartialEq, Eq, Hash, PartialOrd, Ord, Structural)]
pub enum CombinationKind {
    Single,
    Pair,
    Triple,
    FullHouse,
    Straight,
    ConsecutivePairs,
    ConsecutiveTriples,
    Bomb,
    StraightFlush,
    JokerBomb,
}

/// The rank and suit that a wildcard card stands for.
#[derive(Clone, Copy, Debug, PartialEq, Eq, Structural)]
pub struct WildcardAssignment {
    pub rank: OrdinaryRank,
    pub suit: OrdinarySuit,
}

/// A recognised combination of played cards.
#[derive(Debug)]
pub struct Combination {
    pub kind: CombinationKind,
    pub size: usize,
    pub primary_rank: Option<CardRank>,
    pub sequence_top: Option<OrdinaryRank>,
    pub suit: Option<OrdinarySuit>,
    pub wildcard_assignments: IndexMap<String, WildcardAssignment>,
}

/// The meaning of a combination, ignoring how wildcards were assigned: kind, size,
/// primary rank, sequence top and suit.
pub type SemanticKey = (CombinationKind, usize, Option<CardRank>, Option<OrdinaryRank>, Option<OrdinarySuit>);

/// What a player declares a selection of cards to be.
#[derive(Clone, Copy, Debug, PartialEq, Eq, Structural)]
pub struct CombinationDeclaration {
    pub kind: CombinationKind,
    pub primary_rank: Option<CardRank>,
    pub sequence_top: Option<OrdinaryRank>,
}

} // verus!
