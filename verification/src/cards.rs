//! The two-deck card set, shuffling, dealing, card strength and hand ordering.

use vstd::prelude::*;
use crate::errors::{append_decimal, RuleError};
use crate::types::{
    card_rank_label, card_rank_of, ordinary_index, ordinary_of, ordinary_rank_at, ordinary_suit_at, suit_label,
    suit_of, Card, CardRank, OrdinaryRank, OrdinarySuit, Suit,
};

verus! {

broadcast use vstd::seq_lib::group_to_multiset_ensures;

/// Deck number (0 or 1) of position `i` of the unshuffled two-deck set.
pub open spec fn deck_of(i: int) -> int {
    if i < 54 {
        0
    } else {
        1
    }
}

/// Position within its own deck of position `i` of the unshuffled set.
pub open spec fn slot_of(i: int) -> int {
    i - 54 * deck_of(i)
}

/// Suit position (0..3) of an ordinary slot (0..51) of a deck.
pub open spec fn suit_slot(j: int) -> int {
    if j < 13 {
        0
    } else if j < 26 {
        1
    } else if j < 39 {
        2
    } else {
        3
    }
}

/// Suit of the card at slot `j` of a deck: thirteen hearts, diamonds, clubs,
/// spades, then the two jokers.
pub open spec fn deck_suit(j: int) -> Suit {
    if j < 52 {
        suit_of(ordinary_suit_at(suit_slot(j)))
    } else {
        Suit::Joker
    }
}

/// Rank of the card at slot `j` of a deck: each suit runs from two to ace, then the
/// small joker and the big joker.
pub open spec fn deck_rank(j: int) -> CardRank {
    if j < 52 {
        card_rank_of(ordinary_rank_at(j - 13 * suit_slot(j)))
    } else if j == 52 {
        CardRank::SmallJoker
    } else {
        CardRank::BigJoker
    }
}

/// The id of a card: deck number, suit label and rank label joined by colons.
pub open spec fn card_id(deck: int, suit: Suit, rank: CardRank) -> Seq<char> {
    (if deck == 0 { "0"@ } else { "1"@ }) + ":"@ + suit_label(suit) + ":"@ + card_rank_label(rank)
}

/// Whether `c` is the card at position `i` of the unshuffled two-deck set.
pub open spec fn is_deck_card(c: Card, i: int) -> bool {
    &&& c.deck_index == deck_of(i)
    &&& c.suit == deck_suit(slot_of(i))
    &&& c.rank == deck_rank(slot_of(i))
    &&& c.id@ == card_id(deck_of(i), c.suit, c.rank)
}

fn make_card(deck_index: u8, suit: Suit, rank: CardRank) -> (c: Card)
    requires
        deck_index < 2,
    ensures
        c.deck_index == deck_index,
        c.suit == suit,
        c.rank == rank,
        c.id@ == card_id(deck_index as int, suit, rank),
{
    let mut id = if deck_index == 0 {
        String::from_str("0")
    } else {
        String::from_str("1")
    };
    id.append(":");
    id.append(suit.as_str());
    id.append(":");
    id.append(rank.as_str());
    Card { id, deck_index, suit, rank }
}

/// The 108 cards of two standard decks in their fixed order: for each deck the four
/// suits heart, diamond, club, spade from two to ace, then the small and big joker.
pub fn create_deck() -> (deck: Vec<Card>)
    ensures
        deck@.len() == 108,
        forall|i: int| 0 <= i < 108 ==> is_deck_card(#[trigger] deck@[i], i),
{
    let mut cards: Vec<Card> = Vec::with_capacity(108);
    let mut deck_index: u8 = 0;
    while deck_index < 2
        invariant
            deck_index <= 2,
            cards@.len() == 54 * deck_index,
            forall|i: int| 0 <= i < cards@.len() ==> is_deck_card(#[trigger] cards@[i], i),
        decreases 2 - deck_index,
    {
        let mut s: usize = 0;
        while s < 4
            invariant
                deck_index < 2,
                s <= 4,
                cards@.len() == 54 * deck_index + 13 * s,
                forall|i: int| 0 <= i < cards@.len() ==> is_deck_card(#[trigger] cards@[i], i),
            decreases 4 - s,
        {
            let suit = Suit::from_ordinary(OrdinarySuit::at(s));
            let mut r: usize = 0;
            while r < 13
                invariant
                    deck_index < 2,
                    s < 4,
                    r <= 13,
                    suit == suit_of(ordinary_suit_at(s as int)),
                    cards@.len() == 54 * deck_index + 13 * s + r,
                    forall|i: int| 0 <= i < cards@.len() ==> is_deck_card(#[trigger] cards@[i], i),
                decreases 13 - r,
            {
                let rank = CardRank::from_ordinary(OrdinaryRank::at(r));
                let c = make_card(deck_index, suit, rank);
                let ghost k = cards@.len() as int;
                assert(deck_of(k) == deck_index);
                assert(suit_slot(slot_of(k)) == s);
                cards.push(c);
                r = r + 1;
            }
            s = s + 1;
        }
        let small = make_card(deck_index, Suit::Joker, CardRank::SmallJoker);
        cards.push(small);
        let big = make_card(deck_index, Suit::Joker, CardRank::BigJoker);
        cards.push(big);
        deck_index = deck_index + 1;
    }
    cards
}

/// A copy of the cards, in the same order.
pub(crate) fn copy_cards(cards: &[Card]) -> (v: Vec<Card>)
    ensures
        v@ == cards@,
{
    let mut v: Vec<Card> = Vec::with_capacity(cards.len());
    let mut i: usize = 0;
    while i < cards.len()
        invariant
            i <= cards@.len(),
            v@ == cards@.take(i as int),
        decreases cards@.len() - i,
    {
        v.push(cards[i].clone());
        proof {
            assert(cards@.take(i + 1) =~= cards@.take(i as int).push(cards@[i as int]));
        }
        i = i + 1;
    }
    proof {
        assert(cards@.take(cards@.len() as int) =~= cards@);
    }
    v
}

/// The sequence with the elements at positions `a` and `b` exchanged.
pub open spec fn swap_spec<A>(s: Seq<A>, a: int, b: int) -> Seq<A> {
    s.update(a, s[b]).update(b, s[a])
}

/// Fisher-Yates shuffle driven by `picks`: step `k` exchanges position
/// `len - 1 - k` with position `picks[k]`.
pub open spec fn fisher_yates<A>(s: Seq<A>, picks: Seq<usize>) -> Seq<A>
    decreases picks.len(),
{
    if picks.len() == 0 {
        s
    } else {
        let k = picks.len() - 1;
        swap_spec(fisher_yates(s, picks.drop_last()), s.len() - 1 - k, picks[k] as int)
    }
}

/// Every pick of step `k` lies within the still unshuffled prefix `0..=len-1-k`.
pub open spec fn valid_picks(len: int, picks: Seq<usize>) -> bool {
    forall|k: int| 0 <= k < picks.len() ==> #[trigger] picks[k] <= len - 1 - k
}

/// Swapping two positions keeps the same elements.
proof fn lemma_swap_multiset<A>(s: Seq<A>, a: int, b: int)
    requires
        0 <= a < s.len(),
        0 <= b < s.len(),
    ensures
        swap_spec(s, a, b).to_multiset() == s.to_multiset(),
        swap_spec(s, a, b).len() == s.len(),
{
    broadcast use vstd::multiset::group_multiset_axioms;
    let t = s.update(a, s[b]);
    assert(t[b] == s[b] || a == b);
    assert(t.to_multiset() == s.to_multiset().insert(s[b]).remove(s[a]));
    assert(t.update(b, s[a]).to_multiset() == t.to_multiset().insert(s[a]).remove(t[b]));
    if a == b {
        assert(swap_spec(s, a, b) =~= s);
    } else {
        assert(swap_spec(s, a, b).to_multiset() =~= s.to_multiset());
    }
}

/// A Fisher-Yates shuffle with valid picks only rearranges the cards.
pub proof fn law_fisher_yates_only_rearranges<A>(s: Seq<A>, picks: Seq<usize>)
    requires
        picks.len() < s.len(),
        valid_picks(s.len() as int, picks),
    ensures
        fisher_yates(s, picks).to_multiset() == s.to_multiset(),
        fisher_yates(s, picks).len() == s.len(),
    decreases picks.len(),
{
    if picks.len() > 0 {
        let k = picks.len() - 1;
        assert(valid_picks(s.len() as int, picks.drop_last()));
        law_fisher_yates_only_rearranges(s, picks.drop_last());
        lemma_swap_multiset(fisher_yates(s, picks.drop_last()), s.len() - 1 - k, picks[k] as int);
    }
}

/// Each pick is a possible answer of `f` to its draw: step `k` of a shuffle of `len`
/// cards asks for an index below `len - k`.
pub open spec fn drawn_by<F: FnMut(usize) -> usize>(f: F, len: int, picks: Seq<usize>) -> bool {
    forall|k: int| 0 <= k < picks.len() ==> call_ensures(f, ((len - k) as usize,), #[trigger] picks[k])
}

/// Every answer of `f` to a draw for an upper bound from 2 to `most` is below that
/// bound: the draws that a shuffle of `most` cards asks for are answered in range.
pub open spec fn draws_in_range<F: FnMut(usize) -> usize>(f: F, most: int) -> bool {
    forall|n: usize, out: usize| 2 <= n <= most && call_ensures(f, (n,), out) ==> out < n
}

/// Shuffles a copy of `cards` with Fisher-Yates, drawing each swap position from
/// `random_index(index + 1)` for `index` from the last position down to 1. A draw that
/// is out of range stops the shuffle with an internal error.
pub fn shuffle_cards_with<F>(cards: &[Card], random_index: &mut F) -> (r: Result<Vec<Card>, RuleError>)
    where
        F: FnMut(usize) -> usize,
    requires
        forall|n: usize| n > 0 ==> call_requires(*old(random_index), (n,)),
    ensures
        forall|n: usize| n > 0 ==> call_requires(*final(random_index), (n,)),
        r is Ok ==> exists|picks: Seq<usize>|
            #![trigger fisher_yates(cards@, picks)]
            {
                &&& picks.len() == if cards@.len() == 0 { 0 } else { cards@.len() - 1 }
                &&& valid_picks(cards@.len() as int, picks)
                &&& drawn_by(*old(random_index), cards@.len() as int, picks)
                &&& r->Ok_0@ == fisher_yates(cards@, picks)
            },
        r is Ok ==> r->Ok_0@.to_multiset() == cards@.to_multiset(),
        r is Err ==> r->Err_0.code@ == "INTERNAL_ERROR"@,
        draws_in_range(*old(random_index), cards@.len() as int) ==> r is Ok,
        cards@.len() <= 1 ==> (r matches Ok(v) && v@ == cards@),
        *final(random_index) == *old(random_index),
{
    let mut shuffled: Vec<Card> = copy_cards(cards);
    let len = shuffled.len();
    if len == 0 {
        proof {
            assert(fisher_yates(cards@, Seq::<usize>::empty()) == cards@);
        }
        return Ok(shuffled);
    }
    let mut index: usize = len - 1;
    let ghost mut picks: Seq<usize> = Seq::empty();
    while index >= 1
        invariant
            len == cards@.len(),
            len >= 1,
            index < len,
            picks.len() == len - 1 - index,
            valid_picks(len as int, picks),
            drawn_by(*old(random_index), len as int, picks),
            shuffled@ == fisher_yates(cards@, picks),
            forall|n: usize| n > 0 ==> call_requires(*random_index, (n,)),
            *random_index == *old(random_index),
        decreases index,
    {
        let swap_index = random_index(index + 1);
        if swap_index > index {
            return Err(RuleError::internal("Invalid shuffle index"));
        }
        proof {
            law_fisher_yates_only_rearranges(cards@, picks);
        }
        let a = shuffled[index].clone();
        let b = shuffled[swap_index].clone();
        shuffled.set(index, b);
        shuffled.set(swap_index, a);
        proof {
            let old_picks = picks;
            picks = picks.push(swap_index);
            assert(picks.drop_last() =~= old_picks);
            assert(valid_picks(len as int, picks));
            assert(drawn_by(*old(random_index), len as int, picks)) by {
                assert(picks[old_picks.len() as int] == swap_index);
                assert(forall|k: int| 0 <= k < old_picks.len() ==> picks[k] == old_picks[k]);
            }
        }
        index = index - 1;
    }
    proof {
        law_fisher_yates_only_rearranges(cards@, picks);
    }
    Ok(shuffled)
}

/// Deals 108 cards round-robin: card `i` goes to hand `i % 4`, so each hand holds
/// cards `h, h + 4, h + 8, ...` in order. Any other number of cards is an internal error.
pub fn deal_cards(cards: &[Card]) -> (r: Result<[Vec<Card>; 4], RuleError>)
    ensures
        r is Ok <==> cards@.len() == 108,
        r is Ok ==> forall|h: int, i: int|
            0 <= h < 4 && 0 <= i < 27 ==> (#[trigger] r->Ok_0[h]@[i]) == cards@[4 * i + h],
        r is Ok ==> forall|h: int| 0 <= h < 4 ==> (#[trigger] r->Ok_0[h]@).len() == 27,
        r is Err ==> r->Err_0.code@ == "INTERNAL_ERROR"@,
{
    if cards.len() != 108 {
        let mut detail = String::from_str("Expected 108 cards, received ");
        append_decimal(&mut detail, cards.len() as u64);
        return Err(RuleError::internal(detail.as_str()));
    }
    let mut hands: [Vec<Card>; 4] = [
        Vec::with_capacity(27),
        Vec::with_capacity(27),
        Vec::with_capacity(27),
        Vec::with_capacity(27),
    ];
    let mut index: usize = 0;
    while index < 108
        invariant
            cards@.len() == 108,
            index <= 108,
            forall|h: int| 0 <= h < 4 ==> (#[trigger] hands[h]@).len() == (index + 3 - h) / 4,
            forall|h: int, i: int|
                0 <= h < 4 && 0 <= i < (index + 3 - h) / 4 ==> (#[trigger] hands[h]@[i]) == cards@[4 * i + h],
        decreases 108 - index,
    {
        let h = index % 4;
        let c = cards[index].clone();
        let ghost before = hands;
        hands[h].push(c);
        proof {
            assert forall|g: int| 0 <= g < 4 implies (#[trigger] hands[g]@).len() == (index + 1 + 3 - g) / 4 by {
                if g != h {
                    assert(hands[g] == before[g]);
                }
            }
            assert forall|g: int, i: int|
                0 <= g < 4 && 0 <= i < (index + 1 + 3 - g) / 4 implies (#[trigger] hands[g]@[i]) == cards@[4 * i + g] by {
                if g != h {
                    assert(hands[g] == before[g]);
                } else if i < (index + 3 - g) / 4 {
                    assert(hands[g]@[i] == before[g]@[i]);
                } else {
                    assert(i == (index - h) / 4);
                }
            }
        }
        index = index + 1;
    }
    Ok(hands)
}

/// Natural value of an ordinary rank: two is 2, ace is 14.
pub open spec fn rank_value(rank: OrdinaryRank) -> int {
    ordinary_index(rank) + 2
}

/// Natural value of an ordinary rank: two is 2, ace is 14.
pub fn ordinary_rank_value(rank: OrdinaryRank) -> (v: u8)
    ensures
        v == rank_value(rank),
        2 <= v <= 14,
{
    rank.index() as u8 + 2
}

/// Strength of a card rank under a level: big joker 17, small joker 16, the level rank
/// 15, any other rank its natural value.
pub open spec fn strength(rank: CardRank, level_rank: OrdinaryRank) -> int {
    match rank {
        CardRank::BigJoker => 17,
        CardRank::SmallJoker => 16,
        _ => if ordinary_of(rank) == Some(level_rank) {
            15
        } else {
            rank_value(ordinary_of(rank)->0)
        },
    }
}

/// Strength of a card rank under a level: big joker 17, small joker 16, the level rank
/// 15, any other rank its natural value.
pub fn card_rank_strength(rank: CardRank, level_rank: OrdinaryRank) -> (s: u8)
    ensures
        s == strength(rank, level_rank),
        2 <= s <= 17,
{
    match rank {
        CardRank::BigJoker => 17,
        CardRank::SmallJoker => 16,
        _ => {
            match rank.as_ordinary() {
                Some(value) => {
                    if value.index() == level_rank.index() {
                        15
                    } else {
                        ordinary_rank_value(value)
                    }
                },
                None => 16,
            }
        },
    }
}

/// A wildcard is a heart of the level rank.
pub open spec fn wildcard(card: Card, level_rank: OrdinaryRank) -> bool {
    card.suit == Suit::Heart && ordinary_of(card.rank) == Some(level_rank)
}

/// Whether the card is a heart of the level rank, which may stand for any card.
pub fn is_wildcard(card: &Card, level_rank: OrdinaryRank) -> (b: bool)
    ensures
        b == wildcard(*card, level_rank),
{
    card.suit == Suit::Heart && match card.rank.as_ordinary() {
        Some(rank) => rank.index() == level_rank.index(),
        None => false,
    }
}

/// Order of suits in a sorted hand: diamond, club, heart, spade, joker.
pub open spec fn suit_order(suit: Suit) -> int {
    match suit {
        Suit::Diamond => 0,
        Suit::Club => 1,
        Suit::Heart => 2,
        Suit::Spade => 3,
        Suit::Joker => 4,
    }
}

/// The sort key of a card: strength, then suit order, then deck number.
pub open spec fn sort_key(card: Card, level_rank: OrdinaryRank) -> (int, int, int) {
    (strength(card.rank, level_rank), suit_order(card.suit), card.deck_index as int)
}

/// Lexicographic order of sort keys.
pub open spec fn key_le(a: (int, int, int), b: (int, int, int)) -> bool {
    a.0 < b.0 || (a.0 == b.0 && (a.1 < b.1 || (a.1 == b.1 && a.2 <= b.2)))
}

/// Number of leading cards of `sorted` whose key is at most the key of `card`.
pub open spec fn insert_position(sorted: Seq<Card>, card: Card, level_rank: OrdinaryRank) -> int
    decreases sorted.len(),
{
    if sorted.len() == 0 {
        0
    } else if key_le(sort_key(sorted.last(), level_rank), sort_key(card, level_rank)) {
        sorted.len() as int
    } else {
        insert_position(sorted.drop_last(), card, level_rank)
    }
}

/// Stable sort by key: each card goes after every earlier card whose key is not larger.
pub open spec fn stable_sort(cards: Seq<Card>, level_rank: OrdinaryRank) -> Seq<Card>
    decreases cards.len(),
{
    if cards.len() == 0 {
        cards
    } else {
        let sorted = stable_sort(cards.drop_last(), level_rank);
        sorted.insert(insert_position(sorted, cards.last(), level_rank), cards.last())
    }
}

/// Whether the sequence is ordered by sort key.
pub open spec fn sorted_by_key(s: Seq<Card>, level_rank: OrdinaryRank) -> bool {
    forall|i: int, j: int| 0 <= i < j < s.len() ==> key_le(sort_key(s[i], level_rank), sort_key(s[j], level_rank))
}

proof fn lemma_insert_position(sorted: Seq<Card>, card: Card, level_rank: OrdinaryRank)
    requires
        sorted_by_key(sorted, level_rank),
    ensures
        0 <= insert_position(sorted, card, level_rank) <= sorted.len(),
        sorted_by_key(sorted.insert(insert_position(sorted, card, level_rank), card), level_rank),
    decreases sorted.len(),
{
    let p = insert_position(sorted, card, level_rank);
    if sorted.len() > 0 && key_le(sort_key(sorted.last(), level_rank), sort_key(card, level_rank)) {
        assert(sorted.insert(p, card) =~= sorted.push(card));
        assert forall|i: int| 0 <= i < sorted.len() implies key_le(sort_key(sorted[i], level_rank), sort_key(card, level_rank)) by {
            if i < sorted.len() - 1 {
                assert(key_le(sort_key(sorted[i], level_rank), sort_key(sorted.last(), level_rank)));
            }
        }
    } else if sorted.len() == 0 {
        assert(sorted.insert(p, card) =~= seq![card]);
    } else {
        assert(sorted_by_key(sorted.drop_last(), level_rank));
        lemma_insert_position(sorted.drop_last(), card, level_rank);
        let t = sorted.drop_last().insert(p, card);
        assert(sorted.insert(p, card) =~= t.push(sorted.last()));
        assert forall|i: int| 0 <= i < t.len() implies key_le(sort_key(t[i], level_rank), sort_key(sorted.last(), level_rank)) by {
            if i < p {
                assert(t[i] == sorted[i]);
            } else if i > p {
                assert(t[i] == sorted[i - 1]);
            }
        }
    }
}

/// Sorting orders the cards by their key and keeps the same cards.
pub proof fn law_sorting_orders_and_keeps_the_cards(cards: Seq<Card>, level_rank: OrdinaryRank)
    ensures
        sorted_by_key(stable_sort(cards, level_rank), level_rank),
        stable_sort(cards, level_rank).to_multiset() == cards.to_multiset(),
        stable_sort(cards, level_rank).len() == cards.len(),
    decreases cards.len(),
{
    if cards.len() > 0 {
        let sorted = stable_sort(cards.drop_last(), level_rank);
        law_sorting_orders_and_keeps_the_cards(cards.drop_last(), level_rank);
        lemma_insert_position(sorted, cards.last(), level_rank);
        assert(cards =~= cards.drop_last().push(cards.last()));
    }
}

/// The cards sorted for display: by strength under the level, then suit (diamond,
/// club, heart, spade, joker), then deck, keeping the given order among equal keys.
pub fn sort_cards(cards: &[Card], level_rank: OrdinaryRank) -> (sorted: Vec<Card>)
    ensures
        sorted@ == stable_sort(cards@, level_rank),
{
    let mut sorted: Vec<Card> = Vec::new();
    let mut i: usize = 0;
    while i < cards.len()
        invariant
            i <= cards@.len(),
            sorted@ == stable_sort(cards@.take(i as int), level_rank),
        decreases cards@.len() - i,
    {
        let card = cards[i].clone();
        let key_s = card_rank_strength(card.rank, level_rank);
        let key_o = suit_rank(card.suit);
        let key_d = card.deck_index;
        let mut p: usize = sorted.len();
        proof {
            assert(sorted@.take(p as int) =~= sorted@);
        }
        while p > 0
            invariant
                p <= sorted@.len(),
                sorted@ == stable_sort(cards@.take(i as int), level_rank),
                card == cards@[i as int],
                key_s == strength(card.rank, level_rank),
                key_o == suit_order(card.suit),
                key_d == card.deck_index,
                i < cards@.len(),
                insert_position(sorted@, card, level_rank) == insert_position(sorted@.take(p as int), card, level_rank),
            ensures
                insert_position(sorted@, card, level_rank) == p,
            decreases p,
        {
            let prev = &sorted[p - 1];
            let ps = card_rank_strength(prev.rank, level_rank);
            let po = suit_rank(prev.suit);
            let le = ps < key_s || (ps == key_s && (po < key_o || (po == key_o && prev.deck_index <= key_d)));
            proof {
                assert(sorted@.take(p as int).last() == sorted@[p - 1]);
                assert(sorted@.take(p as int).drop_last() =~= sorted@.take(p - 1));
            }
            if le {
                proof {
                    assert(insert_position(sorted@.take(p as int), card, level_rank) == p);
                }
                break;
            }
            p = p - 1;
        }
        proof {
            assert(cards@.take(i + 1).drop_last() =~= cards@.take(i as int));
            assert(cards@.take(i + 1).last() == cards@[i as int]);
        }
        sorted.insert(p, card);
        i = i + 1;
    }
    proof {
        assert(cards@.take(cards@.len() as int) =~= cards@);
    }
    sorted
}

fn suit_rank(suit: Suit) -> (r: u8)
    ensures
        r == suit_order(suit),
{
    match suit {
        Suit::Diamond => 0,
        Suit::Club => 1,
        Suit::Heart => 2,
        Suit::Spade => 3,
        Suit::Joker => 4,
    }
}

} // verus!
