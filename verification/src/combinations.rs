//! Recognition and comparison of card combinations, wildcards included.

use vstd::prelude::*;
use indexmap::IndexMap;
use crate::cards::{card_rank_strength, is_wildcard, ordinary_rank_value, rank_value, strength, wildcard};
use crate::errors::{ErrorDetails, RuleError};
use crate::indexed::{
    distinct_keys, elem_index, has_key, lemma_elem_index, insert_entry, key_index, lemma_insert_entry, lemma_key_index, lemma_key_index_at,
    lemma_remove_entry, lookup, rank_count_entries, rank_count_get, rank_count_insert, rank_count_len,
    rank_count_new, rank_count_to_vec, remove_entry, semantic_entries, semantic_map_contains, semantic_map_insert,
    semantic_map_into_values, semantic_map_new, wildcard_entries, wildcard_map_clone, wildcard_map_get,
    wildcard_map_insert, wildcard_map_new, wildcard_map_shift_remove,
};
use crate::types::{
    card_rank_of, ordinary_index, ordinary_of, ordinary_rank_at, ordinary_suit_at, ordinary_suit_of, suit_index,
    suit_of, Card, CardRank, Combination, CombinationDeclaration, CombinationKind, OrdinaryRank, OrdinarySuit,
    SemanticKey, Suit, WildcardAssignment,
};

verus! {

/// A card as it is counted once every wildcard has been given a rank and suit.
#[derive(Clone, Copy, Debug, PartialEq, Eq, Structural)]
pub struct VirtualCard {
    pub rank: CardRank,
    pub suit: Suit,
}

/// The meaning of a combination.
pub open spec fn sem(c: Combination) -> SemanticKey {
    (c.kind, c.size, c.primary_rank, c.sequence_top, c.suit)
}

/// Number of cards of the given rank.
pub open spec fn count(vs: Seq<VirtualCard>, r: CardRank) -> nat
    decreases vs.len(),
{
    if vs.len() == 0 {
        0
    } else {
        count(vs.drop_last(), r) + if vs.last().rank == r {
            1nat
        } else {
            0nat
        }
    }
}

/// The ranks present, in order of first appearance.
pub open spec fn distinct_ranks(vs: Seq<VirtualCard>) -> Seq<CardRank>
    decreases vs.len(),
{
    if vs.len() == 0 {
        Seq::empty()
    } else {
        let d = distinct_ranks(vs.drop_last());
        if d.contains(vs.last().rank) {
            d
        } else {
            d.push(vs.last().rank)
        }
    }
}

/// Each present rank, in order of first appearance, with its number of cards.
pub open spec fn count_entries(vs: Seq<VirtualCard>) -> Seq<(CardRank, usize)> {
    distinct_ranks(vs).map_values(|r: CardRank| (r, count(vs, r) as usize))
}

proof fn lemma_count_bound(vs: Seq<VirtualCard>, r: CardRank)
    ensures
        count(vs, r) <= vs.len(),
    decreases vs.len(),
{
    if vs.len() > 0 {
        lemma_count_bound(vs.drop_last(), r);
    }
}

proof fn lemma_distinct_ranks(vs: Seq<VirtualCard>)
    ensures
        distinct_ranks(vs).no_duplicates(),
        forall|r: CardRank| distinct_ranks(vs).contains(r) <==> count(vs, r) > 0,
        distinct_ranks(vs).len() <= vs.len(),
    decreases vs.len(),
{
    if vs.len() > 0 {
        lemma_distinct_ranks(vs.drop_last());
        let d = distinct_ranks(vs.drop_last());
        let x = vs.last().rank;
        if !d.contains(x) {
            assert(d.push(x)[d.len() as int] == x);
            assert forall|r: CardRank| d.push(x).contains(r) <==> (d.contains(r) || r == x) by {
                if d.push(x).contains(r) {
                    let k = choose|k: int| 0 <= k < d.len() + 1 && d.push(x)[k] == r;
                    if k < d.len() {
                        assert(d[k] == r);
                    }
                }
                if d.contains(r) {
                    let k = choose|k: int| 0 <= k < d.len() && d[k] == r;
                    assert(d.push(x)[k] == r);
                }
            }
        }
        let dv = distinct_ranks(vs);
        assert(dv == if d.contains(x) { d } else { d.push(x) });
        assert forall|r: CardRank| dv.contains(r) <==> count(vs, r) > 0 by {
            assert(count(vs, r) == count(vs.drop_last(), r) + if x == r { 1nat } else { 0nat });
            assert(d.contains(r) <==> count(vs.drop_last(), r) > 0);
            if d.contains(x) {
                assert(dv.contains(r) <==> d.contains(r));
            } else {
                assert(dv.contains(r) <==> (d.contains(r) || r == x));
            }
        }
    }
}

proof fn lemma_count_entries_step(vs: Seq<VirtualCard>, c: VirtualCard)
    requires
        vs.len() < usize::MAX,
    ensures
        distinct_keys(count_entries(vs)),
        insert_entry(
            count_entries(vs),
            c.rank,
            (match lookup(count_entries(vs), c.rank) {
                Some(n) => n + 1,
                None => 1,
            }) as usize,
        ) == count_entries(vs.push(c)),
        lookup(count_entries(vs), c.rank) matches Some(n) ==> n < vs.len() + 1,
{
    let e = count_entries(vs);
    let w = vs.push(c);
    assert(w.drop_last() =~= vs);
    lemma_distinct_ranks(vs);
    let d = distinct_ranks(vs);
    assert forall|i: int, j: int| 0 <= i < e.len() && 0 <= j < e.len() && i != j implies e[i].0 != e[j].0 by {
        assert(e[i].0 == d[i]);
        assert(e[j].0 == d[j]);
    }
    lemma_key_index(e, c.rank);
    assert forall|r: CardRank| r != c.rank implies count(w, r) == count(vs, r) by {}
    assert(count(w, c.rank) == count(vs, c.rank) + 1);
    lemma_count_bound(vs, c.rank);
    if d.contains(c.rank) {
        let i = d.index_of(c.rank);
        assert(e[i].0 == c.rank);
        lemma_key_index_at(e, i);
        assert(insert_entry(e, c.rank, (count(vs, c.rank) + 1) as usize) =~= count_entries(w));
    } else {
        assert(forall|j: int| 0 <= j < e.len() ==> e[j].0 == d[j]);
        assert(count(vs, c.rank) == 0);
        assert(insert_entry(e, c.rank, 1) =~= count_entries(w));
    }
}

/// Counts the cards of each rank, keyed in order of first appearance.
fn count_ranks(cards: &Vec<VirtualCard>) -> (counts: IndexMap<CardRank, usize>)
    ensures
        rank_count_entries(counts) == count_entries(cards@),
{
    let mut counts = rank_count_new();
    let mut i: usize = 0;
    proof {
        assert(cards@.take(0) =~= Seq::<VirtualCard>::empty());
        assert(count_entries(Seq::<VirtualCard>::empty()) =~= Seq::<(CardRank, usize)>::empty());
    }
    while i < cards.len()
        invariant
            i <= cards@.len(),
            rank_count_entries(counts) == count_entries(cards@.take(i as int)),
        decreases cards@.len() - i,
    {
        let c = cards[i];
        proof {
            lemma_count_entries_step(cards@.take(i as int), c);
            assert(cards@.take(i + 1) =~= cards@.take(i as int).push(c));
        }
        let n: usize = match rank_count_get(&counts, c.rank) {
            Some(n) => n + 1,
            None => 1,
        };
        rank_count_insert(&mut counts, c.rank, n);
        i = i + 1;
    }
    proof {
        assert(cards@.take(cards@.len() as int) =~= cards@);
    }
    counts
}

/// The rank has exactly `copies` cards.
pub open spec fn copies(e: Seq<(CardRank, usize)>, r: OrdinaryRank, k: usize) -> bool {
    lookup(e, card_rank_of(r)) == Some(k)
}

/// Every rank of the run of `len` ranks starting at position `start` has `k` cards.
pub open spec fn run_copies(e: Seq<(CardRank, usize)>, start: int, len: int, k: usize) -> bool {
    forall|j: int| 0 <= j < len ==> #[trigger] copies(e, ordinary_rank_at(start + j), k)
}

/// Top of the first run of `len` consecutive ranks (ace high) starting at or after
/// position `s` whose ranks all have `k` cards.
pub open spec fn first_run_top(e: Seq<(CardRank, usize)>, len: int, k: usize, s: int) -> Option<OrdinaryRank>
    decreases 13 - s,
{
    if s < 0 || s + len > 13 {
        None
    } else if run_copies(e, s, len, k) {
        Some(ordinary_rank_at(s + len - 1))
    } else {
        first_run_top(e, len, k, s + 1)
    }
}

/// The top of a sequence of `len` consecutive ranks with `k` cards each, when the
/// selection is exactly such a sequence. An ace may sit below two (its top is then
/// the rank at position `len - 2`); sequences never wrap past the ace.
pub open spec fn sequence_top(e: Seq<(CardRank, usize)>, len: int, k: usize) -> Option<OrdinaryRank> {
    if e.len() != len {
        None
    } else if copies(e, OrdinaryRank::Ace, k) && run_copies(e, 0, len - 1, k) {
        Some(ordinary_rank_at(len - 2))
    } else {
        first_run_top(e, len, k, 0)
    }
}

fn has_copies(counts: &IndexMap<CardRank, usize>, rank: OrdinaryRank, k: usize) -> (b: bool)
    ensures
        b == copies(rank_count_entries(*counts), rank, k),
{
    match rank_count_get(counts, CardRank::from_ordinary(rank)) {
        Some(n) => n == k,
        None => false,
    }
}

fn find_sequence_top(counts: &IndexMap<CardRank, usize>, sequence_length: usize, copies_per_rank: usize) -> (r: Option<OrdinaryRank>)
    requires
        2 <= sequence_length <= 13,
    ensures
        r == sequence_top(rank_count_entries(*counts), sequence_length as int, copies_per_rank),
{
    let ghost e = rank_count_entries(*counts);
    if rank_count_len(counts) != sequence_length {
        return None;
    }
    if has_copies(counts, OrdinaryRank::Ace, copies_per_rank) {
        let mut i: usize = 0;
        let mut all = true;
        while i < sequence_length - 1
            invariant
                2 <= sequence_length <= 13,
                i <= sequence_length - 1,
                all == (forall|j: int| 0 <= j < i ==> #[trigger] copies(e, ordinary_rank_at(0 + j), copies_per_rank)),
                e == rank_count_entries(*counts),
            decreases sequence_length - 1 - i,
        {
            let ok = has_copies(counts, OrdinaryRank::at(i), copies_per_rank);
            proof {
                assert(ordinary_rank_at(0 + i) == ordinary_rank_at(i as int));
            }
            all = all && ok;
            i = i + 1;
        }
        if all {
            return Some(OrdinaryRank::at(sequence_length - 2));
        }
    }
    let mut s: usize = 0;
    while s + sequence_length <= 13
        invariant
            2 <= sequence_length <= 13,
            e.len() == sequence_length,
            !(copies(e, OrdinaryRank::Ace, copies_per_rank) && run_copies(e, 0, sequence_length - 1, copies_per_rank)),
            s + sequence_length <= 14,
            e == rank_count_entries(*counts),
            first_run_top(e, sequence_length as int, copies_per_rank, 0)
                == first_run_top(e, sequence_length as int, copies_per_rank, s as int),
        decreases 14 - s - sequence_length,
    {
        let mut j: usize = 0;
        let mut all = true;
        while j < sequence_length
            invariant
                2 <= sequence_length <= 13,
                s + sequence_length <= 13,
                j <= sequence_length,
                all == (forall|t: int| 0 <= t < j ==> #[trigger] copies(e, ordinary_rank_at(s + t), copies_per_rank)),
                e == rank_count_entries(*counts),
            decreases sequence_length - j,
        {
            let ok = has_copies(counts, OrdinaryRank::at(s + j), copies_per_rank);
            all = all && ok;
            j = j + 1;
        }
        if all {
            proof {
                assert(run_copies(e, s as int, sequence_length as int, copies_per_rank));
                assert(first_run_top(e, sequence_length as int, copies_per_rank, s as int)
                    == Some(ordinary_rank_at(s + sequence_length - 1)));
            }
            return Some(OrdinaryRank::at(s + sequence_length - 1));
        }
        s = s + 1;
    }
    None
}

/// Whether no card is a joker.
pub open spec fn ordinary_only(vs: Seq<VirtualCard>) -> bool {
    forall|i: int| 0 <= i < vs.len() ==> #[trigger] vs[i].suit != Suit::Joker
}

/// The first rank, in count order, that has three cards and is ordinary.
pub open spec fn first_triple(e: Seq<(CardRank, usize)>) -> Option<CardRank>
    decreases e.len(),
{
    if e.len() == 0 {
        None
    } else if e[0].1 == 3 && ordinary_of(e[0].0) is Some {
        Some(e[0].0)
    } else {
        first_triple(e.drop_first())
    }
}

/// Whether every card has the same ordinary suit as the first.
pub open spec fn one_suit(vs: Seq<VirtualCard>) -> bool {
    &&& vs.len() > 0
    &&& ordinary_suit_of(vs[0].suit) is Some
    &&& forall|i: int| 0 <= i < vs.len() ==> #[trigger] ordinary_suit_of(vs[i].suit) == ordinary_suit_of(vs[0].suit)
}

/// The meaning of a combination of the cards with the given kind and ranks.
pub open spec fn key_of(vs: Seq<VirtualCard>, kind: CombinationKind, primary: Option<CardRank>, top: Option<OrdinaryRank>, suit: Option<OrdinarySuit>) -> SemanticKey {
    (kind, vs.len() as usize, primary, top, suit)
}

/// The rank of the first card, if any.
pub open spec fn first_rank(vs: Seq<VirtualCard>) -> Option<CardRank> {
    if vs.len() > 0 {
        Some(vs[0].rank)
    } else {
        None
    }
}

/// One card is a single of its rank.
pub open spec fn single_keys(vs: Seq<VirtualCard>) -> Seq<SemanticKey> {
    if vs.len() == 1 {
        seq![key_of(vs, CombinationKind::Single, first_rank(vs), None, None)]
    } else {
        seq![]
    }
}

/// Two cards of one rank are a pair.
pub open spec fn pair_keys(vs: Seq<VirtualCard>) -> Seq<SemanticKey> {
    if vs.len() == 2 && count_entries(vs).len() == 1 {
        seq![key_of(vs, CombinationKind::Pair, first_rank(vs), None, None)]
    } else {
        seq![]
    }
}

/// Three cards of one ordinary rank are a triple.
pub open spec fn triple_keys(vs: Seq<VirtualCard>) -> Seq<SemanticKey> {
    if vs.len() == 3 && ordinary_only(vs) && count_entries(vs).len() == 1 {
        seq![key_of(vs, CombinationKind::Triple, first_rank(vs), None, None)]
    } else {
        seq![]
    }
}

/// Five cards of two ranks, three of one, are a full house of that rank.
pub open spec fn full_house_keys(vs: Seq<VirtualCard>) -> Seq<SemanticKey> {
    if vs.len() == 5 && count_entries(vs).len() == 2 && first_triple(count_entries(vs)) is Some {
        seq![key_of(vs, CombinationKind::FullHouse, first_triple(count_entries(vs)), None, None)]
    } else {
        seq![]
    }
}

/// Five consecutive ranks are a straight, and also a straight flush when of one suit.
pub open spec fn straight_keys(vs: Seq<VirtualCard>) -> Seq<SemanticKey> {
    let top = sequence_top(count_entries(vs), 5, 1);
    if top is Some {
        if one_suit(vs) {
            seq![
                key_of(vs, CombinationKind::Straight, None, top, None),
                key_of(vs, CombinationKind::StraightFlush, None, top, ordinary_suit_of(vs[0].suit)),
            ]
        } else {
            seq![key_of(vs, CombinationKind::Straight, None, top, None)]
        }
    } else {
        seq![]
    }
}

/// Three consecutive pairs.
pub open spec fn pairs_keys(vs: Seq<VirtualCard>) -> Seq<SemanticKey> {
    let top = sequence_top(count_entries(vs), 3, 2);
    if top is Some {
        seq![key_of(vs, CombinationKind::ConsecutivePairs, None, top, None)]
    } else {
        seq![]
    }
}

/// Two consecutive triples.
pub open spec fn triples_keys(vs: Seq<VirtualCard>) -> Seq<SemanticKey> {
    let top = sequence_top(count_entries(vs), 2, 3);
    if top is Some {
        seq![key_of(vs, CombinationKind::ConsecutiveTriples, None, top, None)]
    } else {
        seq![]
    }
}

/// Four or more cards of one ordinary rank are a bomb.
pub open spec fn bomb_keys(vs: Seq<VirtualCard>) -> Seq<SemanticKey> {
    if vs.len() >= 4 && ordinary_only(vs) && count_entries(vs).len() == 1 {
        seq![key_of(vs, CombinationKind::Bomb, first_rank(vs), None, None)]
    } else {
        seq![]
    }
}

/// Every combination that resolved cards form, in a fixed kind order: single, pair,
/// triple, full house, straight (and straight flush), consecutive pairs, consecutive
/// triples, bomb.
pub open spec fn classify(vs: Seq<VirtualCard>) -> Seq<SemanticKey> {
    single_keys(vs) + pair_keys(vs) + triple_keys(vs) + full_house_keys(vs) + straight_keys(vs) + pairs_keys(vs)
        + triples_keys(vs) + bomb_keys(vs)
}

fn add_combination(
    out: &mut Vec<Combination>,
    key: SemanticKey,
    assignments: &IndexMap<String, WildcardAssignment>,
)
    ensures
        final(out)@.len() == old(out)@.len() + 1,
        forall|i: int| 0 <= i < old(out)@.len() ==> #[trigger] final(out)@[i] == old(out)@[i],
        sem(final(out)@.last()) == key,
        wildcard_entries(final(out)@.last().wildcard_assignments) == wildcard_entries(*assignments),
{
    out.push(
        Combination {
            kind: key.0,
            size: key.1,
            primary_rank: key.2,
            sequence_top: key.3,
            suit: key.4,
            wildcard_assignments: wildcard_map_clone(assignments),
        },
    );
}

fn first_ordinary_triple(counts: &IndexMap<CardRank, usize>) -> (r: Option<CardRank>)
    ensures
        r == first_triple(rank_count_entries(*counts)),
{
    let entries = rank_count_to_vec(counts);
    let ghost e = rank_count_entries(*counts);
    let mut i: usize = 0;
    proof {
        assert(e.skip(0) =~= e);
    }
    while i < entries.len()
        invariant
            entries@ == e,
            e == rank_count_entries(*counts),
            i <= e.len(),
            first_triple(e) == first_triple(e.skip(i as int)),
        decreases e.len() - i,
    {
        let (rank, n) = entries[i];
        proof {
            assert(e.skip(i as int)[0] == e[i as int]);
            assert(e.skip(i as int).drop_first() =~= e.skip(i + 1));
        }
        if n == 3 && rank.as_ordinary().is_some() {
            proof {
                assert(first_triple(e.skip(i as int)) == Some(rank));
                assert(first_triple(e) == Some(rank));
            }
            return Some(rank);
        }
        i = i + 1;
    }
    None
}

fn all_one_suit(cards: &Vec<VirtualCard>) -> (b: bool)
    ensures
        b == one_suit(cards@),
{
    if cards.len() == 0 {
        return false;
    }
    let first = cards[0].suit.as_ordinary();
    if first.is_none() {
        return false;
    }
    let mut i: usize = 0;
    while i < cards.len()
        invariant
            i <= cards@.len(),
            cards@.len() > 0,
            first == ordinary_suit_of(cards@[0].suit),
            forall|j: int| 0 <= j < i ==> #[trigger] ordinary_suit_of(cards@[j].suit) == first,
        decreases cards@.len() - i,
    {
        if cards[i].suit.as_ordinary() != first {
            return false;
        }
        i = i + 1;
    }
    true
}

fn all_ordinary(cards: &Vec<VirtualCard>) -> (b: bool)
    ensures
        b == ordinary_only(cards@),
{
    let mut i: usize = 0;
    while i < cards.len()
        invariant
            i <= cards@.len(),
            forall|j: int| 0 <= j < i ==> #[trigger] cards@[j].suit != Suit::Joker,
        decreases cards@.len() - i,
    {
        if cards[i].suit == Suit::Joker {
            return false;
        }
        i = i + 1;
    }
    true
}

/// Every combination that fully resolved cards form, in kind order, each carrying a
/// copy of the wildcard assignments that produced the cards.
fn classify_resolved(cards: &Vec<VirtualCard>, assignments: &IndexMap<String, WildcardAssignment>) -> (r: Vec<Combination>)
    ensures
        r@.len() == classify(cards@).len(),
        forall|i: int| 0 <= i < r@.len() ==> #[trigger] sem(r@[i]) == classify(cards@)[i],
        forall|i: int| 0 <= i < r@.len() ==> wildcard_entries(#[trigger] r@[i].wildcard_assignments) == wildcard_entries(*assignments),
{
    let ghost vs = cards@;
    let mut out: Vec<Combination> = Vec::new();
    let counts = count_ranks(cards);
    let distinct = rank_count_len(&counts);
    let size = cards.len();
    let ordinary = all_ordinary(cards);
    let first: Option<CardRank> = if size > 0 {
        Some(cards[0].rank)
    } else {
        None
    };
    let ghost mut expected: Seq<SemanticKey> = Seq::empty();

    if size == 1 {
        add_combination(&mut out, (CombinationKind::Single, size, first, None, None), assignments);
    }
    proof {
        expected = expected + single_keys(vs);
    }
    assert(out@.map_values(|c: Combination| sem(c)) =~= expected);
    if size == 2 && distinct == 1 {
        add_combination(&mut out, (CombinationKind::Pair, size, first, None, None), assignments);
    }
    proof {
        expected = expected + pair_keys(vs);
    }
    assert(out@.map_values(|c: Combination| sem(c)) =~= expected);
    if size == 3 && ordinary && distinct == 1 {
        add_combination(&mut out, (CombinationKind::Triple, size, first, None, None), assignments);
    }
    proof {
        expected = expected + triple_keys(vs);
    }
    assert(out@.map_values(|c: Combination| sem(c)) =~= expected);
    if size == 5 && distinct == 2 {
        let triple = first_ordinary_triple(&counts);
        if triple.is_some() {
            add_combination(&mut out, (CombinationKind::FullHouse, size, triple, None, None), assignments);
        }
    }
    proof {
        expected = expected + full_house_keys(vs);
    }
    assert(out@.map_values(|c: Combination| sem(c)) =~= expected);
    let straight_top = find_sequence_top(&counts, 5, 1);
    if straight_top.is_some() {
        add_combination(&mut out, (CombinationKind::Straight, size, None, straight_top, None), assignments);
        if all_one_suit(cards) {
            let suit = cards[0].suit.as_ordinary();
            add_combination(&mut out, (CombinationKind::StraightFlush, size, None, straight_top, suit), assignments);
        }
    }
    proof {
        expected = expected + straight_keys(vs);
    }
    assert(out@.map_values(|c: Combination| sem(c)) =~= expected);
    let pair_top = find_sequence_top(&counts, 3, 2);
    if pair_top.is_some() {
        add_combination(&mut out, (CombinationKind::ConsecutivePairs, size, None, pair_top, None), assignments);
    }
    proof {
        expected = expected + pairs_keys(vs);
    }
    assert(out@.map_values(|c: Combination| sem(c)) =~= expected);
    let triple_top = find_sequence_top(&counts, 2, 3);
    if triple_top.is_some() {
        add_combination(&mut out, (CombinationKind::ConsecutiveTriples, size, None, triple_top, None), assignments);
    }
    proof {
        expected = expected + triples_keys(vs);
    }
    assert(out@.map_values(|c: Combination| sem(c)) =~= expected);
    if size >= 4 && ordinary && distinct == 1 {
        add_combination(&mut out, (CombinationKind::Bomb, size, first, None, None), assignments);
    }
    proof {
        expected = expected + bomb_keys(vs);
        assert(expected =~= classify(vs));
    }
    assert(out@.map_values(|c: Combination| sem(c)) =~= expected);
    assert forall|i: int| 0 <= i < out@.len() implies #[trigger] sem(out@[i]) == classify(vs)[i] by {
        assert(out@.map_values(|c: Combination| sem(c))[i] == sem(out@[i]));
    }
    out
}

} // verus!

verus! {

/// Positions of the wildcard cards, in order.
pub open spec fn wild_indexes(cards: Seq<Card>, level_rank: OrdinaryRank) -> Seq<int>
    decreases cards.len(),
{
    if cards.len() == 0 {
        Seq::empty()
    } else {
        let w = wild_indexes(cards.drop_last(), level_rank);
        if wildcard(cards.last(), level_rank) {
            w.push(cards.len() - 1)
        } else {
            w
        }
    }
}

/// The wildcard assignment entries of a choice: the `j`-th wildcard, by id, stands for
/// `choice[j]`.
pub open spec fn assignment_entries(
    cards: Seq<Card>,
    level_rank: OrdinaryRank,
    choice: Seq<WildcardAssignment>,
) -> Seq<(Seq<char>, WildcardAssignment)> {
    Seq::new(choice.len(), |j: int| (cards[wild_indexes(cards, level_rank)[j]].id@, choice[j]))
}

/// The card as it counts: an assigned card takes the assigned rank and suit, any other
/// card keeps its own.
pub open spec fn resolve_card(card: Card, entries: Seq<(Seq<char>, WildcardAssignment)>) -> VirtualCard {
    match lookup(entries, card.id@) {
        Some(a) => VirtualCard { rank: card_rank_of(a.rank), suit: suit_of(a.suit) },
        None => VirtualCard { rank: card.rank, suit: card.suit },
    }
}

/// The cards as they count under the assignment entries.
pub open spec fn resolve(cards: Seq<Card>, entries: Seq<(Seq<char>, WildcardAssignment)>) -> Seq<VirtualCard> {
    Seq::new(cards.len(), |i: int| resolve_card(cards[i], entries))
}

/// A choice gives one rank and suit to every wildcard.
pub open spec fn valid_choice(cards: Seq<Card>, level_rank: OrdinaryRank, choice: Seq<WildcardAssignment>) -> bool {
    choice.len() == wild_indexes(cards, level_rank).len()
}

/// The combinations formed when the wildcards stand for `choice`.
pub open spec fn choice_keys(cards: Seq<Card>, level_rank: OrdinaryRank, choice: Seq<WildcardAssignment>) -> Seq<SemanticKey> {
    classify(resolve(cards, assignment_entries(cards, level_rank, choice)))
}

/// Some choice of the wildcards forms the combination with meaning `s`.
pub open spec fn achieved(cards: Seq<Card>, level_rank: OrdinaryRank, s: SemanticKey) -> bool {
    exists|choice: Seq<WildcardAssignment>|
        valid_choice(cards, level_rank, choice) && #[trigger] choice_keys(cards, level_rank, choice).contains(s)
}

/// No two cards share an id.
pub open spec fn distinct_ids(cards: Seq<Card>) -> bool {
    forall|i: int, j: int| 0 <= i < cards.len() && 0 <= j < cards.len() && i != j ==> cards[i].id@ != cards[j].id@
}

/// A playable selection: one to ten cards with distinct ids.
pub open spec fn valid_selection(cards: Seq<Card>) -> bool {
    1 <= cards.len() <= 10 && distinct_ids(cards)
}

/// Number of cards of a rank.
pub open spec fn rank_count(cards: Seq<Card>, r: CardRank) -> nat
    decreases cards.len(),
{
    if cards.len() == 0 {
        0
    } else {
        rank_count(cards.drop_last(), r) + if cards.last().rank == r {
            1nat
        } else {
            0nat
        }
    }
}

/// Exactly two small jokers and two big jokers.
pub open spec fn all_jokers(cards: Seq<Card>) -> bool {
    cards.len() == 4 && rank_count(cards, CardRank::SmallJoker) == 2 && rank_count(cards, CardRank::BigJoker) == 2
}

/// A lone wildcard, which is played as its natural level rank.
pub open spec fn lone_wildcard(cards: Seq<Card>, level_rank: OrdinaryRank) -> bool {
    cards.len() == 1 && wildcard(cards[0], level_rank)
}

/// The meaning of the four jokers.
pub open spec fn joker_bomb_key() -> SemanticKey {
    (CombinationKind::JokerBomb, 4, None, None, None)
}

/// The meaning of a single card of the level rank.
pub open spec fn level_single_key(level_rank: OrdinaryRank) -> SemanticKey {
    (CombinationKind::Single, 1, Some(card_rank_of(level_rank)), None, None)
}

/// The selection can be played as a combination with meaning `s`.
pub open spec fn achievable(cards: Seq<Card>, level_rank: OrdinaryRank, s: SemanticKey) -> bool {
    &&& valid_selection(cards)
    &&& if lone_wildcard(cards, level_rank) {
        s == level_single_key(level_rank)
    } else {
        (all_jokers(cards) && s == joker_bomb_key()) || achieved(cards, level_rank, s)
    }
}

/// `c1` comes before `c2` in the order in which wildcard choices are tried: at the
/// first position where they differ, `c1` stands for an earlier rank, or the same rank
/// and an earlier suit.
pub open spec fn choice_before(c1: Seq<WildcardAssignment>, c2: Seq<WildcardAssignment>) -> bool {
    exists|p: int|
        0 <= p < c1.len() && p < c2.len() && c1.take(p) == c2.take(p) && assignment_order(c1[p])
            < assignment_order(#[trigger] c2[p])
}

/// A found combination is justified: the joker bomb of four jokers with no
/// assignments, or a combination formed by a choice whose assignments it carries, the
/// first choice in trying order that forms a combination of that meaning.
pub open spec fn justified(cards: Seq<Card>, level_rank: OrdinaryRank, e: (SemanticKey, Combination)) -> bool {
    &&& sem(e.1) == e.0
    &&& (e.0 == joker_bomb_key() && all_jokers(cards) && wildcard_entries(e.1.wildcard_assignments).len() == 0)
        || exists|choice: Seq<WildcardAssignment>|
        #![trigger assignment_entries(cards, level_rank, choice)]
        {
            &&& valid_choice(cards, level_rank, choice)
            &&& choice_keys(cards, level_rank, choice).contains(e.0)
            &&& wildcard_entries(e.1.wildcard_assignments) == assignment_entries(cards, level_rank, choice)
            &&& forall|c2: Seq<WildcardAssignment>|
                valid_choice(cards, level_rank, c2) && #[trigger] choice_before(c2, choice) ==> !choice_keys(
                    cards,
                    level_rank,
                    c2,
                ).contains(e.0)
        }
}

/// The found combinations have distinct meanings and each is justified.
pub open spec fn unique_inv(cards: Seq<Card>, level_rank: OrdinaryRank, e: Seq<(SemanticKey, Combination)>) -> bool {
    &&& distinct_keys(e)
    &&& forall|i: int| 0 <= i < e.len() ==> #[trigger] justified(cards, level_rank, e[i])
}

/// Every combination formed by the choice is already keyed in `e`.
pub open spec fn covered(
    cards: Seq<Card>,
    level_rank: OrdinaryRank,
    e: Seq<(SemanticKey, Combination)>,
    choice: Seq<WildcardAssignment>,
) -> bool {
    forall|s: SemanticKey| #[trigger] choice_keys(cards, level_rank, choice).contains(s) ==> has_key(e, s)
}

/// The assignments of an entry list, in wildcard order.
pub open spec fn choice_of(entries: Seq<(Seq<char>, WildcardAssignment)>) -> Seq<WildcardAssignment> {
    entries.map_values(|e: (Seq<char>, WildcardAssignment)| e.1)
}

/// The choice of wildcards that a found combination carries.
pub open spec fn entry_choice(e: (SemanticKey, Combination)) -> Seq<WildcardAssignment> {
    choice_of(wildcard_entries(e.1.wildcard_assignments))
}

/// `a` is found before `b` when the wildcard choices are tried in order: its choice comes
/// first, or it is the same choice and `a`'s meaning comes first among the meanings that
/// choice forms.
pub open spec fn found_before(cards: Seq<Card>, level_rank: OrdinaryRank, a: (SemanticKey, Combination), b: (SemanticKey, Combination)) -> bool {
    ||| choice_before(entry_choice(a), entry_choice(b))
    ||| entry_choice(a) == entry_choice(b) && elem_index(choice_keys(cards, level_rank, entry_choice(a)), a.0)
        < elem_index(choice_keys(cards, level_rank, entry_choice(a)), b.0)
}

/// Apart from the joker bomb, the entries come in the order in which they are found.
pub open spec fn in_trying_order(cards: Seq<Card>, level_rank: OrdinaryRank, e: Seq<(SemanticKey, Combination)>) -> bool {
    forall|i: int, j: int|
        #![trigger e[i], e[j]]
        0 <= i < j < e.len() && e[i].0 != joker_bomb_key() && e[j].0 != joker_bomb_key() ==> found_before(
            cards,
            level_rank,
            e[i],
            e[j],
        )
}

proof fn lemma_has_key_prefix<K, V>(a: Seq<(K, V)>, b: Seq<(K, V)>, k: K)
    requires
        a.len() <= b.len(),
        a == b.take(a.len() as int),
        has_key(a, k),
    ensures
        has_key(b, k),
{
    lemma_key_index(a, k);
    lemma_key_index(b, k);
    let i = key_index(a, k);
    assert(b[i] == a[i]);
}

proof fn lemma_covered_prefix(
    cards: Seq<Card>,
    level_rank: OrdinaryRank,
    a: Seq<(SemanticKey, Combination)>,
    b: Seq<(SemanticKey, Combination)>,
    choice: Seq<WildcardAssignment>,
)
    requires
        a.len() <= b.len(),
        a == b.take(a.len() as int),
        covered(cards, level_rank, a, choice),
    ensures
        covered(cards, level_rank, b, choice),
{
    assert forall|s: SemanticKey| #[trigger] choice_keys(cards, level_rank, choice).contains(s) implies has_key(b, s) by {
        lemma_has_key_prefix(a, b, s);
    }
}

proof fn lemma_wild_indexes(cards: Seq<Card>, level_rank: OrdinaryRank)
    ensures
        forall|j: int| 0 <= j < wild_indexes(cards, level_rank).len() ==> {
            let w = #[trigger] wild_indexes(cards, level_rank)[j];
            0 <= w < cards.len() && wildcard(cards[w], level_rank)
        },
        forall|a: int, b: int|
            0 <= a < b < wild_indexes(cards, level_rank).len() ==> wild_indexes(cards, level_rank)[a] < wild_indexes(
                cards,
                level_rank,
            )[b],
        wild_indexes(cards, level_rank).len() <= cards.len(),
    decreases cards.len(),
{
    if cards.len() > 0 {
        let d = cards.drop_last();
        lemma_wild_indexes(d, level_rank);
        let w = wild_indexes(d, level_rank);
        assert forall|j: int| 0 <= j < w.len() implies #[trigger] cards[w[j]] == d[w[j]] by {}
    }
}

/// The positions of the wildcards, in order.
fn wildcard_positions(cards: &[Card], level_rank: OrdinaryRank) -> (w: Vec<usize>)
    ensures
        w@.len() == wild_indexes(cards@, level_rank).len(),
        forall|j: int| 0 <= j < w@.len() ==> #[trigger] w@[j] as int == wild_indexes(cards@, level_rank)[j],
{
    let mut w: Vec<usize> = Vec::new();
    let mut i: usize = 0;
    while i < cards.len()
        invariant
            i <= cards@.len(),
            w@.len() == wild_indexes(cards@.take(i as int), level_rank).len(),
            forall|j: int| 0 <= j < w@.len() ==> #[trigger] w@[j] as int == wild_indexes(cards@.take(i as int), level_rank)[j],
        decreases cards@.len() - i,
    {
        proof {
            assert(cards@.take(i + 1).drop_last() =~= cards@.take(i as int));
            assert(cards@.take(i + 1).last() == cards@[i as int]);
        }
        if is_wildcard(&cards[i], level_rank) {
            w.push(i);
        }
        i = i + 1;
    }
    proof {
        assert(cards@.take(cards@.len() as int) =~= cards@);
    }
    w
}

proof fn lemma_assignment_entries_distinct(cards: Seq<Card>, level_rank: OrdinaryRank, choice: Seq<WildcardAssignment>)
    requires
        distinct_ids(cards),
        choice.len() <= wild_indexes(cards, level_rank).len(),
    ensures
        distinct_keys(assignment_entries(cards, level_rank, choice)),
{
    lemma_wild_indexes(cards, level_rank);
    let e = assignment_entries(cards, level_rank, choice);
    let w = wild_indexes(cards, level_rank);
    assert forall|a: int, b: int| 0 <= a < e.len() && 0 <= b < e.len() && a != b implies e[a].0 != e[b].0 by {
        if a < b {
            assert(w[a] < w[b]);
        } else {
            assert(w[b] < w[a]);
        }
    }
}

/// Resolves every card by looking its id up in the assignments.
fn resolve_cards(cards: &[Card], assignments: &IndexMap<String, WildcardAssignment>) -> (v: Vec<VirtualCard>)
    ensures
        v@ == resolve(cards@, wildcard_entries(*assignments)),
{
    let ghost e = wildcard_entries(*assignments);
    let mut v: Vec<VirtualCard> = Vec::new();
    let mut i: usize = 0;
    while i < cards.len()
        invariant
            i <= cards@.len(),
            e == wildcard_entries(*assignments),
            v@.len() == i,
            forall|j: int| 0 <= j < i ==> #[trigger] v@[j] == resolve_card(cards@[j], e),
        decreases cards@.len() - i,
    {
        let card = &cards[i];
        let vc = match wildcard_map_get(assignments, &card.id) {
            Some(a) => VirtualCard { rank: CardRank::from_ordinary(a.rank), suit: Suit::from_ordinary(a.suit) },
            None => VirtualCard { rank: card.rank, suit: card.suit },
        };
        v.push(vc);
        i = i + 1;
    }
    proof {
        assert(v@ =~= resolve(cards@, e));
    }
    v
}

proof fn lemma_justified_insert(
    cards: Seq<Card>,
    level_rank: OrdinaryRank,
    e: Seq<(SemanticKey, Combination)>,
    k: SemanticKey,
    c: Combination,
)
    requires
        unique_inv(cards, level_rank, e),
        !has_key(e, k),
        justified(cards, level_rank, (k, c)),
    ensures
        unique_inv(cards, level_rank, insert_entry(e, k, c)),
        insert_entry(e, k, c) == e.push((k, c)),
        has_key(insert_entry(e, k, c), k),
{
    lemma_key_index(e, k);
    lemma_insert_entry(e, k, c);
    let t = e.push((k, c));
    assert forall|i: int| 0 <= i < t.len() implies #[trigger] justified(cards, level_rank, t[i]) by {
        if i < e.len() {
            assert(t[i] == e[i]);
        }
    }
}

/// Adds every combination formed by one fully resolved choice, keeping the first
/// combination found for each meaning.
fn add_resolved(
    cards: &[Card],
    level_rank: OrdinaryRank,
    assignments: &IndexMap<String, WildcardAssignment>,
    unique: &mut IndexMap<SemanticKey, Combination>,
    Ghost(choice): Ghost<Seq<WildcardAssignment>>,
)
    requires
        valid_choice(cards@, level_rank, choice),
        wildcard_entries(*assignments) == assignment_entries(cards@, level_rank, choice),
        unique_inv(cards@, level_rank, semantic_entries(*old(unique))),
        forall|c2: Seq<WildcardAssignment>|
            valid_choice(cards@, level_rank, c2) && #[trigger] choice_before(c2, choice) ==> covered(
                cards@,
                level_rank,
                semantic_entries(*old(unique)),
                c2,
            ),
        in_trying_order(cards@, level_rank, semantic_entries(*old(unique))),
        forall|i: int|
            0 <= i < semantic_entries(*old(unique)).len() && semantic_entries(*old(unique))[i].0 != joker_bomb_key()
                ==> choice_before(entry_choice(#[trigger] semantic_entries(*old(unique))[i]), choice),
    ensures
        unique_inv(cards@, level_rank, semantic_entries(*final(unique))),
        semantic_entries(*old(unique)) == semantic_entries(*final(unique)).take(semantic_entries(*old(unique)).len() as int),
        semantic_entries(*old(unique)).len() <= semantic_entries(*final(unique)).len(),
        covered(cards@, level_rank, semantic_entries(*final(unique)), choice),
        in_trying_order(cards@, level_rank, semantic_entries(*final(unique))),
        forall|i: int|
            semantic_entries(*old(unique)).len() <= i < semantic_entries(*final(unique)).len() ==> entry_choice(
                #[trigger] semantic_entries(*final(unique))[i],
            ) == choice,
{
    let resolved = resolve_cards(cards, assignments);
    let found = classify_resolved(&resolved, assignments);
    let ghost keys = choice_keys(cards@, level_rank, choice);
    assert(keys == classify(resolved@));
    let ghost start = semantic_entries(*unique);
    let mut k: usize = 0;
    while k < found.len()
        invariant
            k <= found@.len(),
            found@.len() == keys.len(),
            keys == choice_keys(cards@, level_rank, choice),
            valid_choice(cards@, level_rank, choice),
            forall|i: int| 0 <= i < found@.len() ==> #[trigger] sem(found@[i]) == keys[i],
            forall|i: int|
                0 <= i < found@.len() ==> wildcard_entries(#[trigger] found@[i].wildcard_assignments)
                    == assignment_entries(cards@, level_rank, choice),
            unique_inv(cards@, level_rank, semantic_entries(*unique)),
            start == semantic_entries(*unique).take(start.len() as int),
            start.len() <= semantic_entries(*unique).len(),
            forall|i: int| 0 <= i < k ==> has_key(semantic_entries(*unique), #[trigger] keys[i]),
            forall|c2: Seq<WildcardAssignment>|
                valid_choice(cards@, level_rank, c2) && #[trigger] choice_before(c2, choice) ==> covered(
                    cards@,
                    level_rank,
                    start,
                    c2,
                ),
            in_trying_order(cards@, level_rank, semantic_entries(*unique)),
            forall|i: int|
                0 <= i < start.len() && start[i].0 != joker_bomb_key() ==> choice_before(
                    entry_choice(#[trigger] start[i]),
                    choice,
                ),
            forall|i: int|
                start.len() <= i < semantic_entries(*unique).len() ==> entry_choice(
                    #[trigger] semantic_entries(*unique)[i],
                ) == choice && elem_index(keys, semantic_entries(*unique)[i].0) < k,
        decreases found@.len() - k,
    {
        let combination = found[k].clone();
        let key: SemanticKey = (combination.kind, combination.size, combination.primary_rank, combination.sequence_top, combination.suit);
        let ghost before = semantic_entries(*unique);
        assert(sem(found@[k as int]) == keys[k as int]);
        assert(key == keys[k as int]);
        if !semantic_map_contains(unique, &key) {
            proof {
                assert(keys.contains(key));
                assert(wildcard_entries(combination.wildcard_assignments) == assignment_entries(cards@, level_rank, choice));
                assert forall|c2: Seq<WildcardAssignment>|
                    valid_choice(cards@, level_rank, c2) && #[trigger] choice_before(c2, choice) implies !choice_keys(
                        cards@,
                        level_rank,
                        c2,
                    ).contains(key) by {
                    if choice_keys(cards@, level_rank, c2).contains(key) {
                        assert(has_key(start, key));
                        lemma_has_key_prefix(start, before, key);
                    }
                }
                lemma_justified_insert(cards@, level_rank, before, key, combination);
                assert(choice_of(assignment_entries(cards@, level_rank, choice)) =~= choice);
                lemma_elem_index(keys, key);
                assert(elem_index(keys, key) == k) by {
                    let ei = elem_index(keys, key);
                    if ei < k {
                        assert(has_key(before, keys[ei]));
                    }
                }
            }
            semantic_map_insert(unique, key, combination);
            proof {
                let after = semantic_entries(*unique);
                assert(after == before.push((key, combination)));
                assert(entry_choice(after[before.len() as int]) == choice);
                assert forall|i: int, j: int|
                    #![trigger after[i], after[j]]
                    0 <= i < j < after.len() && after[i].0 != joker_bomb_key() && after[j].0 != joker_bomb_key()
                        implies found_before(cards@, level_rank, after[i], after[j]) by {
                    if j == before.len() {
                        assert(after[i] == before[i]);
                        if i < start.len() {
                            assert(start[i] == before[i]);
                        }
                    } else {
                        assert(after[i] == before[i] && after[j] == before[j]);
                    }
                }
                assert(start =~= after.take(start.len() as int));
                assert(before =~= after.take(before.len() as int));
                assert forall|i: int| 0 <= i < k implies has_key(after, #[trigger] keys[i]) by {
                    lemma_has_key_prefix(before, after, keys[i]);
                }
            }
        }
        k = k + 1;
    }
    assert forall|s: SemanticKey| #[trigger] keys.contains(s) implies has_key(semantic_entries(*unique), s) by {
        let i = keys.index_of(s);
        assert(has_key(semantic_entries(*unique), keys[i]));
    }
}

/// Lexicographic position of an assignment among the 52 rank and suit pairs.
pub open spec fn assignment_order(a: WildcardAssignment) -> int {
    ordinary_index(a.rank) * 4 + suit_index(a.suit)
}

proof fn lemma_assignment_entries_push(
    cards: Seq<Card>,
    level_rank: OrdinaryRank,
    prefix: Seq<WildcardAssignment>,
    a: WildcardAssignment,
)
    ensures
        assignment_entries(cards, level_rank, prefix.push(a)) == assignment_entries(cards, level_rank, prefix).push(
            (cards[wild_indexes(cards, level_rank)[prefix.len() as int]].id@, a),
        ),
{
    assert(assignment_entries(cards, level_rank, prefix.push(a)) =~= assignment_entries(cards, level_rank, prefix).push(
        (cards[wild_indexes(cards, level_rank)[prefix.len() as int]].id@, a),
    ));
}

/// Tries every rank and suit for the wildcards from position `pos` on, in order of rank
/// then suit, and adds every combination that each full choice forms.
fn visit_wildcard_assignments(
    cards: &[Card],
    level_rank: OrdinaryRank,
    wild: &Vec<usize>,
    pos: usize,
    assignments: &mut IndexMap<String, WildcardAssignment>,
    unique: &mut IndexMap<SemanticKey, Combination>,
    Ghost(prefix): Ghost<Seq<WildcardAssignment>>,
)
    requires
        distinct_ids(cards@),
        wild@.len() == wild_indexes(cards@, level_rank).len(),
        wild@.len() < usize::MAX,
        forall|j: int| 0 <= j < wild@.len() ==> #[trigger] wild@[j] as int == wild_indexes(cards@, level_rank)[j],
        pos <= wild@.len(),
        prefix.len() == pos,
        wildcard_entries(*old(assignments)) == assignment_entries(cards@, level_rank, prefix),
        unique_inv(cards@, level_rank, semantic_entries(*old(unique))),
        forall|c2: Seq<WildcardAssignment>|
            valid_choice(cards@, level_rank, c2) && #[trigger] choice_before(c2, prefix) ==> covered(
                cards@,
                level_rank,
                semantic_entries(*old(unique)),
                c2,
            ),
        in_trying_order(cards@, level_rank, semantic_entries(*old(unique))),
        forall|i: int|
            0 <= i < semantic_entries(*old(unique)).len() && semantic_entries(*old(unique))[i].0 != joker_bomb_key()
                ==> choice_before(entry_choice(#[trigger] semantic_entries(*old(unique))[i]), prefix),
    ensures
        in_trying_order(cards@, level_rank, semantic_entries(*final(unique))),
        forall|i: int|
            semantic_entries(*old(unique)).len() <= i < semantic_entries(*final(unique)).len() ==> entry_choice(
                #[trigger] semantic_entries(*final(unique))[i],
            ).len() == wild@.len() && entry_choice(semantic_entries(*final(unique))[i]).take(pos as int) == prefix,
        wildcard_entries(*final(assignments)) == wildcard_entries(*old(assignments)),
        unique_inv(cards@, level_rank, semantic_entries(*final(unique))),
        semantic_entries(*old(unique)) == semantic_entries(*final(unique)).take(semantic_entries(*old(unique)).len() as int),
        semantic_entries(*old(unique)).len() <= semantic_entries(*final(unique)).len(),
        forall|choice: Seq<WildcardAssignment>|
            valid_choice(cards@, level_rank, choice) && choice.take(pos as int) == prefix
                ==> #[trigger] covered(cards@, level_rank, semantic_entries(*final(unique)), choice),
    decreases wild@.len() - pos,
{
    if pos == wild.len() {
        add_resolved(cards, level_rank, assignments, unique, Ghost(prefix));
        assert(prefix.take(pos as int) =~= prefix);
        assert forall|choice: Seq<WildcardAssignment>|
            valid_choice(cards@, level_rank, choice) && choice.take(pos as int) == prefix
                implies #[trigger] covered(cards@, level_rank, semantic_entries(*unique), choice) by {
            assert(choice =~= prefix);
        }
        return;
    }
    proof {
        lemma_wild_indexes(cards@, level_rank);
        lemma_assignment_entries_distinct(cards@, level_rank, prefix);
    }
    let card = &cards[wild[pos]];
    let ghost base = wildcard_entries(*assignments);
    let ghost start = semantic_entries(*unique);
    let ghost id = card.id@;
    let mut rank_i: usize = 0;
    let mut started = false;
    while rank_i < 13
        invariant
            distinct_ids(cards@),
            wild@.len() == wild_indexes(cards@, level_rank).len(),
            forall|j: int| 0 <= j < wild@.len() ==> #[trigger] wild@[j] as int == wild_indexes(cards@, level_rank)[j],
            pos < wild@.len(),
            wild@.len() < usize::MAX,
            prefix.len() == pos,
            base == assignment_entries(cards@, level_rank, prefix),
            id == cards@[wild@[pos as int] as int].id@,
            card == &cards@[wild@[pos as int] as int],
            rank_i <= 13,
            started == (rank_i > 0),
            !started ==> wildcard_entries(*assignments) == base,
            started ==> exists|a: WildcardAssignment| wildcard_entries(*assignments) == #[trigger] base.push((id, a)),
            unique_inv(cards@, level_rank, semantic_entries(*unique)),
            start == semantic_entries(*unique).take(start.len() as int),
            start.len() <= semantic_entries(*unique).len(),
            forall|choice: Seq<WildcardAssignment>|
                valid_choice(cards@, level_rank, choice) && choice.take(pos as int) == prefix && assignment_order(
                    choice[pos as int],
                ) < rank_i * 4 ==> #[trigger] covered(cards@, level_rank, semantic_entries(*unique), choice),
            forall|c2: Seq<WildcardAssignment>|
                valid_choice(cards@, level_rank, c2) && #[trigger] choice_before(c2, prefix) ==> covered(
                    cards@,
                    level_rank,
                    start,
                    c2,
                ),
            in_trying_order(cards@, level_rank, semantic_entries(*unique)),
            forall|i: int|
                0 <= i < semantic_entries(*unique).len() && semantic_entries(*unique)[i].0 != joker_bomb_key() ==> (
                choice_before(entry_choice(#[trigger] semantic_entries(*unique)[i]), prefix) || (entry_choice(
                    semantic_entries(*unique)[i],
                ).len() == wild@.len() && entry_choice(semantic_entries(*unique)[i]).take(pos as int) == prefix
                    && assignment_order(entry_choice(semantic_entries(*unique)[i])[pos as int]) < rank_i * 4)),
            forall|i: int|
                start.len() <= i < semantic_entries(*unique).len() ==> entry_choice(
                    #[trigger] semantic_entries(*unique)[i],
                ).len() == wild@.len() && entry_choice(semantic_entries(*unique)[i]).take(pos as int) == prefix,
        decreases 13 - rank_i,
    {
        let mut suit_i: usize = 0;
        while suit_i < 4
            invariant
                distinct_ids(cards@),
                wild@.len() == wild_indexes(cards@, level_rank).len(),
                forall|j: int| 0 <= j < wild@.len() ==> #[trigger] wild@[j] as int == wild_indexes(cards@, level_rank)[j],
                pos < wild@.len(),
                wild@.len() < usize::MAX,
                prefix.len() == pos,
                base == assignment_entries(cards@, level_rank, prefix),
                id == cards@[wild@[pos as int] as int].id@,
                card == &cards@[wild@[pos as int] as int],
                rank_i < 13,
                suit_i <= 4,
                started == (rank_i > 0 || suit_i > 0),
                !started ==> wildcard_entries(*assignments) == base,
                started ==> exists|a: WildcardAssignment| wildcard_entries(*assignments) == #[trigger] base.push((id, a)),
                unique_inv(cards@, level_rank, semantic_entries(*unique)),
                start == semantic_entries(*unique).take(start.len() as int),
                start.len() <= semantic_entries(*unique).len(),
                forall|choice: Seq<WildcardAssignment>|
                    valid_choice(cards@, level_rank, choice) && choice.take(pos as int) == prefix && assignment_order(
                        choice[pos as int],
                    ) < rank_i * 4 + suit_i ==> #[trigger] covered(cards@, level_rank, semantic_entries(*unique), choice),
                forall|c2: Seq<WildcardAssignment>|
                    valid_choice(cards@, level_rank, c2) && #[trigger] choice_before(c2, prefix) ==> covered(
                        cards@,
                        level_rank,
                        start,
                        c2,
                    ),
                in_trying_order(cards@, level_rank, semantic_entries(*unique)),
                forall|i: int|
                    0 <= i < semantic_entries(*unique).len() && semantic_entries(*unique)[i].0 != joker_bomb_key() ==> (
                    choice_before(entry_choice(#[trigger] semantic_entries(*unique)[i]), prefix) || (entry_choice(
                        semantic_entries(*unique)[i],
                    ).len() == wild@.len() && entry_choice(semantic_entries(*unique)[i]).take(pos as int) == prefix
                        && assignment_order(entry_choice(semantic_entries(*unique)[i])[pos as int]) < rank_i * 4 + suit_i)),
                forall|i: int|
                    start.len() <= i < semantic_entries(*unique).len() ==> entry_choice(
                        #[trigger] semantic_entries(*unique)[i],
                    ).len() == wild@.len() && entry_choice(semantic_entries(*unique)[i]).take(pos as int) == prefix,
            decreases 4 - suit_i,
        {
            let a = WildcardAssignment { rank: OrdinaryRank::at(rank_i), suit: OrdinarySuit::at(suit_i) };
            let ghost before_assign = wildcard_entries(*assignments);
            let ghost before_unique = semantic_entries(*unique);
            proof {
                lemma_assignment_entries_push(cards@, level_rank, prefix, a);
                lemma_assignment_entries_distinct(cards@, level_rank, prefix.push(a));
                lemma_key_index(base, id);
                lemma_wild_indexes(cards@, level_rank);
                assert forall|j: int| 0 <= j < base.len() implies base[j].0 != id by {
                    assert(wild_indexes(cards@, level_rank)[j] < wild_indexes(cards@, level_rank)[pos as int]);
                }
                if started {
                    let old_a = choose|old_a: WildcardAssignment| before_assign == #[trigger] base.push((id, old_a));
                    lemma_key_index(before_assign, id);
                    assert(before_assign[pos as int] == (id, old_a));
                    assert(forall|j: int| 0 <= j < pos ==> before_assign[j] == base[j]);
                    assert(key_index(before_assign, id) == pos);
                    assert(insert_entry(before_assign, id, a) =~= base.push((id, a)));
                } else {
                    assert(insert_entry(before_assign, id, a) =~= base.push((id, a)));
                }
            }
            wildcard_map_insert(assignments, card.id.clone(), a);
            assert(wildcard_entries(*assignments) == assignment_entries(cards@, level_rank, prefix.push(a)));
            proof {
                let cur = semantic_entries(*unique);
                assert forall|c2: Seq<WildcardAssignment>|
                    valid_choice(cards@, level_rank, c2) && #[trigger] choice_before(c2, prefix.push(a)) implies covered(
                        cards@,
                        level_rank,
                        cur,
                        c2,
                    ) by {
                    let q = choose|q: int|
                        0 <= q < c2.len() && q < prefix.push(a).len() && c2.take(q) == prefix.push(a).take(q)
                            && assignment_order(c2[q]) < assignment_order(#[trigger] prefix.push(a)[q]);
                    if q < pos {
                        assert(prefix.push(a).take(q) =~= prefix.take(q));
                        assert(prefix.push(a)[q] == prefix[q]);
                        assert(choice_before(c2, prefix));
                        lemma_covered_prefix(cards@, level_rank, start, cur, c2);
                    } else {
                        assert(prefix.push(a).take(q) =~= prefix);
                        assert(prefix.push(a)[q] == a);
                    }
                }
            }
            proof {
                let cur = semantic_entries(*unique);
                assert forall|i: int|
                    0 <= i < cur.len() && cur[i].0 != joker_bomb_key() implies choice_before(
                        entry_choice(#[trigger] cur[i]),
                        prefix.push(a),
                    ) by {
                    let c = entry_choice(cur[i]);
                    if choice_before(c, prefix) {
                        let q = choose|q: int|
                            0 <= q < c.len() && q < prefix.len() && c.take(q) == prefix.take(q) && assignment_order(c[q])
                                < assignment_order(#[trigger] prefix[q]);
                        assert(prefix.push(a).take(q) =~= prefix.take(q));
                        assert(prefix.push(a)[q] == prefix[q]);
                    } else {
                        assert(prefix.push(a).take(pos as int) =~= prefix);
                        assert(prefix.push(a)[pos as int] == a);
                        assert(c.take(pos as int) == prefix.push(a).take(pos as int));
                    }
                }
            }
            visit_wildcard_assignments(cards, level_rank, wild, pos + 1, assignments, unique, Ghost(prefix.push(a)));
            proof {
                let before_u = before_unique;
                let cur = semantic_entries(*unique);
                assert forall|i: int|
                    before_u.len() <= i < cur.len() implies entry_choice(#[trigger] cur[i]).take(pos as int) == prefix
                        && entry_choice(cur[i])[pos as int] == a by {
                    let c = entry_choice(cur[i]);
                    assert(c.take(pos + 1) == prefix.push(a));
                    assert(c.take(pos as int) =~= c.take(pos + 1).take(pos as int));
                    assert(prefix.push(a).take(pos as int) =~= prefix);
                    assert(c[pos as int] == c.take(pos + 1)[pos as int]);
                }
                assert forall|i: int| 0 <= i < before_u.len() implies cur[i] == before_u[i] by {
                    assert(before_u == cur.take(before_u.len() as int));
                }
            }
            proof {
                let after_unique = semantic_entries(*unique);
                assert(start =~= after_unique.take(start.len() as int));
                assert(wildcard_entries(*assignments) == base.push((id, a)));
                assert forall|choice: Seq<WildcardAssignment>|
                    valid_choice(cards@, level_rank, choice) && choice.take(pos as int) == prefix && assignment_order(
                        choice[pos as int],
                    ) < rank_i * 4 + suit_i + 1 implies #[trigger] covered(cards@, level_rank, after_unique, choice) by {
                    if assignment_order(choice[pos as int]) < rank_i * 4 + suit_i {
                        assert(covered(cards@, level_rank, before_unique, choice));
                        lemma_covered_prefix(cards@, level_rank, before_unique, after_unique, choice);
                    } else {
                        let c = choice[pos as int];
                        assert(ordinary_index(c.rank) == rank_i && suit_index(c.suit) == suit_i);
                        assert(c == a);
                        assert(choice.take(pos + 1) =~= prefix.push(a));
                    }
                }
            }
            suit_i = suit_i + 1;
            started = true;
        }
        rank_i = rank_i + 1;
    }
    proof {
        let cur = wildcard_entries(*assignments);
        let old_a = choose|old_a: WildcardAssignment| cur == #[trigger] base.push((id, old_a));
        lemma_key_index(cur, id);
        lemma_wild_indexes(cards@, level_rank);
        assert(cur[pos as int] == (id, old_a));
        assert(forall|j: int| 0 <= j < pos ==> cur[j] == base[j]);
        assert forall|j: int| 0 <= j < base.len() implies base[j].0 != id by {
            assert(wild_indexes(cards@, level_rank)[j] < wild_indexes(cards@, level_rank)[pos as int]);
        }
        assert(key_index(cur, id) == pos);
        assert(remove_entry(cur, id) =~= base);
    }
    wildcard_map_shift_remove(assignments, &card.id);
    assert forall|choice: Seq<WildcardAssignment>|
        valid_choice(cards@, level_rank, choice) && choice.take(pos as int) == prefix
            implies #[trigger] covered(cards@, level_rank, semantic_entries(*unique), choice) by {
        let c = choice[pos as int];
        assert(assignment_order(c) < 52);
    }
}

} // verus!

verus! {

fn ids_distinct(cards: &[Card]) -> (b: bool)
    ensures
        b == distinct_ids(cards@),
{
    let mut i: usize = 0;
    while i < cards.len()
        invariant
            i <= cards@.len(),
            forall|a: int, b: int| 0 <= a < i && 0 <= b < cards@.len() && a != b ==> cards@[a].id@ != cards@[b].id@,
        decreases cards@.len() - i,
    {
        let mut j: usize = 0;
        while j < cards.len()
            invariant
                i < cards@.len(),
                j <= cards@.len(),
                forall|a: int, b: int| 0 <= a < i && 0 <= b < cards@.len() && a != b ==> cards@[a].id@ != cards@[b].id@,
                forall|b: int| 0 <= b < j && b != i ==> cards@[i as int].id@ != cards@[b].id@,
            decreases cards@.len() - j,
        {
            if j != i && cards[i].id == cards[j].id {
                return false;
            }
            j = j + 1;
        }
        i = i + 1;
    }
    true
}

fn count_card_rank(cards: &[Card], rank: CardRank) -> (n: usize)
    ensures
        n == rank_count(cards@, rank),
{
    let mut n: usize = 0;
    let mut i: usize = 0;
    while i < cards.len()
        invariant
            i <= cards@.len(),
            n == rank_count(cards@.take(i as int), rank),
            n <= i,
        decreases cards@.len() - i,
    {
        proof {
            assert(cards@.take(i + 1).drop_last() =~= cards@.take(i as int));
        }
        if cards[i].rank == rank {
            n = n + 1;
        }
        i = i + 1;
    }
    proof {
        assert(cards@.take(cards@.len() as int) =~= cards@);
    }
    n
}

/// Every combination that the cards can be played as, one per meaning (kind, size,
/// primary rank, sequence top, suit). Selections of no cards, of more than ten cards,
/// or with a repeated id form none. A lone wildcard is only its natural level single;
/// two small and two big jokers form the joker bomb; otherwise every heart of the level
/// rank may stand for any ordinary rank and suit. A combination formed by wildcards
/// carries the assignment that formed it.
pub fn list_combinations(cards: &[Card], level_rank: OrdinaryRank) -> (r: Vec<Combination>)
    ensures
        !valid_selection(cards@) ==> r@.len() == 0,
        forall|i: int, j: int| 0 <= i < r@.len() && 0 <= j < r@.len() && i != j ==> sem(r@[i]) != sem(r@[j]),
        forall|i: int| 0 <= i < r@.len() ==> achievable(cards@, level_rank, #[trigger] sem(r@[i])),
        forall|s: SemanticKey| achievable(cards@, level_rank, s) ==> exists|i: int| 0 <= i < r@.len() && #[trigger] sem(r@[i]) == s,
        forall|i: int| 0 <= i < r@.len() ==> justified(cards@, level_rank, (sem(r@[i]), #[trigger] r@[i]))
            || (lone_wildcard(cards@, level_rank) && wildcard_entries(r@[i].wildcard_assignments).len() == 0),
        valid_selection(cards@) && all_jokers(cards@) ==> r@.len() > 0 && sem(r@[0]) == joker_bomb_key(),
        lone_wildcard(cards@, level_rank) ==> r@.len() == 1 && sem(r@[0]) == level_single_key(level_rank)
            && wildcard_entries(r@[0].wildcard_assignments).len() == 0,
        forall|i: int, j: int|
            #![trigger r@[i], r@[j]]
            0 <= i < j < r@.len() && sem(r@[i]) != joker_bomb_key() && sem(r@[j]) != joker_bomb_key() ==> found_before(
                cards@,
                level_rank,
                (sem(r@[i]), r@[i]),
                (sem(r@[j]), r@[j]),
            ),
{
    if cards.len() == 0 || cards.len() > 10 {
        return Vec::new();
    }
    if !ids_distinct(cards) {
        return Vec::new();
    }
    let all_joker = cards.len() == 4 && count_card_rank(cards, CardRank::SmallJoker) == 2 && count_card_rank(
        cards,
        CardRank::BigJoker,
    ) == 2;
    let mut unique = semantic_map_new();
    if all_joker {
        let combination = Combination {
            kind: CombinationKind::JokerBomb,
            size: 4,
            primary_rank: None,
            sequence_top: None,
            suit: None,
            wildcard_assignments: wildcard_map_new(),
        };
        let key: SemanticKey = (CombinationKind::JokerBomb, 4, None, None, None);
        proof {
            lemma_justified_insert(cards@, level_rank, Seq::empty(), key, combination);
        }
        semantic_map_insert(&mut unique, key, combination);
    }
    if cards.len() == 1 && is_wildcard(&cards[0], level_rank) {
        let combination = Combination {
            kind: CombinationKind::Single,
            size: 1,
            primary_rank: Some(CardRank::from_ordinary(level_rank)),
            sequence_top: None,
            suit: None,
            wildcard_assignments: wildcard_map_new(),
        };
        let key: SemanticKey = (CombinationKind::Single, 1, Some(CardRank::from_ordinary(level_rank)), None, None);
        semantic_map_insert(&mut unique, key, combination);
        let r = semantic_map_into_values(unique);
        proof {
            assert(r@.len() == 1);
            assert(sem(r@[0]) == level_single_key(level_rank));
            assert(r@[0] == combination);
        }
        return r;
    }
    let wild = wildcard_positions(cards, level_rank);
    let mut assignments = wildcard_map_new();
    let ghost start = semantic_entries(unique);
    proof {
        lemma_wild_indexes(cards@, level_rank);
        assert(assignment_entries(cards@, level_rank, Seq::empty()) =~= Seq::<(Seq<char>, WildcardAssignment)>::empty());
    }
    visit_wildcard_assignments(cards, level_rank, &wild, 0, &mut assignments, &mut unique, Ghost(Seq::empty()));
    let ghost e = semantic_entries(unique);
    let r = semantic_map_into_values(unique);
    proof {
        assert forall|i: int, j: int| 0 <= i < r@.len() && 0 <= j < r@.len() && i != j implies sem(r@[i]) != sem(r@[j]) by {
            assert(justified(cards@, level_rank, e[i]));
            assert(justified(cards@, level_rank, e[j]));
        }
        assert forall|i: int| 0 <= i < r@.len() implies achievable(cards@, level_rank, #[trigger] sem(r@[i])) by {
            assert(justified(cards@, level_rank, e[i]));
            if !(e[i].0 == joker_bomb_key() && all_jokers(cards@)) {
                let choice = choose|choice: Seq<WildcardAssignment>|
                    #![trigger assignment_entries(cards@, level_rank, choice)]
                    {
                        &&& valid_choice(cards@, level_rank, choice)
                        &&& choice_keys(cards@, level_rank, choice).contains(e[i].0)
                        &&& wildcard_entries(e[i].1.wildcard_assignments) == assignment_entries(cards@, level_rank, choice)
                    };
                assert(choice_keys(cards@, level_rank, choice).contains(sem(r@[i])));
            }
        }
        assert forall|s: SemanticKey| achievable(cards@, level_rank, s) implies exists|i: int|
            0 <= i < r@.len() && #[trigger] sem(r@[i]) == s by {
            if all_jokers(cards@) && s == joker_bomb_key() {
                assert(start.len() == 1);
                assert(e[0] == start[0]);
                assert(sem(r@[0]) == s);
            } else {
                let choice = choose|choice: Seq<WildcardAssignment>|
                    valid_choice(cards@, level_rank, choice) && #[trigger] choice_keys(cards@, level_rank, choice).contains(s);
                assert(choice.take(0) =~= Seq::<WildcardAssignment>::empty());
                assert(covered(cards@, level_rank, e, choice));
                lemma_key_index(e, s);
                let i = key_index(e, s);
                assert(justified(cards@, level_rank, e[i]));
                assert(sem(r@[i]) == s);
            }
        }
        assert forall|i: int| 0 <= i < r@.len() implies justified(cards@, level_rank, (sem(r@[i]), #[trigger] r@[i])) by {
            assert(justified(cards@, level_rank, e[i]));
            assert(e[i] == (sem(r@[i]), r@[i]));
        }
        if all_jokers(cards@) {
            assert(start.len() == 1);
            assert(e[0] == start[0]);
        }
        assert forall|i: int, j: int|
            #![trigger r@[i], r@[j]]
            0 <= i < j < r@.len() && sem(r@[i]) != joker_bomb_key() && sem(r@[j]) != joker_bomb_key() implies found_before(
                cards@,
                level_rank,
                (sem(r@[i]), r@[i]),
                (sem(r@[j]), r@[j]),
            ) by {
            assert(justified(cards@, level_rank, e[i]));
            assert(justified(cards@, level_rank, e[j]));
            assert(e[i] == (sem(r@[i]), r@[i]));
            assert(e[j] == (sem(r@[j]), r@[j]));
        }
    }
    r
}

/// Whether a combination matches a declaration: same kind, and the declared primary
/// rank and sequence top when they are given.
pub open spec fn matches_declaration_spec(s: SemanticKey, declaration: CombinationDeclaration) -> bool {
    &&& s.0 == declaration.kind
    &&& (declaration.primary_rank matches Some(rank) ==> s.2 == Some(rank))
    &&& (declaration.sequence_top matches Some(rank) ==> s.3 == Some(rank))
}

/// The declaration behind an optional reference.
pub open spec fn deref_decl(d: Option<&CombinationDeclaration>) -> Option<CombinationDeclaration> {
    match d {
        Some(x) => Some(*x),
        None => None,
    }
}

/// The declaration naming a combination meaning.
pub open spec fn declaration_of(s: SemanticKey) -> CombinationDeclaration {
    CombinationDeclaration { kind: s.0, primary_rank: s.2, sequence_top: s.3 }
}

/// Whether a combination meaning fits an optional declaration.
pub open spec fn fits(s: SemanticKey, declaration: Option<CombinationDeclaration>) -> bool {
    match declaration {
        None => true,
        Some(d) => matches_declaration_spec(s, d),
    }
}

fn matches_declaration(combination: &Combination, declaration: &CombinationDeclaration) -> (b: bool)
    ensures
        b == matches_declaration_spec(sem(*combination), *declaration),
{
    combination.kind == declaration.kind && match declaration.primary_rank {
        None => true,
        Some(rank) => combination.primary_rank == Some(rank),
    } && match declaration.sequence_top {
        None => true,
        Some(rank) => combination.sequence_top == Some(rank),
    }
}

/// The details list two or more declarations, one for each playable meaning that fits
/// the declaration: every fitting meaning has exactly one entry, no entry names anything
/// else, and the entries come in the order in which the meanings are found (the joker
/// bomb aside), each meaning found by the combination that carries it.
pub open spec fn options_listed(
    cards: Seq<Card>,
    level_rank: OrdinaryRank,
    decl: Option<CombinationDeclaration>,
    details: Option<ErrorDetails>,
) -> bool {
    match details {
        Some(ErrorDetails::Options(options)) => options@.len() >= 2 && exists|ks: Seq<SemanticKey>, cs: Seq<Combination>|
            #![trigger ks.len(), cs.len()]
            ks.len() == options@.len() && cs.len() == ks.len() && ks.no_duplicates() && (forall|i: int|
                0 <= i < ks.len() ==> achievable(cards, level_rank, #[trigger] ks[i]) && fits(ks[i], decl)
                    && options@[i] == declaration_of(ks[i]) && justified(cards, level_rank, (ks[i], cs[i])))
                && (forall|s: SemanticKey| achievable(cards, level_rank, s) && fits(s, decl) ==> #[trigger] ks.contains(s))
                && (forall|a: int, b: int|
                #![trigger ks[a], ks[b]]
                0 <= a < b < ks.len() && ks[a] != joker_bomb_key() && ks[b] != joker_bomb_key() ==> found_before(
                    cards,
                    level_rank,
                    (ks[a], cs[a]),
                    (ks[b], cs[b]),
                )),
        _ => false,
    }
}

/// Exactly one playable meaning of the cards fits the optional declaration.
#[verifier::opaque]
pub open spec fn unique_fit(cards: Seq<Card>, level_rank: OrdinaryRank, decl: Option<CombinationDeclaration>) -> bool {
    exists|s: SemanticKey|
        #![trigger achievable(cards, level_rank, s)]
        achievable(cards, level_rank, s) && fits(s, decl) && forall|t: SemanticKey|
            achievable(cards, level_rank, t) && fits(t, decl) ==> t == s
}

proof fn lemma_options_listed(
    cards: Seq<Card>,
    level_rank: OrdinaryRank,
    decl: Option<CombinationDeclaration>,
    candidates: Seq<Combination>,
    picked: Seq<int>,
    options: Vec<CombinationDeclaration>,
)
    requires
        picked.len() >= 2,
        options@.len() == picked.len(),
        forall|a: int, b: int|
            0 <= a < candidates.len() && 0 <= b < candidates.len() && a != b ==> sem(candidates[a]) != sem(candidates[b]),
        forall|i: int| 0 <= i < candidates.len() ==> achievable(cards, level_rank, #[trigger] sem(candidates[i])),
        forall|s: SemanticKey|
            achievable(cards, level_rank, s) ==> exists|i: int| 0 <= i < candidates.len() && #[trigger] sem(candidates[i]) == s,
        forall|k: int| 0 <= k < picked.len() ==> 0 <= #[trigger] picked[k] < candidates.len(),
        forall|k: int, l: int| 0 <= k < l < picked.len() ==> picked[k] < picked[l],
        forall|k: int| 0 <= k < picked.len() ==> fits(sem(candidates[#[trigger] picked[k]]), decl),
        forall|j: int|
            0 <= j < candidates.len() && fits(sem(candidates[j]), decl) ==> exists|k: int|
                0 <= k < picked.len() && #[trigger] picked[k] == j,
        forall|t: int| 0 <= t < picked.len() ==> (#[trigger] options@[t]) == declaration_of(sem(candidates[picked[t]])),
        !lone_wildcard(cards, level_rank),
        forall|i: int|
            0 <= i < candidates.len() ==> justified(cards, level_rank, (sem(candidates[i]), #[trigger] candidates[i]))
                || (lone_wildcard(cards, level_rank) && wildcard_entries(candidates[i].wildcard_assignments).len() == 0),
        forall|i: int, j: int|
            #![trigger candidates[i], candidates[j]]
            0 <= i < j < candidates.len() && sem(candidates[i]) != joker_bomb_key() && sem(candidates[j])
                != joker_bomb_key() ==> found_before(
                cards,
                level_rank,
                (sem(candidates[i]), candidates[i]),
                (sem(candidates[j]), candidates[j]),
            ),
    ensures
        options_listed(cards, level_rank, decl, Some(ErrorDetails::Options(options))),
{
    let ks = Seq::new(picked.len(), |t: int| sem(candidates[picked[t]]));
    let cs = Seq::new(picked.len(), |t: int| candidates[picked[t]]);
    assert forall|t: int| 0 <= t < ks.len() implies justified(cards, level_rank, (ks[t], cs[t])) by {
        assert(justified(cards, level_rank, (sem(candidates[picked[t]]), candidates[picked[t]])));
    }
    assert forall|a: int, b: int|
        #![trigger ks[a], ks[b]]
        0 <= a < b < ks.len() && ks[a] != joker_bomb_key() && ks[b] != joker_bomb_key() implies found_before(
            cards,
            level_rank,
            (ks[a], cs[a]),
            (ks[b], cs[b]),
        ) by {
        assert(picked[a] < picked[b]);
        let i = picked[a];
        let j = picked[b];
        assert(cs[a] == candidates[i] && cs[b] == candidates[j]);
    }
    assert forall|a: int, b: int| 0 <= a < ks.len() && 0 <= b < ks.len() && a != b implies ks[a] != ks[b] by {
        assert(picked[a] != picked[b]) by {
            if a < b {
                assert(picked[a] < picked[b]);
            } else {
                assert(picked[b] < picked[a]);
            }
        }
    }
    assert forall|t: int| 0 <= t < ks.len() implies achievable(cards, level_rank, #[trigger] ks[t]) && fits(ks[t], decl)
        && options@[t] == declaration_of(ks[t]) by {
        assert(achievable(cards, level_rank, sem(candidates[picked[t]])));
    }
    assert forall|s: SemanticKey| achievable(cards, level_rank, s) && fits(s, decl) implies #[trigger] ks.contains(s) by {
        let j = choose|j: int| 0 <= j < candidates.len() && #[trigger] sem(candidates[j]) == s;
        let k = choose|k: int| 0 <= k < picked.len() && #[trigger] picked[k] == j;
        assert(ks[k] == s);
    }
    assert(ks.len() == options@.len());
    assert(cs.len() == ks.len());
}

/// The single combination that the cards can be played as under the optional
/// declaration. When no playable meaning fits, the error is `INVALID_COMBINATION`; when
/// two or more do, it is `AMBIGUOUS_COMBINATION` and lists them as declarations.
pub fn resolve_combination(
    cards: &[Card],
    level_rank: OrdinaryRank,
    declaration: Option<&CombinationDeclaration>,
) -> (r: Result<Combination, RuleError>)
    ensures
        r is Ok <==> unique_fit(cards@, level_rank, deref_decl(declaration)),
        r matches Ok(c) ==> achievable(cards@, level_rank, sem(c)) && fits(
            sem(c),
            deref_decl(declaration),
        ),
        r matches Ok(c) ==> if lone_wildcard(cards@, level_rank) {
            wildcard_entries(c.wildcard_assignments).len() == 0
        } else {
            justified(cards@, level_rank, (sem(c), c))
        },
        r matches Err(e) ==> (e.code@ == "INVALID_COMBINATION"@ <==> !exists|s: SemanticKey|
            #![trigger achievable(cards@, level_rank, s)]
            achievable(cards@, level_rank, s) && fits(s, deref_decl(declaration))),
        r matches Err(e) ==> e.code@ == "INVALID_COMBINATION"@ || e.code@ == "AMBIGUOUS_COMBINATION"@,
        r matches Err(e) ==> (e.code@ == "AMBIGUOUS_COMBINATION"@ ==> options_listed(
            cards@,
            level_rank,
            deref_decl(declaration),
            e.details,
        )),
{
    let ghost decl = deref_decl(declaration);
    proof {
        reveal(unique_fit);
        reveal_strlit("INVALID_COMBINATION");
        reveal_strlit("AMBIGUOUS_COMBINATION");
        assert("INVALID_COMBINATION"@[0] != "AMBIGUOUS_COMBINATION"@[0]);
        assert("INVALID_COMBINATION"@ != "AMBIGUOUS_COMBINATION"@);
    }
    let candidates = list_combinations(cards, level_rank);
    let mut matches: Vec<Combination> = Vec::new();
    let ghost mut picked: Seq<int> = Seq::empty();
    let mut i: usize = 0;
    while i < candidates.len()
        invariant
            i <= candidates@.len(),
            decl == deref_decl(declaration),
            forall|a: int, b: int|
                0 <= a < candidates@.len() && 0 <= b < candidates@.len() && a != b ==> sem(candidates@[a]) != sem(
                    candidates@[b],
                ),
            matches@.len() == picked.len(),
            forall|k: int| 0 <= k < picked.len() ==> 0 <= #[trigger] picked[k] < i,
            forall|k: int, l: int| 0 <= k < l < picked.len() ==> picked[k] < picked[l],
            forall|k: int|
                0 <= k < picked.len() ==> sem(#[trigger] matches@[k]) == sem(candidates@[picked[k]]) && wildcard_entries(
                    matches@[k].wildcard_assignments,
                ) == wildcard_entries(candidates@[picked[k]].wildcard_assignments),
            forall|k: int| 0 <= k < picked.len() ==> fits(sem(candidates@[#[trigger] picked[k]]), decl),
            forall|j: int| 0 <= j < i && fits(sem(candidates@[j]), decl) ==> exists|k: int| 0 <= k < picked.len() && #[trigger] picked[k] == j,
        decreases candidates@.len() - i,
    {
        let keep = match declaration {
            None => true,
            Some(d) => matches_declaration(&candidates[i], d),
        };
        assert(keep == fits(sem(candidates@[i as int]), decl));
        let ghost old_picked = picked;
        if keep {
            matches.push(candidates[i].clone());
            proof {
                picked = picked.push(i as int);
            }
        }
        proof {
            assert forall|j: int| 0 <= j < i + 1 && fits(sem(candidates@[j]), decl) implies exists|k: int|
                0 <= k < picked.len() && #[trigger] picked[k] == j by {
                if j == i {
                    assert(picked[picked.len() - 1] == j);
                } else {
                    let k = choose|k: int| 0 <= k < old_picked.len() && #[trigger] old_picked[k] == j;
                    assert(picked[k] == j);
                }
            }
        }
        i = i + 1;
    }
    if matches.len() == 0 {
        proof {
            assert forall|s: SemanticKey| achievable(cards@, level_rank, s) && fits(s, decl) implies false by {
                let j = choose|j: int| 0 <= j < candidates@.len() && #[trigger] sem(candidates@[j]) == s;
            }
        }
        return Err(RuleError::new("INVALID_COMBINATION", "所选牌张不能组成声明的合法牌型"));
    }
    if matches.len() > 1 {
        let mut options: Vec<CombinationDeclaration> = Vec::new();
        let mut k: usize = 0;
        while k < matches.len()
            invariant
                k <= matches@.len(),
                options@.len() == k,
                forall|t: int|
                    0 <= t < k ==> (#[trigger] options@[t]) == declaration_of(sem(matches@[t])),
            decreases matches@.len() - k,
        {
            options.push(
                CombinationDeclaration {
                    kind: matches[k].kind,
                    primary_rank: matches[k].primary_rank,
                    sequence_top: matches[k].sequence_top,
                },
            );
            k = k + 1;
        }
        proof {
            if lone_wildcard(cards@, level_rank) {
                assert(picked[0] < picked[1]);
            }
            lemma_options_listed(cards@, level_rank, decl, candidates@, picked, options);
            assert(sem(matches@[0]) != sem(matches@[1]));
            assert(achievable(cards@, level_rank, sem(candidates@[picked[0]])));
            assert(achievable(cards@, level_rank, sem(candidates@[picked[1]])));
        }
        return Err(
            RuleError::new("AMBIGUOUS_COMBINATION", "所选牌张可以解释为多种牌型，请明确声明").with_details(
                ErrorDetails::Options(options),
            ),
        );
    }
    let chosen = matches.pop().unwrap();
    proof {
        let s = sem(candidates@[picked[0]]);
        assert(achievable(cards@, level_rank, s));
        assert forall|t: SemanticKey| achievable(cards@, level_rank, t) && fits(t, decl) implies t == s by {
            let j = choose|j: int| 0 <= j < candidates@.len() && #[trigger] sem(candidates@[j]) == t;
            let k = choose|k: int| 0 <= k < picked.len() && #[trigger] picked[k] == j;
        }
        assert(justified(cards@, level_rank, (sem(candidates@[picked[0]]), candidates@[picked[0]])) || (lone_wildcard(
            cards@,
            level_rank,
        ) && wildcard_entries(candidates@[picked[0]].wildcard_assignments).len() == 0));
        if lone_wildcard(cards@, level_rank) {
            assert(picked[0] == 0);
        }
    }
    Ok(chosen)
}

/// Bombs are the ordinary bomb, the straight flush and the joker bomb.
pub open spec fn is_bomb(kind: CombinationKind) -> bool {
    kind == CombinationKind::Bomb || kind == CombinationKind::StraightFlush || kind == CombinationKind::JokerBomb
}

/// Whether the kind is one of the three bombs.
pub fn is_bomb_combination(kind: CombinationKind) -> (b: bool)
    ensures
        b == is_bomb(kind),
{
    match kind {
        CombinationKind::Bomb | CombinationKind::StraightFlush | CombinationKind::JokerBomb => true,
        _ => false,
    }
}

/// Rank of a bomb in the hierarchy, compared lexicographically: a four-card bomb is
/// (0, 0, strength), a five-card bomb (1, 0, strength), a straight flush (2, 0, top
/// value), a bomb of six or more cards (3, size, strength), the joker bomb (4, 0, 0).
pub open spec fn bomb_rank(c: SemanticKey, level_rank: OrdinaryRank) -> Option<(int, int, int)> {
    let (kind, size, primary, top, _) = c;
    if kind == CombinationKind::JokerBomb {
        Some((4, 0, 0))
    } else if kind == CombinationKind::Bomb && size >= 6 {
        match primary {
            Some(rank) => Some((3, size as int, strength(rank, level_rank))),
            None => None,
        }
    } else if kind == CombinationKind::StraightFlush {
        match top {
            Some(t) => Some((2, 0, rank_value(t))),
            None => None,
        }
    } else if kind == CombinationKind::Bomb {
        match primary {
            Some(rank) => Some((if size == 5 { 1 } else { 0 }, 0, strength(rank, level_rank))),
            None => None,
        }
    } else {
        None
    }
}

/// Order of optional bomb ranks: any rank is above none, ranks compare lexicographically.
pub open spec fn bomb_rank_greater(a: Option<(int, int, int)>, b: Option<(int, int, int)>) -> bool {
    match (a, b) {
        (Some(x), Some(y)) => x.0 > y.0 || (x.0 == y.0 && (x.1 > y.1 || (x.1 == y.1 && x.2 > y.2))),
        (Some(_), None) => true,
        _ => false,
    }
}

/// Whether `challenger` may be played over `incumbent`: a bomb beats any non-bomb and
/// never loses to one; bombs compare by bomb rank; otherwise the kind and size must be
/// equal and the sequence top, or else the primary rank's strength, must be higher.
pub open spec fn beats(challenger: SemanticKey, incumbent: SemanticKey, level_rank: OrdinaryRank) -> bool {
    if is_bomb(challenger.0) != is_bomb(incumbent.0) {
        is_bomb(challenger.0)
    } else if is_bomb(challenger.0) {
        bomb_rank_greater(bomb_rank(challenger, level_rank), bomb_rank(incumbent, level_rank))
    } else if challenger.0 != incumbent.0 || challenger.1 != incumbent.1 {
        false
    } else if challenger.3 is Some && incumbent.3 is Some {
        rank_value(challenger.3->0) > rank_value(incumbent.3->0)
    } else if challenger.2 is Some && incumbent.2 is Some {
        strength(challenger.2->0, level_rank) > strength(incumbent.2->0, level_rank)
    } else {
        false
    }
}

fn bomb_strength(combination: &Combination, level_rank: OrdinaryRank) -> (r: Option<(u8, usize, u8)>)
    ensures
        match (r, bomb_rank(sem(*combination), level_rank)) {
            (Some(x), Some(y)) => x.0 == y.0 && x.1 == y.1 && x.2 == y.2,
            (None, None) => true,
            _ => false,
        },
{
    match combination.kind {
        CombinationKind::JokerBomb => Some((4, 0, 0)),
        CombinationKind::Bomb => {
            match combination.primary_rank {
                Some(rank) => {
                    let s = card_rank_strength(rank, level_rank);
                    if combination.size >= 6 {
                        Some((3, combination.size, s))
                    } else if combination.size == 5 {
                        Some((1, 0, s))
                    } else {
                        Some((0, 0, s))
                    }
                },
                None => None,
            }
        },
        CombinationKind::StraightFlush => {
            match combination.sequence_top {
                Some(top) => Some((2, 0, ordinary_rank_value(top))),
                None => None,
            }
        },
        _ => None,
    }
}

/// Whether `challenger` may be played over `incumbent` under the level rank.
pub fn can_beat(challenger: &Combination, incumbent: &Combination, level_rank: OrdinaryRank) -> (b: bool)
    ensures
        b == beats(sem(*challenger), sem(*incumbent), level_rank),
{
    let challenger_is_bomb = is_bomb_combination(challenger.kind);
    let incumbent_is_bomb = is_bomb_combination(incumbent.kind);
    if challenger_is_bomb != incumbent_is_bomb {
        return challenger_is_bomb;
    }
    if challenger_is_bomb {
        let a = bomb_strength(challenger, level_rank);
        let b = bomb_strength(incumbent, level_rank);
        return match (a, b) {
            (Some(x), Some(y)) => x.0 > y.0 || (x.0 == y.0 && (x.1 > y.1 || (x.1 == y.1 && x.2 > y.2))),
            (Some(_), None) => true,
            _ => false,
        };
    }
    if challenger.kind != incumbent.kind || challenger.size != incumbent.size {
        return false;
    }
    match (challenger.sequence_top, incumbent.sequence_top) {
        (Some(c), Some(i)) => {
            return ordinary_rank_value(c) > ordinary_rank_value(i);
        },
        _ => {},
    }
    match (challenger.primary_rank, incumbent.primary_rank) {
        (Some(c), Some(i)) => card_rank_strength(c, level_rank) > card_rank_strength(i, level_rank),
        _ => false,
    }
}

/// No combination beats itself: a play of the same meaning as the current play never
/// goes over it.
pub proof fn law_no_combination_beats_itself(c: SemanticKey, level_rank: OrdinaryRank)
    ensures
        !beats(c, c, level_rank),
{
}

/// Beating is asymmetric: when one combination beats another, the other does not beat
/// it back.
pub proof fn law_beating_is_asymmetric(a: SemanticKey, b: SemanticKey, level_rank: OrdinaryRank)
    requires
        beats(a, b, level_rank),
    ensures
        !beats(b, a, level_rank),
{
}

/// A bomb beats every combination that is not a bomb, and no such combination beats a
/// bomb.
pub proof fn law_bombs_beat_every_other_kind(bomb: SemanticKey, other: SemanticKey, level_rank: OrdinaryRank)
    requires
        is_bomb(bomb.0),
        !is_bomb(other.0),
    ensures
        beats(bomb, other, level_rank),
        !beats(other, bomb, level_rank),
{
}

/// Of two non-bomb combinations of the same kind and size that both carry a sequence
/// top, the challenger beats the incumbent exactly when its top stands strictly higher
/// in the natural order (two lowest, ace highest); the level rank plays no part.
pub proof fn law_higher_sequence_top_wins(challenger: SemanticKey, incumbent: SemanticKey, level_rank: OrdinaryRank)
    requires
        challenger.0 != CombinationKind::Bomb,
        challenger.0 != CombinationKind::StraightFlush,
        challenger.0 != CombinationKind::JokerBomb,
        challenger.0 == incumbent.0,
        challenger.1 == incumbent.1,
        challenger.3 is Some,
        incumbent.3 is Some,
    ensures
        beats(challenger, incumbent, level_rank) <==> ordinary_index(challenger.3->0) > ordinary_index(
            incumbent.3->0,
        ),
        ordinary_index(challenger.3->0) != ordinary_index(incumbent.3->0) ==> (beats(
            challenger,
            incumbent,
            level_rank,
        ) != beats(incumbent, challenger, level_rank)),
{
}

/// Of two non-bomb combinations of the same kind and size that carry no sequence top but
/// a primary rank each, the challenger beats the incumbent exactly when its rank is
/// strictly stronger under the level.
pub proof fn law_stronger_primary_rank_wins(challenger: SemanticKey, incumbent: SemanticKey, level_rank: OrdinaryRank)
    requires
        challenger.0 != CombinationKind::Bomb,
        challenger.0 != CombinationKind::StraightFlush,
        challenger.0 != CombinationKind::JokerBomb,
        challenger.0 == incumbent.0,
        challenger.1 == incumbent.1,
        challenger.3 is None,
        challenger.2 is Some,
        incumbent.2 is Some,
    ensures
        beats(challenger, incumbent, level_rank) <==> strength(challenger.2->0, level_rank) > strength(
            incumbent.2->0,
            level_rank,
        ),
{
}

/// The order of bombs: the joker bomb beats every other combination; bombs of four and
/// five cards lose to a straight flush, bombs of six or more beat it; a bomb with more
/// cards beats one with fewer; bombs of one size compare by the strength of their rank,
/// and straight flushes by their top in the natural order.
pub proof fn law_bomb_hierarchy(a: SemanticKey, b: SemanticKey, level_rank: OrdinaryRank)
    ensures
        a.0 == CombinationKind::JokerBomb && b.0 != CombinationKind::JokerBomb ==> beats(a, b, level_rank) && !beats(
            b,
            a,
            level_rank,
        ),
        a.0 == CombinationKind::StraightFlush && a.3 is Some && b.0 == CombinationKind::Bomb && b.2 is Some && b.1
            <= 5 ==> beats(a, b, level_rank) && !beats(b, a, level_rank),
        a.0 == CombinationKind::Bomb && a.2 is Some && a.1 >= 6 && b.0 == CombinationKind::StraightFlush ==> beats(
            a,
            b,
            level_rank,
        ) && !beats(b, a, level_rank),
        a.0 == CombinationKind::Bomb && b.0 == CombinationKind::Bomb && a.2 is Some && b.2 is Some && b.1 >= 4 && a.1
            > b.1 ==> beats(a, b, level_rank) && !beats(b, a, level_rank),
        a.0 == CombinationKind::Bomb && b.0 == CombinationKind::Bomb && a.2 is Some && b.2 is Some && a.1 == b.1
            ==> (beats(a, b, level_rank) <==> strength(a.2->0, level_rank) > strength(b.2->0, level_rank)),
        a.0 == CombinationKind::StraightFlush && b.0 == CombinationKind::StraightFlush && a.3 is Some && b.3 is Some
            ==> (beats(a, b, level_rank) <==> ordinary_index(a.3->0) > ordinary_index(b.3->0)),
{
}

proof fn lemma_first_triple_found(e: Seq<(CardRank, usize)>)
    ensures
        first_triple(e) matches Some(r) ==> exists|i: int| 0 <= i < e.len() && e[i].0 == r && e[i].1 == 3,
    decreases e.len(),
{
    if e.len() > 0 && !(e[0].1 == 3 && ordinary_of(e[0].0) is Some) {
        lemma_first_triple_found(e.drop_first());
        if first_triple(e) is Some {
            let r = first_triple(e)->0;
            let i = choose|i: int| 0 <= i < e.len() - 1 && e.drop_first()[i].0 == r && e.drop_first()[i].1 == 3;
            assert(e[i + 1] == e.drop_first()[i]);
        }
    }
}

/// The rank of a recognised full house is a rank of which exactly three of the resolved
/// cards are, and the full house is five cards.
pub proof fn law_full_house_rank_occurs_three_times(vs: Seq<VirtualCard>, s: SemanticKey)
    requires
        classify(vs).contains(s),
        s.0 == CombinationKind::FullHouse,
    ensures
        s.1 == 5,
        s.2 matches Some(r) && count(vs, r) == 3,
{
    let k = choose|k: int| 0 <= k < classify(vs).len() && classify(vs)[k] == s;
    let a = single_keys(vs) + pair_keys(vs) + triple_keys(vs);
    let f = full_house_keys(vs);
    let z = straight_keys(vs) + pairs_keys(vs) + triples_keys(vs) + bomb_keys(vs);
    assert(classify(vs) =~= a + f + z);
    assert(forall|i: int| 0 <= i < a.len() ==> #[trigger] a[i].0 != CombinationKind::FullHouse);
    assert(forall|i: int| 0 <= i < z.len() ==> #[trigger] z[i].0 != CombinationKind::FullHouse);
    if k < a.len() {
        assert((a + f + z)[k] == a[k]);
        assert(false);
    } else if k >= a.len() + f.len() {
        assert((a + f + z)[k] == z[k - a.len() - f.len()]);
        assert(false);
    }
    assert(f.len() == 1);
    assert(s == f[0]);
    let e = count_entries(vs);
    let r = first_triple(e)->0;
    lemma_first_triple_found(e);
    let i = choose|i: int| 0 <= i < e.len() && e[i].0 == r && e[i].1 == 3;
    lemma_count_bound(vs, r);
    assert(e[i] == (distinct_ranks(vs)[i], count(vs, distinct_ranks(vs)[i]) as usize));
}

} // verus!
