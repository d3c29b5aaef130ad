use vstd::prelude::*;

use crate::card::{card_symbol, Card, Hand, Quantity};

verus! {

broadcast use vstd::seq_lib::group_seq_properties;

/// A named pattern found in a hand, with the cards that show it.
#[derive(Debug, PartialEq, Eq)]
pub struct Combination {
    pub name: &'static str,
    pub cards: Vec<Card>,
}

/// A combination as a value: its name and its cards.
pub type CombinationView = (Seq<char>, Seq<Card>);

/// The value of a detector's result.
pub open spec fn view_of(r: Option<Combination>) -> Option<CombinationView> {
    match r {
        Some(c) => Some((c.name@, c.cards@)),
        None => None,
    }
}

// ---------------------------------------------------------------------------
// Straights and flushes

/// Some card of `h` has rank value `v`.
pub open spec fn has_value(h: Seq<Card>, v: int) -> bool {
    exists|i: int| 0 <= i < h.len() && #[trigger] h[i].spec_value() == v
}

/// The five rank values `lo`, `lo + 1`, ..., `lo + 4` all occur in `h`.
pub open spec fn has_run_from(h: Seq<Card>, lo: int) -> bool {
    forall|k: int| 0 <= k < 5 ==> #[trigger] has_value(h, lo + k)
}

/// The low straight, with the ace below the two: 2, 3, 4, 5 and an ace occur in `h`.
pub open spec fn has_wheel(h: Seq<Card>) -> bool {
    has_value(h, 2) && has_value(h, 3) && has_value(h, 4) && has_value(h, 5) && has_value(h, 14)
}

/// Five consecutive ranks, or the ace-to-five straight; suits play no part.
pub open spec fn is_straight(h: Seq<Card>) -> bool {
    (exists|lo: int| has_run_from(h, lo)) || has_wheel(h)
}

/// Ten, jack, queen, king and ace all occur in `h`.
pub open spec fn is_royal(h: Seq<Card>) -> bool {
    has_run_from(h, 10)
}

/// Every card has the suit of the first.
pub open spec fn is_flush(h: Seq<Card>) -> bool {
    forall|i: int| 0 <= i < h.len() ==> #[trigger] h[i].suit == h[0].suit
}

/// Ranks never decrease along `s`.
pub open spec fn sorted_by_value(s: Seq<Card>) -> bool {
    forall|a: int, b: int| 0 <= a < b < s.len() ==> s[a].spec_value() <= s[b].spec_value()
}

pub open spec fn straight_result(h: Seq<Card>) -> Option<CombinationView> {
    if is_straight(h) {
        Some(("Straight"@, h))
    } else {
        None
    }
}

pub open spec fn flush_result(h: Seq<Card>) -> Option<CombinationView> {
    if is_flush(h) {
        Some(("Flush"@, h))
    } else {
        None
    }
}

/// The straight-flush decision: both found gives a royal or a straight flush,
/// one found gives that one, none gives no match.
pub open spec fn flush_royal_result(h: Seq<Card>) -> Option<CombinationView> {
    if is_straight(h) && is_flush(h) {
        if is_royal(h) {
            Some(("Flush Royal"@, h))
        } else {
            Some(("Straight Flush"@, h))
        }
    } else if is_straight(h) {
        straight_result(h)
    } else {
        flush_result(h)
    }
}

/// In a sorted five-card sequence that holds five increasing values, each
/// position holds its value.
proof fn lemma_sorted_holds_values(s: Seq<Card>, v0: int, v1: int, v2: int, v3: int, v4: int)
    requires
        s.len() == 5,
        sorted_by_value(s),
        v0 < v1 < v2 < v3 < v4,
        has_value(s, v0),
        has_value(s, v1),
        has_value(s, v2),
        has_value(s, v3),
        has_value(s, v4),
    ensures
        s[0].spec_value() == v0,
        s[1].spec_value() == v1,
        s[2].spec_value() == v2,
        s[3].spec_value() == v3,
        s[4].spec_value() == v4,
{
    let p0 = choose|i: int| 0 <= i < 5 && #[trigger] s[i].spec_value() == v0;
    let p1 = choose|i: int| 0 <= i < 5 && #[trigger] s[i].spec_value() == v1;
    let p2 = choose|i: int| 0 <= i < 5 && #[trigger] s[i].spec_value() == v2;
    let p3 = choose|i: int| 0 <= i < 5 && #[trigger] s[i].spec_value() == v3;
    let p4 = choose|i: int| 0 <= i < 5 && #[trigger] s[i].spec_value() == v4;
    assert(p0 < p1);
    assert(p1 < p2);
    assert(p2 < p3);
    assert(p3 < p4);
}

/// A sorted five-card sequence holding a run from `lo` holds it in order.
proof fn lemma_sorted_run(s: Seq<Card>, lo: int)
    requires
        s.len() == 5,
        sorted_by_value(s),
        has_run_from(s, lo),
    ensures
        forall|k: int| 0 <= k < 5 ==> #[trigger] s[k].spec_value() == lo + k,
{
    assert(has_value(s, lo + 0));
    assert(has_value(s, lo + 1));
    assert(has_value(s, lo + 2));
    assert(has_value(s, lo + 3));
    assert(has_value(s, lo + 4));
    lemma_sorted_holds_values(s, lo, lo + 1, lo + 2, lo + 3, lo + 4);
}

/// A sequence with the same cards as `h` holds the same rank values.
proof fn lemma_same_values(h: Seq<Card>, s: Seq<Card>, v: int)
    requires
        s.to_multiset() == h.to_multiset(),
    ensures
        has_value(h, v) <==> has_value(s, v),
{
    h.to_multiset_ensures();
    s.to_multiset_ensures();
    if has_value(h, v) {
        let i = choose|i: int| 0 <= i < h.len() && #[trigger] h[i].spec_value() == v;
        assert(h.contains(h[i]));
        assert(h.to_multiset().count(h[i]) > 0);
        assert(s.to_multiset().count(h[i]) > 0);
        assert(s.contains(h[i]));
        let j = choose|j: int| 0 <= j < s.len() && s[j] == h[i];
        assert(s[j].spec_value() == v);
    }
    if has_value(s, v) {
        let i = choose|i: int| 0 <= i < s.len() && #[trigger] s[i].spec_value() == v;
        assert(s.contains(s[i]));
        assert(s.to_multiset().count(s[i]) > 0);
        assert(h.to_multiset().count(s[i]) > 0);
        assert(h.contains(s[i]));
        let j = choose|j: int| 0 <= j < h.len() && h[j] == s[i];
        assert(h[j].spec_value() == v);
    }
}

proof fn lemma_swap_multiset(s: Seq<Card>, i: int, j: int)
    requires
        0 <= i < s.len(),
        0 <= j < s.len(),
    ensures
        s.update(i, s[j]).update(j, s[i]).to_multiset() == s.to_multiset(),
{
    let t = s.update(i, s[j]);
    assert(t.to_multiset() =~= s.to_multiset().insert(s[j]).remove(s[i]));
    assert(t.update(j, s[i]).to_multiset() =~= t.to_multiset().insert(s[i]).remove(t[j]));
    if i == j {
        assert(t.update(j, s[i]) =~= s);
    } else {
        assert(t[j] == s[j]);
        assert(t.update(j, s[i]).to_multiset() =~= s.to_multiset());
    }
}

/// A copy of the hand ordered by ascending rank; the hand itself is left as it is.
pub fn sort_by_quantity(hand: &Hand) -> (r: Hand)
    ensures
        sorted_by_value(r@),
        r@.to_multiset() == hand@.to_multiset(),
{
    let mut r: Hand = *hand;
    let mut i: usize = 1;
    while i < 5
        invariant
            1 <= i <= 5,
            r@.len() == 5,
            r@.to_multiset() == hand@.to_multiset(),
            forall|a: int, b: int| 0 <= a < b < i ==> r@[a].spec_value() <= r@[b].spec_value(),
        decreases 5 - i,
    {
        let mut j: usize = i;
        while j > 0 && r[j - 1].quantity.value() > r[j].quantity.value()
            invariant
                1 <= i < 5,
                0 <= j <= i,
                r@.len() == 5,
                r@.to_multiset() == hand@.to_multiset(),
                forall|a: int, b: int|
                    0 <= a < b <= i && a != j && b != j ==> r@[a].spec_value()
                        <= r@[b].spec_value(),
                forall|b: int| j < b <= i ==> r@[j as int].spec_value() <= r@[b].spec_value(),
            decreases j,
        {
            let ghost before = r@;
            let lower = r[j - 1];
            let upper = r[j];
            r[j - 1] = upper;
            r[j] = lower;
            proof {
                lemma_swap_multiset(before, j - 1, j as int);
                assert(r@ =~= before.update(j - 1, before[j as int]).update(
                    j as int,
                    before[j - 1],
                ));
            }
            j = j - 1;
        }
        i = i + 1;
    }
    r
}

/// Whether the ranks of a sorted copy of `hand` make a straight.
fn straight_in_sorted(hand: &Hand, sorted: &Hand) -> (r: bool)
    requires
        sorted_by_value(sorted@),
        sorted@.to_multiset() == hand@.to_multiset(),
    ensures
        r == is_straight(hand@),
{
    // The ace may close a low straight from two to five: it sorts last,
    // so only the first four cards then need consecutive ranks.
    let len: usize = if sorted[0].quantity.value() == 2 && sorted[4].quantity.value() == 14 {
        4
    } else {
        5
    };
    let s = Ghost(sorted@);
    let h = Ghost(hand@);
    proof {
        assert forall|v: int| has_value(h@, v) <==> has_value(s@, v) by {
            lemma_same_values(h@, s@, v);
        }
    }
    let mut i: usize = 1;
    while i < len
        invariant
            1 <= i <= len,
            len == 4 || len == 5,
            len == 4 <==> (sorted@[0].spec_value() == 2 && sorted@[4].spec_value() == 14),
            s@ == sorted@,
            h@ == hand@,
            s@.len() == 5,
            sorted_by_value(s@),
            forall|v: int| has_value(h@, v) <==> has_value(s@, v),
            forall|k: int| 1 <= k < i ==> #[trigger] s@[k].spec_value() == s@[k - 1].spec_value() + 1,
        decreases len - i,
    {
        let q1 = sorted[i].quantity.value();
        let q2 = sorted[i - 1].quantity.value();
        if q1 != q2 + 1 {
            proof {
                if exists|lo: int| has_run_from(h@, lo) {
                    let lo = choose|lo: int| has_run_from(h@, lo);
                    assert forall|k: int| 0 <= k < 5 implies #[trigger] has_value(s@, lo + k) by {
                        assert(has_value(h@, lo + k));
                    }
                    lemma_sorted_run(s@, lo);
                    assert(s@[i as int].spec_value() == lo + i);
                    assert(s@[i - 1].spec_value() == lo + (i - 1));
                }
                if has_wheel(h@) {
                    lemma_sorted_holds_values(s@, 2, 3, 4, 5, 14);
                    assert(len == 4);
                }
            }
            return false;
        }
        i = i + 1;
    }
    proof {
        if len == 5 {
            let lo = s@[0].spec_value();
            assert forall|k: int| 0 <= k < 5 implies #[trigger] has_value(h@, lo + k) by {
                assert(s@[k].spec_value() == lo + k) by {
                    if k >= 1 { assert(s@[1].spec_value() == lo + 1); }
                    if k >= 2 { assert(s@[2].spec_value() == lo + 2); }
                    if k >= 3 { assert(s@[3].spec_value() == lo + 3); }
                }
                assert(has_value(s@, lo + k));
            }
            assert(has_run_from(h@, lo));
        } else {
            assert(has_value(s@, s@[1].spec_value()));
            assert(has_value(s@, s@[2].spec_value()));
            assert(has_value(s@, s@[3].spec_value()));
            assert(has_value(s@, 2));
            assert(has_value(s@, 14));
        }
    }
    true
}

/// The cards of the hand, in hand order.
fn hand_cards(hand: &Hand) -> (r: Vec<Card>)
    ensures
        r@ == hand@,
{
    let r = vec![hand[0], hand[1], hand[2], hand[3], hand[4]];
    assert(r@ =~= hand@);
    r
}

/// Five cards of consecutive rank, ace-low allowed; the cards in hand order.
pub fn check_straight(hand: &Hand) -> (r: Option<Combination>)
    ensures
        view_of(r) == straight_result(hand@),
{
    let sorted = sort_by_quantity(hand);
    if straight_in_sorted(hand, &sorted) {
        Some(Combination { name: "Straight", cards: hand_cards(hand) })
    } else {
        None
    }
}

/// All five cards of one suit; the cards in hand order.
pub fn check_flush(hand: &Hand) -> (r: Option<Combination>)
    ensures
        view_of(r) == flush_result(hand@),
{
    let suit = hand[0].suit;
    let mut i: usize = 0;
    while i < 5
        invariant
            0 <= i <= 5,
            suit == hand@[0].suit,
            forall|k: int| 0 <= k < i ==> #[trigger] hand@[k].suit == suit,
        decreases 5 - i,
    {
        if hand[i].suit != suit {
            return None;
        }
        i = i + 1;
    }
    Some(Combination { name: "Flush", cards: hand_cards(hand) })
}


/// A straight and a flush together make a straight flush, a royal one when its
/// ranks run from ten to ace; either alone is reported as itself.
pub fn check_flush_royal(hand: &Hand) -> (r: Option<Combination>)
    ensures
        view_of(r) == flush_royal_result(hand@),
{
    let straight = check_straight(hand);
    let flush = check_flush(hand);
    match (straight, flush) {
        (Some(_), Some(_)) => {
            let sorted = sort_by_quantity(hand);
            let ghost s = sorted@;
            proof {
                assert forall|v: int| has_value(hand@, v) <==> has_value(s, v) by {
                    lemma_same_values(hand@, s, v);
                }
            }
            let mut expected: u8 = 10;
            let mut i: usize = 0;
            while i < 5
                invariant
                    0 <= i <= 5,
                    s == sorted@,
                    s.len() == 5,
                    sorted_by_value(s),
                    forall|v: int| has_value(hand@, v) <==> has_value(s, v),
                    expected == 10 + i,
                    is_straight(hand@) && is_flush(hand@),
                    forall|k: int| 0 <= k < i ==> #[trigger] s[k].spec_value() == 10 + k,
                decreases 5 - i,
            {
                if sorted[i].quantity.value() != expected {
                    proof {
                        if is_royal(hand@) {
                            assert forall|k: int| 0 <= k < 5 implies #[trigger] has_value(
                                s,
                                10 + k,
                            ) by {
                                assert(has_value(hand@, 10 + k));
                            }
                            lemma_sorted_run(s, 10);
                            assert(s[i as int].spec_value() == 10 + i);
                        }
                    }
                    return Some(Combination { name: "Straight Flush", cards: hand_cards(hand) });
                }
                expected = expected + 1;
                i = i + 1;
            }
            proof {
                assert forall|k: int| 0 <= k < 5 implies #[trigger] has_value(hand@, 10 + k) by {
                    assert(s[k].spec_value() == 10 + k);
                    assert(has_value(s, 10 + k));
                }
            }
            Some(Combination { name: "Flush Royal", cards: hand_cards(hand) })
        },
        (Some(straight), None) => Some(straight),
        (None, Some(flush)) => Some(flush),
        (None, None) => None,
    }
}

// ---------------------------------------------------------------------------
// Cards of equal rank

/// The cards of `h` of rank `q`, in hand order.
pub open spec fn rank_group(h: Seq<Card>, q: Quantity) -> Seq<Card>
    decreases h.len(),
{
    if h.len() == 0 {
        seq![]
    } else {
        let earlier = rank_group(h.drop_last(), q);
        if h.last().quantity == q {
            earlier.push(h.last())
        } else {
            earlier
        }
    }
}

/// The groups of cards sharing a rank, among the first `n` cards, that have at
/// least two members. A rank's group is listed where its second card is met,
/// and holds every card of that rank in the hand, in hand order.
pub open spec fn duplicate_groups_upto(h: Seq<Card>, n: int) -> Seq<Seq<Card>>
    decreases n,
{
    if n <= 0 {
        seq![]
    } else {
        let earlier = duplicate_groups_upto(h, n - 1);
        if rank_group(h.subrange(0, n - 1), h[n - 1].quantity).len() == 1 {
            earlier.push(rank_group(h, h[n - 1].quantity))
        } else {
            earlier
        }
    }
}

/// The groups of two or more cards of equal rank in `h`, in the order in which
/// a second card of each rank is met.
pub open spec fn duplicate_groups(h: Seq<Card>) -> Seq<Seq<Card>> {
    duplicate_groups_upto(h, h.len() as int)
}

/// Two groups give two pairs (all their cards, first group first); one group
/// gives a pair, three or four of a kind by its size; anything else no match.
pub open spec fn duplicates_result(h: Seq<Card>) -> Option<CombinationView> {
    let g = duplicate_groups(h);
    if g.len() == 2 {
        Some(("Two pairs"@, g[0] + g[1]))
    } else if g.len() == 1 {
        if g[0].len() == 2 {
            Some(("Pair"@, g[0]))
        } else if g[0].len() == 3 {
            Some(("Three of a kind"@, g[0]))
        } else if g[0].len() == 4 {
            Some(("Four of a kind"@, g[0]))
        } else {
            None
        }
    } else {
        None
    }
}

/// The cards of the hand whose rank is `q`, in hand order.
fn collect_rank(hand: &Hand, q: Quantity) -> (r: Vec<Card>)
    ensures
        r@ == rank_group(hand@, q),
{
    let mut r: Vec<Card> = Vec::new();
    let mut j: usize = 0;
    while j < 5
        invariant
            0 <= j <= 5,
            r@ == rank_group(hand@.subrange(0, j as int), q),
        decreases 5 - j,
    {
        proof {
            assert(hand@.subrange(0, j + 1).drop_last() =~= hand@.subrange(0, j as int));
        }
        if hand[j].quantity == q {
            r.push(hand[j]);
        }
        j = j + 1;
    }
    assert(hand@.subrange(0, 5) =~= hand@);
    r
}

/// How many of the first `n` cards of the hand have rank `q`.
fn count_rank_before(hand: &Hand, n: usize, q: Quantity) -> (r: usize)
    requires
        n <= 5,
    ensures
        r == rank_group(hand@.subrange(0, n as int), q).len(),
{
    let mut r: usize = 0;
    let mut j: usize = 0;
    while j < n
        invariant
            0 <= j <= n <= 5,
            r == rank_group(hand@.subrange(0, j as int), q).len(),
            r <= j,
        decreases n - j,
    {
        proof {
            assert(hand@.subrange(0, j + 1).drop_last() =~= hand@.subrange(0, j as int));
        }
        if hand[j].quantity == q {
            r = r + 1;
        }
        j = j + 1;
    }
    r
}

/// Groups the hand by rank and keeps the groups of two or more cards.
pub fn find_duplicates(hand: &Hand) -> (r: Vec<Vec<Card>>)
    ensures
        r@.map_values(|g: Vec<Card>| g@) == duplicate_groups(hand@),
{
    let mut r: Vec<Vec<Card>> = Vec::new();
    let mut i: usize = 0;
    while i < 5
        invariant
            0 <= i <= 5,
            r@.map_values(|g: Vec<Card>| g@) == duplicate_groups_upto(hand@, i as int),
        decreases 5 - i,
    {
        let q = hand[i].quantity;
        if count_rank_before(hand, i, q) == 1 {
            let group = collect_rank(hand, q);
            let ghost before = r@;
            r.push(group);
            assert(r@.map_values(|g: Vec<Card>| g@) =~= before.map_values(|g: Vec<Card>| g@).push(
                group@,
            ));
        }
        i = i + 1;
    }
    r
}

/// Pair, two pairs, three or four of a kind, from the groups of equal rank.
pub fn check_duplicates(hand: &Hand) -> (r: Option<Combination>)
    ensures
        view_of(r) == duplicates_result(hand@),
{
    let mut groups = find_duplicates(hand);
    let ghost g = duplicate_groups(hand@);
    assert(groups@.len() == g.len());
    let count = groups.len();
    if count == 2 {
        assert(groups@[0]@ == g[0]);
        assert(groups@[1]@ == g[1]);
        let mut second = groups.pop().unwrap();
        let mut first = groups.pop().unwrap();
        first.append(&mut second);
        Some(Combination { name: "Two pairs", cards: first })
    } else if count == 1 {
        assert(groups@[0]@ == g[0]);
        let group = groups.pop().unwrap();
        match group.len() {
            2 => Some(Combination { name: "Pair", cards: group }),
            3 => Some(Combination { name: "Three of a kind", cards: group }),
            4 => Some(Combination { name: "Four of a kind", cards: group }),
            _ => None,
        }
    } else {
        None
    }
}


// ---------------------------------------------------------------------------
// High card

/// The position of the first card of highest rank among the first `n` cards.
pub open spec fn highest_index(h: Seq<Card>, n: int) -> int
    decreases n,
{
    if n <= 1 {
        0
    } else {
        let m = highest_index(h, n - 1);
        if h[n - 1].spec_value() > h[m].spec_value() {
            n - 1
        } else {
            m
        }
    }
}

/// Card `i` has the highest rank of `h`, and no earlier card has that rank.
pub open spec fn is_first_highest(h: Seq<Card>, i: int) -> bool {
    &&& 0 <= i < h.len()
    &&& forall|j: int| 0 <= j < h.len() ==> #[trigger] h[j].spec_value() <= h[i].spec_value()
    &&& forall|j: int| 0 <= j < i ==> #[trigger] h[j].spec_value() < h[i].spec_value()
}

pub open spec fn high_result(h: Seq<Card>) -> Option<CombinationView> {
    Some(("High card"@, seq![h[highest_index(h, h.len() as int)]]))
}

/// The highest card alone; of equal highest cards the first in hand order.
pub fn check_high(hand: &Hand) -> (r: Option<Combination>)
    ensures
        view_of(r) == high_result(hand@),
        is_first_highest(hand@, highest_index(hand@, 5)),
{
    let mut high: usize = 0;
    let mut i: usize = 1;
    while i < 5
        invariant
            1 <= i <= 5,
            high == highest_index(hand@, i as int),
            is_first_highest(hand@.subrange(0, i as int), high as int),
        decreases 5 - i,
    {
        if hand[i].quantity > hand[high].quantity {
            high = i;
        }
        assert(is_first_highest(hand@.subrange(0, i + 1), high as int)) by {
            assert forall|j: int| 0 <= j < i + 1 implies #[trigger] hand@.subrange(0, i + 1)[j].spec_value()
                <= hand@.subrange(0, i + 1)[high as int].spec_value() by {
                if j < i {
                    assert(hand@.subrange(0, i as int)[j] == hand@[j]);
                }
            }
            assert forall|j: int| 0 <= j < high implies #[trigger] hand@.subrange(0, i + 1)[j].spec_value()
                < hand@.subrange(0, i + 1)[high as int].spec_value() by {
                assert(hand@.subrange(0, i as int)[j] == hand@[j]);
            }
        }
        i = i + 1;
    }
    assert(hand@.subrange(0, 5) =~= hand@);
    let cards = vec![hand[high]];
    assert(cards@ =~= seq![hand@[high as int]]);
    Some(Combination { name: "High card", cards })
}

// ---------------------------------------------------------------------------
// The rule pipeline

/// One detector of the pipeline.
#[derive(Clone, Copy, Debug, PartialEq, Eq, Structural)]
pub enum Rule {
    FlushRoyal,
    Duplicates,
    High,
}

pub open spec fn rule_result(rule: Rule, h: Seq<Card>) -> Option<CombinationView> {
    match rule {
        Rule::FlushRoyal => flush_royal_result(h),
        Rule::Duplicates => duplicates_result(h),
        Rule::High => high_result(h),
    }
}

/// The detectors in order of precedence.
pub open spec fn rule_order() -> Seq<Rule> {
    seq![Rule::FlushRoyal, Rule::Duplicates, Rule::High]
}

/// The result of the first of `rules` that matches `h`.
pub open spec fn first_match(rules: Seq<Rule>, h: Seq<Card>) -> Option<CombinationView>
    decreases rules.len(),
{
    if rules.len() == 0 {
        None
    } else {
        match rule_result(rules[0], h) {
            Some(c) => Some(c),
            None => first_match(rules.drop_first(), h),
        }
    }
}

/// What the pipeline makes of a hand.
pub open spec fn classification(h: Seq<Card>) -> Option<CombinationView> {
    first_match(rule_order(), h)
}

impl Rule {
    /// Runs this detector on the hand.
    pub fn check(&self, hand: &Hand) -> (r: Option<Combination>)
        ensures
            view_of(r) == rule_result(*self, hand@),
    {
        match self {
            Rule::FlushRoyal => check_flush_royal(hand),
            Rule::Duplicates => check_duplicates(hand),
            Rule::High => check_high(hand),
        }
    }
}

/// The detectors, from the highest precedence down.
pub fn get_rules() -> (r: Vec<Rule>)
    ensures
        r@ == rule_order(),
{
    let r = vec![Rule::FlushRoyal, Rule::Duplicates, Rule::High];
    assert(r@ =~= rule_order());
    r
}

/// Names the hand: the result of the first detector, in order of precedence,
/// that matches it.
pub fn classify(hand: &Hand) -> (r: Combination)
    ensures
        classification(hand@) == Some((r.name@, r.cards@)),
{
    let rules = get_rules();
    let mut i: usize = 0;
    assert(rule_order().subrange(0, 3) =~= rule_order());
    loop
        invariant
            0 <= i < 3,
            rules@ == rule_order(),
            first_match(rule_order(), hand@) == first_match(rule_order().subrange(i as int, 3), hand@),
        decreases 3 - i,
    {
        proof {
            assert(rule_order().subrange(i as int, 3).drop_first() =~= rule_order().subrange(i + 1, 3));
        }
        match rules[i].check(hand) {
            Some(c) => {
                return c;
            },
            None => {
                i = i + 1;
            },
        }
    }
}

/// Classification depends on the cards and their order alone: two hands with
/// the same cards in the same order get the same name and the same cards.
pub proof fn lemma_classification_deterministic(h1: Seq<Card>, h2: Seq<Card>)
    requires
        h1.len() == 5,
        h1 =~= h2,
    ensures
        classification(h1) == classification(h2),
{
}

/// Straight detection sorts a copy only: a straight, a flush, and the
/// straight-flush composite all report the hand's own cards in hand order.
pub proof fn lemma_detection_keeps_hand_order(h: Seq<Card>)
    requires
        h.len() == 5,
    ensures
        straight_result(h) matches Some(c) ==> c.1 == h,
        flush_result(h) matches Some(c) ==> c.1 == h,
        flush_royal_result(h) matches Some(c) ==> c.1 == h,
{
}

/// The pipeline always names a hand: the high card matches every hand.
pub proof fn lemma_classification_total(h: Seq<Card>)
    requires
        h.len() == 5,
    ensures
        classification(h) is Some,
        high_result(h) is Some,
{
    let rules = rule_order();
    assert(rules.drop_first() =~= seq![Rule::Duplicates, Rule::High]);
    assert(rules.drop_first().drop_first() =~= seq![Rule::High]);
    reveal_with_fuel(first_match, 3);
}

impl Combination {
    /// The name, a colon and a space, then each card's symbol, separated by spaces.
    pub fn render(&self) -> (r: String)
        ensures
            r@ == rendering(self.name@, self.cards@),
    {
        let mut r = String::from_str(self.name);
        r.append(": ");
        let mut i: usize = 0;
        while i < self.cards.len()
            invariant
                0 <= i <= self.cards@.len(),
                r@ == self.name@ + ": "@ + cards_text(self.cards@.subrange(0, i as int)),
            decreases self.cards@.len() - i,
        {
            proof {
                assert(self.cards@.subrange(0, i + 1).drop_last() =~= self.cards@.subrange(0, i as int));
            }
            if i > 0 {
                r.append(" ");
            }
            let symbol = self.cards[i].symbol();
            r.append(symbol.as_str());
            proof {
                assert(r@ =~= self.name@ + ": "@ + cards_text(self.cards@.subrange(0, i + 1)));
            }
            i = i + 1;
        }
        assert(self.cards@.subrange(0, self.cards@.len() as int) =~= self.cards@);
        r
    }
}

/// The symbols of `cards`, separated by single spaces.
pub open spec fn cards_text(cards: Seq<Card>) -> Seq<char>
    decreases cards.len(),
{
    if cards.len() == 0 {
        seq![]
    } else if cards.len() == 1 {
        card_symbol(cards[0])
    } else {
        cards_text(cards.drop_last()) + " "@ + card_symbol(cards.last())
    }
}

/// How a combination is shown.
pub open spec fn rendering(name: Seq<char>, cards: Seq<Card>) -> Seq<char> {
    name + ": "@ + cards_text(cards)
}

} // verus!
