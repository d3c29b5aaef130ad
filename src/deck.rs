use vstd::prelude::*;

use crate::card::{all_quantities, all_suits, Card, Hand, Quantity, Suit};

verus! {

/// A pack of cards; cards are dealt from its end.
pub struct Deck {
    pub cards: Vec<Card>,
}

/// The card at `i` of a fresh deck: suit by suit, each suit from two up to the ace.
pub open spec fn fresh_card(i: int) -> Card {
    Card { suit: all_suits()[i / 13], quantity: all_quantities()[i % 13] }
}

/// Relies on rand's `SliceRandom::shuffle` with `thread_rng`: it only swaps
/// elements, so the cards come back in some order of the same cards.
#[verifier::external_body]
fn shuffle_cards(cards: &mut Vec<Card>)
    ensures
        final(cards)@.to_multiset() == old(cards)@.to_multiset(),
        final(cards)@.len() == old(cards)@.len(),
{
    let mut rng = rand::thread_rng();
    rand::seq::SliceRandom::shuffle(cards.as_mut_slice(), &mut rng);
}

impl Deck {
    /// The 52 cards, suit by suit, each suit from two up to the ace.
    pub fn create() -> (r: Deck)
        ensures
            r.cards@.len() == 52,
            forall|i: int| 0 <= i < 52 ==> #[trigger] r.cards@[i] == fresh_card(i),
    {
        let mut cards: Vec<Card> = Vec::with_capacity(52);
        let suits = Suit::all();
        let quantities = Quantity::all();
        let mut s: usize = 0;
        while s < 4
            invariant
                0 <= s <= 4,
                suits@ == all_suits(),
                quantities@ == all_quantities(),
                cards@.len() == 13 * s,
                forall|i: int| 0 <= i < 13 * s ==> #[trigger] cards@[i] == fresh_card(i),
            decreases 4 - s,
        {
            let mut q: usize = 0;
            while q < 13
                invariant
                    0 <= s < 4,
                    0 <= q <= 13,
                    suits@ == all_suits(),
                    quantities@ == all_quantities(),
                    cards@.len() == 13 * s + q,
                    forall|i: int| 0 <= i < 13 * s + q ==> #[trigger] cards@[i] == fresh_card(i),
                decreases 13 - q,
            {
                proof {
                    let i = 13 * s + q;
                    assert(i / 13 == s as int && i % 13 == q as int) by (nonlinear_arith)
                        requires
                            i == 13 * s + q,
                            0 <= q < 13,
                            0 <= s,
                    ;
                }
                cards.push(Card { suit: suits[s], quantity: quantities[q] });
                q = q + 1;
            }
            s = s + 1;
        }
        Deck { cards }
    }

    /// Takes the last card, if any is left.
    pub fn deal(&mut self) -> (r: Option<Card>)
        ensures
            old(self).cards@.len() == 0 ==> r is None && final(self).cards@ == old(self).cards@,
            old(self).cards@.len() > 0 ==> r == Some(old(self).cards@.last())
                && final(self).cards@ == old(self).cards@.drop_last(),
    {
        self.cards.pop()
    }

    /// Puts the cards in a random order.
    pub fn shuffle(&mut self)
        ensures
            final(self).cards@.to_multiset() == old(self).cards@.to_multiset(),
            final(self).cards@.len() == old(self).cards@.len(),
    {
        shuffle_cards(&mut self.cards);
    }

    /// Deals five cards, first dealt first in the hand; with fewer than five
    /// left, deals none and reports it.
    pub fn deal_hand(&mut self) -> (r: Option<Hand>)
        ensures
            old(self).cards@.len() < 5 <==> r is None,
            r is None ==> final(self).cards@ == old(self).cards@,
            r matches Some(h) ==> {
                let n = old(self).cards@.len() as int;
                &&& final(self).cards@ == old(self).cards@.subrange(0, n - 5)
                &&& forall|k: int| 0 <= k < 5 ==> #[trigger] h@[k] == old(self).cards@[n - 1 - k]
            },
    {
        if self.cards.len() < 5 {
            return None;
        }
        let ghost start = self.cards@;
        let mut hand: Hand = [Card::new(); 5];
        let mut i: usize = 0;
        while i < 5
            invariant
                0 <= i <= 5,
                start.len() >= 5,
                self.cards@ == start.subrange(0, start.len() - i),
                forall|k: int| 0 <= k < i ==> #[trigger] hand@[k] == start[start.len() - 1 - k],
            decreases 5 - i,
        {
            match self.cards.pop() {
                Some(card) => {
                    hand[i] = card;
                },
                None => {
                    return None;
                },
            }
            i = i + 1;
        }
        Some(hand)
    }
}

} // verus!
