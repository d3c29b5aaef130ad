//! Five-card poker hands: a card model, a 52-card deck, and the ordered
//! rules that name the best combination found in a hand.

pub mod card;
pub mod deck;
pub mod rules;

pub use card::{Card, Hand, Quantity, Suit};
pub use deck::Deck;
pub use rules::{
    check_duplicates, check_flush, check_flush_royal, check_high, check_straight, classify,
    find_duplicates, get_rules, sort_by_quantity, Combination, Rule,
};
