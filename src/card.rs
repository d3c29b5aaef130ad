use vstd::prelude::*;

verus! {

/// The suit of a card; suits are only ever compared for equality.
#[derive(Clone, Copy, Debug, PartialEq, Eq, Structural, Hash)]
pub enum Suit {
    Spades,
    Clubs,
    Diamonds,
    Hearts,
}

/// The rank of a card, from two up to the ace.
#[derive(Clone, Copy, Debug, PartialEq, Eq, Structural, Hash)]
pub enum Quantity {
    Two,
    Three,
    Four,
    Five,
    Six,
    Seven,
    Eight,
    Nine,
    Ten,
    Jack,
    Queen,
    King,
    Ace,
}

/// A playing card.
#[derive(Clone, Copy, Debug, PartialEq, Eq, Structural)]
pub struct Card {
    pub suit: Suit,
    pub quantity: Quantity,
}

/// The five cards being classified, in the order they were dealt.
pub type Hand = [Card; 5];

/// The four suits, in deck order.
pub open spec fn all_suits() -> Seq<Suit> {
    seq![Suit::Spades, Suit::Clubs, Suit::Diamonds, Suit::Hearts]
}

/// The thirteen ranks, in ascending order.
pub open spec fn all_quantities() -> Seq<Quantity> {
    seq![
        Quantity::Two,
        Quantity::Three,
        Quantity::Four,
        Quantity::Five,
        Quantity::Six,
        Quantity::Seven,
        Quantity::Eight,
        Quantity::Nine,
        Quantity::Ten,
        Quantity::Jack,
        Quantity::Queen,
        Quantity::King,
        Quantity::Ace,
    ]
}

/// The display glyph of a suit.
pub open spec fn suit_symbol(s: Suit) -> Seq<char> {
    match s {
        Suit::Spades => "\u{2660}"@,
        Suit::Clubs => "\u{2663}"@,
        Suit::Diamonds => "\u{2666}"@,
        Suit::Hearts => "\u{2665}"@,
    }
}

/// The display symbol of a rank: its digits, or J, Q, K, A for the faces.
pub open spec fn quantity_symbol(q: Quantity) -> Seq<char> {
    match q {
        Quantity::Two => "2"@,
        Quantity::Three => "3"@,
        Quantity::Four => "4"@,
        Quantity::Five => "5"@,
        Quantity::Six => "6"@,
        Quantity::Seven => "7"@,
        Quantity::Eight => "8"@,
        Quantity::Nine => "9"@,
        Quantity::Ten => "10"@,
        Quantity::Jack => "J"@,
        Quantity::Queen => "Q"@,
        Quantity::King => "K"@,
        Quantity::Ace => "A"@,
    }
}

/// How a card is shown: its rank symbol followed by its suit glyph.
pub open spec fn card_symbol(c: Card) -> Seq<char> {
    quantity_symbol(c.quantity) + suit_symbol(c.suit)
}

impl Suit {
    pub fn all() -> (r: Vec<Suit>)
        ensures
            r@ == all_suits(),
    {
        let r = vec![Suit::Spades, Suit::Clubs, Suit::Diamonds, Suit::Hearts];
        assert(r@ =~= all_suits());
        r
    }

    pub fn symbol(&self) -> (r: &'static str)
        ensures
            r@ == suit_symbol(*self),
    {
        match self {
            Suit::Spades => "\u{2660}",
            Suit::Clubs => "\u{2663}",
            Suit::Diamonds => "\u{2666}",
            Suit::Hearts => "\u{2665}",
        }
    }
}

impl Quantity {
    /// The numeric value of the rank: 2 to 10, then 11 to 14 for jack, queen, king, ace.
    pub open spec fn spec_value(self) -> int {
        match self {
            Quantity::Two => 2,
            Quantity::Three => 3,
            Quantity::Four => 4,
            Quantity::Five => 5,
            Quantity::Six => 6,
            Quantity::Seven => 7,
            Quantity::Eight => 8,
            Quantity::Nine => 9,
            Quantity::Ten => 10,
            Quantity::Jack => 11,
            Quantity::Queen => 12,
            Quantity::King => 13,
            Quantity::Ace => 14,
        }
    }

    pub fn value(&self) -> (r: u8)
        ensures
            r as int == self.spec_value(),
            2 <= r <= 14,
    {
        match self {
            Quantity::Two => 2,
            Quantity::Three => 3,
            Quantity::Four => 4,
            Quantity::Five => 5,
            Quantity::Six => 6,
            Quantity::Seven => 7,
            Quantity::Eight => 8,
            Quantity::Nine => 9,
            Quantity::Ten => 10,
            Quantity::Jack => 11,
            Quantity::Queen => 12,
            Quantity::King => 13,
            Quantity::Ace => 14,
        }
    }

    pub fn all() -> (r: Vec<Quantity>)
        ensures
            r@ == all_quantities(),
    {
        let r = vec![
            Quantity::Two,
            Quantity::Three,
            Quantity::Four,
            Quantity::Five,
            Quantity::Six,
            Quantity::Seven,
            Quantity::Eight,
            Quantity::Nine,
            Quantity::Ten,
            Quantity::Jack,
            Quantity::Queen,
            Quantity::King,
            Quantity::Ace,
        ];
        assert(r@ =~= all_quantities());
        r
    }

    pub fn symbol(&self) -> (r: &'static str)
        ensures
            r@ == quantity_symbol(*self),
    {
        match self {
            Quantity::Two => "2",
            Quantity::Three => "3",
            Quantity::Four => "4",
            Quantity::Five => "5",
            Quantity::Six => "6",
            Quantity::Seven => "7",
            Quantity::Eight => "8",
            Quantity::Nine => "9",
            Quantity::Ten => "10",
            Quantity::Jack => "J",
            Quantity::Queen => "Q",
            Quantity::King => "K",
            Quantity::Ace => "A",
        }
    }
}

/// Two ranks are equal exactly when their values are.
pub proof fn lemma_value_injective(a: Quantity, b: Quantity)
    ensures
        a.spec_value() == b.spec_value() <==> a == b,
{
}

impl PartialOrd for Quantity {
    fn partial_cmp(&self, other: &Quantity) -> (r: Option<core::cmp::Ordering>) {
        let a = self.value();
        let b = other.value();
        if a < b {
            Some(core::cmp::Ordering::Less)
        } else if a > b {
            Some(core::cmp::Ordering::Greater)
        } else {
            Some(core::cmp::Ordering::Equal)
        }
    }
}

impl vstd::std_specs::cmp::PartialOrdSpecImpl for Quantity {
    open spec fn obeys_partial_cmp_spec() -> bool {
        true
    }

    open spec fn partial_cmp_spec(&self, other: &Quantity) -> Option<core::cmp::Ordering> {
        if self.spec_value() < other.spec_value() {
            Some(core::cmp::Ordering::Less)
        } else if self.spec_value() > other.spec_value() {
            Some(core::cmp::Ordering::Greater)
        } else {
            Some(core::cmp::Ordering::Equal)
        }
    }
}

impl Card {
    /// The card that a hand is filled with before dealing: the ten of spades.
    pub fn new() -> (r: Card)
        ensures
            r == (Card { suit: Suit::Spades, quantity: Quantity::Ten }),
    {
        Card { suit: Suit::Spades, quantity: Quantity::Ten }
    }

    pub open spec fn spec_value(self) -> int {
        self.quantity.spec_value()
    }

    /// The card's rank symbol followed by its suit glyph.
    pub fn symbol(&self) -> (r: String)
        ensures
            r@ == card_symbol(*self),
    {
        let s = String::from_str(self.quantity.symbol());
        s.concat(self.suit.symbol())
    }
}

} // verus!
