use poker::{
    check_duplicates, check_flush_royal, check_high, check_straight, classify, find_duplicates,
    get_rules, sort_by_quantity, Card, Combination, Deck, Hand, Quantity, Rule, Suit,
};

fn card(quantity: Quantity, suit: Suit) -> Card {
    Card { suit, quantity }
}

fn no_pair_hand() -> Hand {
    [
        card(Quantity::Ace, Suit::Hearts),
        card(Quantity::Five, Suit::Spades),
        card(Quantity::Seven, Suit::Clubs),
        card(Quantity::Four, Suit::Clubs),
        card(Quantity::Ten, Suit::Spades),
    ]
}

#[test]
fn classify_falls_through_to_high_card() {
    let hand = no_pair_hand();
    assert_eq!(check_duplicates(&hand), None);
    assert_eq!(check_flush_royal(&hand), None);
    let combination = classify(&hand);
    assert_eq!(
        combination,
        Combination { name: "High card", cards: vec![card(Quantity::Ace, Suit::Hearts)] }
    );
}

#[test]
fn classify_is_deterministic() {
    let hand = [
        card(Quantity::Two, Suit::Hearts),
        card(Quantity::Seven, Suit::Hearts),
        card(Quantity::Seven, Suit::Spades),
        card(Quantity::Ace, Suit::Diamonds),
        card(Quantity::Two, Suit::Spades),
    ];
    let copy = hand;
    assert_eq!(classify(&hand), classify(&copy));
    assert_eq!(classify(&hand).name, "Two pairs");
}

#[test]
fn classify_prefers_straight_flush_over_pairs() {
    let hand = [
        card(Quantity::Nine, Suit::Clubs),
        card(Quantity::Five, Suit::Clubs),
        card(Quantity::Eight, Suit::Clubs),
        card(Quantity::Seven, Suit::Clubs),
        card(Quantity::Six, Suit::Clubs),
    ];
    assert_eq!(classify(&hand), Combination { name: "Straight Flush", cards: hand.to_vec() });
}

#[test]
fn classify_ace_low_straight_flush_is_not_royal() {
    let hand = [
        card(Quantity::Ace, Suit::Hearts),
        card(Quantity::Two, Suit::Hearts),
        card(Quantity::Three, Suit::Hearts),
        card(Quantity::Four, Suit::Hearts),
        card(Quantity::Five, Suit::Hearts),
    ];
    assert_eq!(classify(&hand).name, "Straight Flush");
}

#[test]
fn full_house_reads_as_two_pairs() {
    let hand = [
        card(Quantity::King, Suit::Hearts),
        card(Quantity::Three, Suit::Clubs),
        card(Quantity::King, Suit::Spades),
        card(Quantity::Three, Suit::Hearts),
        card(Quantity::King, Suit::Diamonds),
    ];
    assert_eq!(
        classify(&hand),
        Combination {
            name: "Two pairs",
            cards: vec![
                card(Quantity::King, Suit::Hearts),
                card(Quantity::King, Suit::Spades),
                card(Quantity::King, Suit::Diamonds),
                card(Quantity::Three, Suit::Clubs),
                card(Quantity::Three, Suit::Hearts),
            ],
        }
    );
}

#[test]
fn duplicate_groups_in_order_of_second_card() {
    let hand = [
        card(Quantity::Two, Suit::Hearts),
        card(Quantity::Seven, Suit::Hearts),
        card(Quantity::Seven, Suit::Spades),
        card(Quantity::Ace, Suit::Diamonds),
        card(Quantity::Two, Suit::Spades),
    ];
    let groups = find_duplicates(&hand);
    assert_eq!(
        groups,
        vec![
            vec![card(Quantity::Seven, Suit::Hearts), card(Quantity::Seven, Suit::Spades)],
            vec![card(Quantity::Two, Suit::Hearts), card(Quantity::Two, Suit::Spades)],
        ]
    );
    assert!(find_duplicates(&no_pair_hand()).is_empty());
}

#[test]
fn high_card_first_of_equal_ranks() {
    let hand = [
        card(Quantity::Nine, Suit::Hearts),
        card(Quantity::King, Suit::Clubs),
        card(Quantity::Two, Suit::Spades),
        card(Quantity::King, Suit::Hearts),
        card(Quantity::Four, Suit::Diamonds),
    ];
    assert_eq!(
        check_high(&hand),
        Some(Combination { name: "High card", cards: vec![card(Quantity::King, Suit::Clubs)] })
    );
}

#[test]
fn straight_needs_distinct_ranks() {
    let hand = [
        card(Quantity::Two, Suit::Hearts),
        card(Quantity::Three, Suit::Clubs),
        card(Quantity::Three, Suit::Spades),
        card(Quantity::Four, Suit::Hearts),
        card(Quantity::Five, Suit::Diamonds),
    ];
    assert_eq!(check_straight(&hand), None);
    let wrap = [
        card(Quantity::Queen, Suit::Hearts),
        card(Quantity::King, Suit::Clubs),
        card(Quantity::Ace, Suit::Spades),
        card(Quantity::Two, Suit::Hearts),
        card(Quantity::Three, Suit::Diamonds),
    ];
    assert_eq!(check_straight(&wrap), None);
}

#[test]
fn sorting_copies_the_hand() {
    let hand = [
        card(Quantity::Jack, Suit::Diamonds),
        card(Quantity::Eight, Suit::Clubs),
        card(Quantity::Ten, Suit::Diamonds),
        card(Quantity::Seven, Suit::Diamonds),
        card(Quantity::Nine, Suit::Hearts),
    ];
    let original = hand;
    let sorted = sort_by_quantity(&hand);
    assert_eq!(hand, original);
    assert_eq!(
        sorted,
        [
            card(Quantity::Seven, Suit::Diamonds),
            card(Quantity::Eight, Suit::Clubs),
            card(Quantity::Nine, Suit::Hearts),
            card(Quantity::Ten, Suit::Diamonds),
            card(Quantity::Jack, Suit::Diamonds),
        ]
    );
    assert_eq!(check_straight(&hand).unwrap().cards, original.to_vec());
}

#[test]
fn rules_in_precedence_order() {
    assert_eq!(get_rules(), vec![Rule::FlushRoyal, Rule::Duplicates, Rule::High]);
    assert_eq!(Rule::High.check(&no_pair_hand()), check_high(&no_pair_hand()));
}

#[test]
fn combination_rendering() {
    let combination = Combination {
        name: "Pair",
        cards: vec![card(Quantity::Ace, Suit::Diamonds), card(Quantity::Ten, Suit::Spades)],
    };
    assert_eq!(combination.render(), "Pair: A\u{2666} 10\u{2660}");
    let single = Combination { name: "High card", cards: vec![card(Quantity::Queen, Suit::Clubs)] };
    assert_eq!(single.render(), "High card: Q\u{2663}");
    assert_eq!(card(Quantity::Seven, Suit::Hearts).symbol(), "7\u{2665}");
}

#[test]
fn rank_values_and_order() {
    assert_eq!(Quantity::Two.value(), 2);
    assert_eq!(Quantity::Ten.value(), 10);
    assert_eq!(Quantity::Jack.value(), 11);
    assert_eq!(Quantity::Ace.value(), 14);
    assert!(Quantity::Ace > Quantity::King);
    assert!(Quantity::Two < Quantity::Three);
    assert_eq!(Quantity::all().len(), 13);
    assert_eq!(Quantity::all()[12], Quantity::Ace);
    assert_eq!(Suit::all(), vec![Suit::Spades, Suit::Clubs, Suit::Diamonds, Suit::Hearts]);
    assert_eq!(Card::new(), card(Quantity::Ten, Suit::Spades));
}

#[test]
fn fresh_deck_order() {
    let deck = Deck::create();
    assert_eq!(deck.cards.len(), 52);
    assert_eq!(deck.cards[0], card(Quantity::Two, Suit::Spades));
    assert_eq!(deck.cards[13], card(Quantity::Two, Suit::Clubs));
    assert_eq!(deck.cards[51], card(Quantity::Ace, Suit::Hearts));
}

#[test]
fn dealing_from_the_end() {
    let mut deck = Deck::create();
    assert_eq!(deck.deal(), Some(card(Quantity::Ace, Suit::Hearts)));
    let hand = deck.deal_hand().unwrap();
    assert_eq!(hand[0], card(Quantity::King, Suit::Hearts));
    assert_eq!(hand[4], card(Quantity::Nine, Suit::Hearts));
    assert_eq!(deck.cards.len(), 46);
    let mut short = Deck { cards: vec![Card::new(); 4] };
    assert_eq!(short.deal_hand(), None);
    assert_eq!(short.cards.len(), 4);
    let mut empty = Deck { cards: Vec::new() };
    assert_eq!(empty.deal(), None);
}

#[test]
fn shuffle_keeps_the_cards() {
    let fresh = Deck::create();
    let mut deck = Deck::create();
    deck.shuffle();
    assert_eq!(deck.cards.len(), 52);
    assert_ne!(deck.cards, fresh.cards);
    for c in fresh.cards.iter() {
        assert_eq!(deck.cards.iter().filter(|d| *d == c).count(), 1);
    }
}
