//! Playing cards: suits, ranks and the fixed point value of each rank.

use vstd::prelude::*;
use vstd::string::*;

verus! {

/// The suit of a card. It plays no part in the rules.
#[derive(Clone, Copy, PartialEq, Eq, Debug, Structural)]
pub enum CardSuit {
    Spades,
    Hearts,
    Diamonds,
    Clubs,
}

/// The rank of a card.
#[derive(Clone, Copy, PartialEq, Eq, Debug, Structural)]
pub enum Value {
    Two,
    Three,
    Four,
    Five,
    Six,
    Seven,
    Eight,
    Nine,
    Ten,
    Jack,
    Queen,
    King,
    Ace,
}

/// One card: a suit and a rank.
#[derive(Clone, Copy, PartialEq, Eq, Debug, Structural)]
pub struct Card {
    card_suit: CardSuit,
    value: Value,
}

/// An ordered pile of cards.
#[derive(Debug)]
pub struct Deck {
    pub cards: Vec<Card>,
}

impl Value {
    /// The points a rank counts for: its number for two to ten, ten for a
    /// face card, eleven for an ace.
    pub open spec fn points(self) -> int {
        match self {
            Value::Two => 2,
            Value::Three => 3,
            Value::Four => 4,
            Value::Five => 5,
            Value::Six => 6,
            Value::Seven => 7,
            Value::Eight => 8,
            Value::Nine => 9,
            Value::Ten => 10,
            Value::Jack => 10,
            Value::Queen => 10,
            Value::King => 10,
            Value::Ace => 11,
        }
    }

    /// The English name of a rank, as a sequence of characters.
    pub open spec fn name(self) -> Seq<char> {
        match self {
            Value::Two => "Two"@,
            Value::Three => "Three"@,
            Value::Four => "Four"@,
            Value::Five => "Five"@,
            Value::Six => "Six"@,
            Value::Seven => "Seven"@,
            Value::Eight => "Eight"@,
            Value::Nine => "Nine"@,
            Value::Ten => "Ten"@,
            Value::Jack => "Jack"@,
            Value::Queen => "Queen"@,
            Value::King => "King"@,
            Value::Ace => "Ace"@,
        }
    }

    pub fn value(&self) -> (points: i8)
        ensures
            points == self.points(),
    {
        match self {
            Value::Two => 2,
            Value::Three => 3,
            Value::Four => 4,
            Value::Five => 5,
            Value::Six => 6,
            Value::Seven => 7,
            Value::Eight => 8,
            Value::Nine => 9,
            Value::Ten => 10,
            Value::Jack => 10,
            Value::Queen => 10,
            Value::King => 10,
            Value::Ace => 11,
        }
    }

    /// The name of the rank as text.
    pub fn to_name(&self) -> (text: String)
        ensures
            text@ == self.name(),
    {
        match self {
            Value::Two => String::from_str("Two"),
            Value::Three => String::from_str("Three"),
            Value::Four => String::from_str("Four"),
            Value::Five => String::from_str("Five"),
            Value::Six => String::from_str("Six"),
            Value::Seven => String::from_str("Seven"),
            Value::Eight => String::from_str("Eight"),
            Value::Nine => String::from_str("Nine"),
            Value::Ten => String::from_str("Ten"),
            Value::Jack => String::from_str("Jack"),
            Value::Queen => String::from_str("Queen"),
            Value::King => String::from_str("King"),
            Value::Ace => String::from_str("Ace"),
        }
    }
}

impl CardSuit {
    /// The symbol a suit is printed with.
    pub open spec fn symbol(self) -> Seq<char> {
        match self {
            CardSuit::Spades => "♠"@,
            CardSuit::Hearts => "❤️"@,
            CardSuit::Diamonds => "♦"@,
            CardSuit::Clubs => "♣"@,
        }
    }

    pub fn to_symbol(&self) -> (text: String)
        ensures
            text@ == self.symbol(),
    {
        match self {
            CardSuit::Spades => String::from_str("♠"),
            CardSuit::Hearts => String::from_str("❤️"),
            CardSuit::Diamonds => String::from_str("♦"),
            CardSuit::Clubs => String::from_str("♣"),
        }
    }
}

impl Card {
    /// The suit of the card.
    pub closed spec fn suit(self) -> CardSuit {
        self.card_suit
    }

    /// The rank of the card.
    pub closed spec fn rank(self) -> Value {
        self.value
    }

    /// The points the card counts for before any ace is softened.
    pub open spec fn points(self) -> int {
        self.rank().points()
    }

    /// The text a card is shown as: the symbol of its suit, then the name of
    /// its rank.
    pub open spec fn text(self) -> Seq<char> {
        self.suit().symbol() + self.rank().name()
    }

    /// A card is the pair of its suit and its rank, and nothing more: two
    /// cards of the same suit and rank are the same card.
    pub proof fn lemma_card_is_suit_and_rank(a: Card, b: Card)
        requires
            a.suit() == b.suit(),
            a.rank() == b.rank(),
        ensures
            a == b,
    {
    }

    pub fn is_face(&self) -> (face: bool)
        ensures
            face == (self.rank() == Value::Jack || self.rank() == Value::Queen || self.rank()
                == Value::King || self.rank() == Value::Ace),
    {
        match self.value {
            Value::Jack | Value::Queen | Value::King | Value::Ace => true,
            _ => false,
        }
    }

    pub fn is_ace(&self) -> (ace: bool)
        ensures
            ace == (self.rank() == Value::Ace),
    {
        match self.value {
            Value::Ace => true,
            _ => false,
        }
    }

    pub fn new(suit: CardSuit, value: Value) -> (card: Self)
        ensures
            card.suit() == suit,
            card.rank() == value,
    {
        Self { card_suit: suit, value }
    }

    pub fn get_value(self) -> (points: i8)
        ensures
            points == self.points(),
    {
        self.value.value()
    }

    /// The suit of the card.
    pub fn get_suit(self) -> (suit: CardSuit)
        ensures
            suit == self.suit(),
    {
        self.card_suit
    }

    /// The rank of the card.
    pub fn get_rank(self) -> (rank: Value)
        ensures
            rank == self.rank(),
    {
        self.value
    }

    /// The card as text, such as `♠Two`.
    pub fn to_text(&self) -> (text: String)
        ensures
            text@ == self.text(),
    {
        let symbol = self.card_suit.to_symbol();
        let name = self.value.to_name();
        symbol.concat(name.as_str())
    }
}

} // verus!
