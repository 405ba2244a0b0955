//! The card model: identity, numeric value, suit and point value of a card.

use vstd::prelude::*;

verus! {

/// The four suits of the numeric ranks.
#[derive(Debug, Clone, Copy, PartialEq, Eq, Structural)]
pub enum Color {
    Black,
    Blue,
    Red,
    Green,
}

/// The Mahjong's payload: the rank its holder asks the others to play.
#[derive(Debug)]
pub struct Mahjong {
    pub wish: Option<Cards>,
}

/// The Phoenix's payload: the value it takes while it lies in a combination.
#[derive(Debug)]
pub struct Phoenix {
    pub value: Option<u8>,
}

/// A card of the 56-card deck.
#[derive(Debug)]
pub enum Cards {
    Dog,
    Mahjong(Box<Mahjong>),
    Two(Color),
    Three(Color),
    Four(Color),
    Five(Color),
    Six(Color),
    Seven(Color),
    Eight(Color),
    Nine(Color),
    Ten(Color),
    Jack(Color),
    Queen(Color),
    King(Color),
    Ace(Color),
    Phoenix(Box<Phoenix>),
    Dragon,
}

impl Color {
    /// Position of the suit within a rank: 0 to 3.
    pub open spec fn index(self) -> int {
        match self {
            Color::Black => 0,
            Color::Blue => 1,
            Color::Red => 2,
            Color::Green => 3,
        }
    }

    pub fn ordinal(&self) -> (r: u8)
        ensures
            r == self.index(),
    {
        match self {
            Color::Black => 0,
            Color::Blue => 1,
            Color::Red => 2,
            Color::Green => 3,
        }
    }
}

impl Cards {
    /// The numeric rank of a card: 1 for the Mahjong, 2 to 14 for Two to Ace,
    /// the assigned value for a Phoenix that has one, none for the others.
    pub open spec fn number(self) -> Option<u8> {
        match self {
            Cards::Mahjong(_) => Some(1u8),
            Cards::Two(_) => Some(2u8),
            Cards::Three(_) => Some(3u8),
            Cards::Four(_) => Some(4u8),
            Cards::Five(_) => Some(5u8),
            Cards::Six(_) => Some(6u8),
            Cards::Seven(_) => Some(7u8),
            Cards::Eight(_) => Some(8u8),
            Cards::Nine(_) => Some(9u8),
            Cards::Ten(_) => Some(10u8),
            Cards::Jack(_) => Some(11u8),
            Cards::Queen(_) => Some(12u8),
            Cards::King(_) => Some(13u8),
            Cards::Ace(_) => Some(14u8),
            Cards::Phoenix(p) => p.value,
            _ => None,
        }
    }

    /// The suit of a numeric rank; the four special cards have none.
    pub open spec fn color(self) -> Option<Color> {
        match self {
            Cards::Two(c) => Some(c),
            Cards::Three(c) => Some(c),
            Cards::Four(c) => Some(c),
            Cards::Five(c) => Some(c),
            Cards::Six(c) => Some(c),
            Cards::Seven(c) => Some(c),
            Cards::Eight(c) => Some(c),
            Cards::Nine(c) => Some(c),
            Cards::Ten(c) => Some(c),
            Cards::Jack(c) => Some(c),
            Cards::Queen(c) => Some(c),
            Cards::King(c) => Some(c),
            Cards::Ace(c) => Some(c),
            _ => None,
        }
    }

    /// What a card is worth to the side that captures it.
    pub open spec fn points(self) -> int {
        match self {
            Cards::Five(_) => 5,
            Cards::Ten(_) => 10,
            Cards::King(_) => 10,
            Cards::Dragon => 25,
            Cards::Phoenix(_) => -25,
            _ => 0,
        }
    }

    /// The place of the physical card in the deck, 0 to 55. It ignores what a
    /// Phoenix has been assigned and what a Mahjong wishes for: the numeric
    /// ranks take 0 to 51, four to a rank in suit order, then come the Dog,
    /// the Mahjong, the Phoenix and the Dragon.
    pub open spec fn identity(self) -> int {
        match self {
            Cards::Dog => 52,
            Cards::Mahjong(_) => 53,
            Cards::Phoenix(_) => 54,
            Cards::Dragon => 55,
            _ => (self.number().unwrap() - 2) * 4 + self.color().unwrap().index(),
        }
    }

    /// The Phoenix and the Mahjong stand in for other ranks.
    pub open spec fn wildcard(self) -> bool {
        self is Phoenix || self is Mahjong
    }

    /// The card with its temporary mark wiped: a Phoenix without a value, a
    /// Mahjong without a wish, any other card as it is.
    pub open spec fn plain(self) -> Cards {
        match self {
            Cards::Phoenix(_) => Cards::Phoenix(Box::new(Phoenix { value: None })),
            Cards::Mahjong(_) => Cards::Mahjong(Box::new(Mahjong { wish: None })),
            _ => self,
        }
    }

    pub fn get_card_number(&self) -> (r: Option<u8>)
        ensures
            r == self.number(),
    {
        match self {
            Cards::Mahjong(_) => Some(1),
            Cards::Two(_) => Some(2),
            Cards::Three(_) => Some(3),
            Cards::Four(_) => Some(4),
            Cards::Five(_) => Some(5),
            Cards::Six(_) => Some(6),
            Cards::Seven(_) => Some(7),
            Cards::Eight(_) => Some(8),
            Cards::Nine(_) => Some(9),
            Cards::Ten(_) => Some(10),
            Cards::Jack(_) => Some(11),
            Cards::Queen(_) => Some(12),
            Cards::King(_) => Some(13),
            Cards::Ace(_) => Some(14),
            Cards::Phoenix(p) => p.value,
            _ => None,
        }
    }

    pub fn get_color(&self) -> (r: Option<Color>)
        ensures
            r == self.color(),
    {
        match self {
            Cards::Two(c) => Some(*c),
            Cards::Three(c) => Some(*c),
            Cards::Four(c) => Some(*c),
            Cards::Five(c) => Some(*c),
            Cards::Six(c) => Some(*c),
            Cards::Seven(c) => Some(*c),
            Cards::Eight(c) => Some(*c),
            Cards::Nine(c) => Some(*c),
            Cards::Ten(c) => Some(*c),
            Cards::Jack(c) => Some(*c),
            Cards::Queen(c) => Some(*c),
            Cards::King(c) => Some(*c),
            Cards::Ace(c) => Some(*c),
            _ => None,
        }
    }

    pub fn get_points(&self) -> (r: i8)
        ensures
            r == self.points(),
    {
        match self {
            Cards::Five(_) => 5,
            Cards::Ten(_) => 10,
            Cards::King(_) => 10,
            Cards::Dragon => 25,
            Cards::Phoenix(_) => -25,
            _ => 0,
        }
    }

    pub fn is_wildcard(&self) -> (r: bool)
        ensures
            r == self.wildcard(),
    {
        match self {
            Cards::Phoenix(_) => true,
            Cards::Mahjong(_) => true,
            _ => false,
        }
    }

    /// A copy of the card with its temporary mark wiped.
    pub fn cleared(&self) -> (r: Cards)
        ensures
            r == self.plain(),
            r.identity() == self.identity(),
            r.points() == self.points(),
    {
        match self {
            Cards::Phoenix(_) => Cards::Phoenix(Box::new(Phoenix { value: None })),
            Cards::Mahjong(_) => Cards::Mahjong(Box::new(Mahjong { wish: None })),
            _ => self.clone(),
        }
    }

    /// The deck position of the card, as `identity` defines it.
    pub fn id(&self) -> (r: u8)
        ensures
            r == self.identity(),
            r < 56,
    {
        match self {
            Cards::Dog => 52,
            Cards::Mahjong(_) => 53,
            Cards::Phoenix(_) => 54,
            Cards::Dragon => 55,
            _ => {
                let n: u8 = self.get_card_number().unwrap();
                let c: u8 = self.get_color().unwrap().ordinal();
                (n - 2) * 4 + c
            },
        }
    }
}

impl Clone for Phoenix {
    fn clone(&self) -> (s: Self)
        ensures
            s == *self,
    {
        Phoenix { value: self.value }
    }
}

impl Clone for Cards {
    fn clone(&self) -> (s: Self)
        ensures
            s == *self,
        decreases self,
    {
        match self {
            Cards::Dog => Cards::Dog,
            Cards::Mahjong(m) => {
                let wish = match &m.wish {
                    Some(w) => Some(w.clone()),
                    None => None,
                };
                Cards::Mahjong(Box::new(Mahjong { wish }))
            },
            Cards::Two(c) => Cards::Two(*c),
            Cards::Three(c) => Cards::Three(*c),
            Cards::Four(c) => Cards::Four(*c),
            Cards::Five(c) => Cards::Five(*c),
            Cards::Six(c) => Cards::Six(*c),
            Cards::Seven(c) => Cards::Seven(*c),
            Cards::Eight(c) => Cards::Eight(*c),
            Cards::Nine(c) => Cards::Nine(*c),
            Cards::Ten(c) => Cards::Ten(*c),
            Cards::Jack(c) => Cards::Jack(*c),
            Cards::Queen(c) => Cards::Queen(*c),
            Cards::King(c) => Cards::King(*c),
            Cards::Ace(c) => Cards::Ace(*c),
            Cards::Phoenix(p) => Cards::Phoenix(Box::new(Phoenix { value: p.value })),
            Cards::Dragon => Cards::Dragon,
        }
    }
}

impl Clone for Mahjong {
    fn clone(&self) -> (s: Self)
        ensures
            s == *self,
    {
        let wish = match &self.wish {
            Some(w) => Some(w.clone()),
            None => None,
        };
        Mahjong { wish }
    }
}

/// Two Phoenix payloads are the same card whatever value either has taken.
impl PartialEq for Phoenix {
    fn eq(&self, other: &Self) -> (r: bool) {
        true
    }
}

impl vstd::std_specs::cmp::PartialEqSpecImpl for Phoenix {
    open spec fn obeys_eq_spec() -> bool {
        true
    }

    open spec fn eq_spec(&self, other: &Self) -> bool {
        true
    }
}

/// Cards are equal when they are the same physical card: same rank and suit,
/// whatever a Phoenix has been assigned and whatever a Mahjong wishes for.
impl PartialEq for Cards {
    fn eq(&self, other: &Self) -> (r: bool) {
        self.id() == other.id()
    }
}

impl vstd::std_specs::cmp::PartialEqSpecImpl for Cards {
    open spec fn obeys_eq_spec() -> bool {
        true
    }

    open spec fn eq_spec(&self, other: &Self) -> bool {
        self.identity() == other.identity()
    }
}

impl Eq for Cards {

}

} // verus!
