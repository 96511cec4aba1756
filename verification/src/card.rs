//! Cards: a rank paired with a suit, the abbreviated textual form
//! (rank letter followed by suit letter, as in "AS" or "2H"), its parser,
//! and rank/suit filters over card sequences.

use crate::value::Value;
use vstd::prelude::*;
use vstd::string::StrSliceExecFns;
use vstd::string::StringExecFns;

verus! {

/// One of the four French suits.
#[derive(Copy, Clone, Hash, PartialEq, Eq, Structural, Debug)]
pub enum Suit {
    Spades,
    Hearts,
    Diamonds,
    Clubs,
}

/// A playing card: a rank (`Value`) together with a `Suit`.
/// Equality is by value: two cards are equal when rank and suit agree.
#[derive(Copy, Clone, Hash, PartialEq, Eq, Structural, Debug)]
pub struct Card {
    pub value: Value,
    pub suit: Suit,
}

/// The one-letter abbreviation of a rank: "A", "2" ... "9", "T", "J", "Q", "K".
pub open spec fn rank_abbrev(v: Value) -> Seq<char> {
    match v {
        Value::Ace => "A"@,
        Value::Two => "2"@,
        Value::Three => "3"@,
        Value::Four => "4"@,
        Value::Five => "5"@,
        Value::Six => "6"@,
        Value::Seven => "7"@,
        Value::Eight => "8"@,
        Value::Nine => "9"@,
        Value::Ten => "T"@,
        Value::Jack => "J"@,
        Value::Queen => "Q"@,
        Value::King => "K"@,
    }
}

/// The one-letter abbreviation of a suit: "S", "H", "D" or "C".
pub open spec fn suit_abbrev(s: Suit) -> Seq<char> {
    match s {
        Suit::Spades => "S"@,
        Suit::Hearts => "H"@,
        Suit::Diamonds => "D"@,
        Suit::Clubs => "C"@,
    }
}

/// The abbreviated form of a card: its rank letter followed by its suit
/// letter, e.g. "AS" for the ace of spades.
pub open spec fn card_abbrev(c: Card) -> Seq<char> {
    rank_abbrev(c.value) + suit_abbrev(c.suit)
}

/// The rank denoted by an abbreviation character, if any.
pub open spec fn rank_of_char(ch: char) -> Option<Value> {
    if ch == 'A' {
        Some(Value::Ace)
    } else if ch == '2' {
        Some(Value::Two)
    } else if ch == '3' {
        Some(Value::Three)
    } else if ch == '4' {
        Some(Value::Four)
    } else if ch == '5' {
        Some(Value::Five)
    } else if ch == '6' {
        Some(Value::Six)
    } else if ch == '7' {
        Some(Value::Seven)
    } else if ch == '8' {
        Some(Value::Eight)
    } else if ch == '9' {
        Some(Value::Nine)
    } else if ch == 'T' {
        Some(Value::Ten)
    } else if ch == 'J' {
        Some(Value::Jack)
    } else if ch == 'Q' {
        Some(Value::Queen)
    } else if ch == 'K' {
        Some(Value::King)
    } else {
        None
    }
}

/// The suit denoted by an abbreviation character, if any.
pub open spec fn suit_of_char(ch: char) -> Option<Suit> {
    if ch == 'S' {
        Some(Suit::Spades)
    } else if ch == 'H' {
        Some(Suit::Hearts)
    } else if ch == 'D' {
        Some(Suit::Diamonds)
    } else if ch == 'C' {
        Some(Suit::Clubs)
    } else {
        None
    }
}

/// The card denoted by an abbreviated string: exactly two characters, a
/// valid rank letter followed by a valid suit letter; `None` otherwise.
pub open spec fn parse_card_spec(s: Seq<char>) -> Option<Card> {
    if s.len() == 2 && rank_of_char(s[0]) is Some && suit_of_char(s[1]) is Some {
        Some(Card { value: rank_of_char(s[0]).unwrap(), suit: suit_of_char(s[1]).unwrap() })
    } else {
        None
    }
}

/// Whether an abbreviated string denotes a card.
pub open spec fn is_card_abbrev(s: Seq<char>) -> bool {
    parse_card_spec(s) is Some
}

fn rank_from_char(ch: char) -> (r: Option<Value>)
    ensures
        r == rank_of_char(ch),
{
    match ch {
        'A' => Some(Value::Ace),
        '2' => Some(Value::Two),
        '3' => Some(Value::Three),
        '4' => Some(Value::Four),
        '5' => Some(Value::Five),
        '6' => Some(Value::Six),
        '7' => Some(Value::Seven),
        '8' => Some(Value::Eight),
        '9' => Some(Value::Nine),
        'T' => Some(Value::Ten),
        'J' => Some(Value::Jack),
        'Q' => Some(Value::Queen),
        'K' => Some(Value::King),
        _ => None,
    }
}

fn suit_from_char(ch: char) -> (r: Option<Suit>)
    ensures
        r == suit_of_char(ch),
{
    match ch {
        'S' => Some(Suit::Spades),
        'H' => Some(Suit::Hearts),
        'D' => Some(Suit::Diamonds),
        'C' => Some(Suit::Clubs),
        _ => None,
    }
}

/// Parses an abbreviated card string such as "AS" or "2H" into a `Card`.
/// Returns `Some` exactly on well-formed abbreviations: two characters,
/// a rank letter (A, 2-9, T, J, Q, K) then a suit letter (S, H, D, C).
pub fn parse_card(s: &str) -> (r: Option<Card>)
    ensures
        r == parse_card_spec(s@),
{
    if s.unicode_len() != 2 {
        return None;
    }
    let c0 = s.get_char(0);
    let c1 = s.get_char(1);
    match (rank_from_char(c0), suit_from_char(c1)) {
        (Some(value), Some(suit)) => Some(Card { value, suit }),
        _ => None,
    }
}

impl Card {
    /// The abbreviated textual form of the card, e.g. "AS" or "2H".
    pub fn to_str(&self) -> (r: String)
        ensures
            r@ == card_abbrev(*self),
    {
        let rank: &str = match self.value {
            Value::Ace => "A",
            Value::Two => "2",
            Value::Three => "3",
            Value::Four => "4",
            Value::Five => "5",
            Value::Six => "6",
            Value::Seven => "7",
            Value::Eight => "8",
            Value::Nine => "9",
            Value::Ten => "T",
            Value::Jack => "J",
            Value::Queen => "Q",
            Value::King => "K",
        };
        let suit: &str = match self.suit {
            Suit::Spades => "S",
            Suit::Hearts => "H",
            Suit::Diamonds => "D",
            Suit::Clubs => "C",
        };
        String::from_str(rank).concat(suit)
    }
}

/// The subsequence of `s` whose cards have the given rank, in their
/// original relative order.
pub open spec fn cards_of_rank_spec(s: Seq<Card>, rank: Value) -> Seq<Card>
    decreases s.len(),
{
    if s.len() == 0 {
        Seq::empty()
    } else if s.last().value == rank {
        cards_of_rank_spec(s.drop_last(), rank) + seq![s.last()]
    } else {
        cards_of_rank_spec(s.drop_last(), rank)
    }
}

/// The subsequence of `s` whose cards have the given suit, in their
/// original relative order.
pub open spec fn cards_of_suit_spec(s: Seq<Card>, suit: Suit) -> Seq<Card>
    decreases s.len(),
{
    if s.len() == 0 {
        Seq::empty()
    } else if s.last().suit == suit {
        cards_of_suit_spec(s.drop_last(), suit) + seq![s.last()]
    } else {
        cards_of_suit_spec(s.drop_last(), suit)
    }
}

/// Copies out of `cards` every card of the given rank, keeping their
/// relative order.
pub fn cards_of_rank(cards: &[Card], rank: Value) -> (r: Vec<Card>)
    ensures
        r@ == cards_of_rank_spec(cards@, rank),
{
    let n = cards.len();
    let mut r: Vec<Card> = Vec::new();
    let mut i: usize = 0;
    while i < n
        invariant
            n == cards@.len(),
            i <= n,
            r@ == cards_of_rank_spec(cards@.take(i as int), rank),
        decreases n - i,
    {
        let c = cards[i];
        if c.value == rank {
            r.push(c);
        }
        proof {
            assert(cards@.take(i + 1).drop_last() =~= cards@.take(i as int));
            assert(cards@.take(i + 1).last() == cards@[i as int]);
        }
        i = i + 1;
    }
    proof {
        assert(cards@.take(n as int) =~= cards@);
    }
    r
}

/// Copies out of `cards` every card of the given suit, keeping their
/// relative order.
pub fn cards_of_suit(cards: &[Card], suit: Suit) -> (r: Vec<Card>)
    ensures
        r@ == cards_of_suit_spec(cards@, suit),
{
    let n = cards.len();
    let mut r: Vec<Card> = Vec::new();
    let mut i: usize = 0;
    while i < n
        invariant
            n == cards@.len(),
            i <= n,
            r@ == cards_of_suit_spec(cards@.take(i as int), suit),
        decreases n - i,
    {
        let c = cards[i];
        if c.suit == suit {
            r.push(c);
        }
        proof {
            assert(cards@.take(i + 1).drop_last() =~= cards@.take(i as int));
            assert(cards@.take(i + 1).last() == cards@[i as int]);
        }
        i = i + 1;
    }
    proof {
        assert(cards@.take(n as int) =~= cards@);
    }
    r
}

} // verus!
