//! The thirteen standard card ranks and their canonical order.

use vstd::prelude::*;

verus! {

/// A standard card rank. The canonical order for comparisons is given by
/// [`Value::ordinal`]: Ace is lowest at ordinal 0, King highest at 12,
/// independent of declaration order.
#[derive(Copy, Clone, Hash, PartialEq, Eq, Structural, Debug)]
pub enum Value {
    Two,
    Three,
    Four,
    Five,
    Six,
    Seven,
    Eight,
    Nine,
    Ten,
    Jack,
    Queen,
    King,
    Ace,
}

/// The ordinal of a rank: Ace is 0 (lowest), King is 12 (highest).
pub open spec fn ordinal_of(v: Value) -> int {
    match v {
        Value::Ace => 0,
        Value::Two => 1,
        Value::Three => 2,
        Value::Four => 3,
        Value::Five => 4,
        Value::Six => 5,
        Value::Seven => 6,
        Value::Eight => 7,
        Value::Nine => 8,
        Value::Ten => 9,
        Value::Jack => 10,
        Value::Queen => 11,
        Value::King => 12,
    }
}

/// The inverse of [`ordinal_of`] on 0..=12.
pub open spec fn value_of_ordinal(n: int) -> Value {
    if n == 0 {
        Value::Ace
    } else if n == 1 {
        Value::Two
    } else if n == 2 {
        Value::Three
    } else if n == 3 {
        Value::Four
    } else if n == 4 {
        Value::Five
    } else if n == 5 {
        Value::Six
    } else if n == 6 {
        Value::Seven
    } else if n == 7 {
        Value::Eight
    } else if n == 8 {
        Value::Nine
    } else if n == 9 {
        Value::Ten
    } else if n == 10 {
        Value::Jack
    } else if n == 11 {
        Value::Queen
    } else {
        Value::King
    }
}

/// All thirteen ranks in ascending canonical order: Ace first, King last.
pub open spec fn rank_order() -> Seq<Value> {
    seq![
        Value::Ace,
        Value::Two,
        Value::Three,
        Value::Four,
        Value::Five,
        Value::Six,
        Value::Seven,
        Value::Eight,
        Value::Nine,
        Value::Ten,
        Value::Jack,
        Value::Queen,
        Value::King,
    ]
}

/// The canonical capitalized English name of a rank.
pub open spec fn name_of(v: Value) -> Seq<char> {
    match v {
        Value::Ace => "Ace"@,
        Value::Two => "Two"@,
        Value::Three => "Three"@,
        Value::Four => "Four"@,
        Value::Five => "Five"@,
        Value::Six => "Six"@,
        Value::Seven => "Seven"@,
        Value::Eight => "Eight"@,
        Value::Nine => "Nine"@,
        Value::Ten => "Ten"@,
        Value::Jack => "Jack"@,
        Value::Queen => "Queen"@,
        Value::King => "King"@,
    }
}

impl Value {
    /// All thirteen ranks, in ascending canonical order (Ace, Two, ..., King).
    pub fn iterator() -> (r: Vec<Value>)
        ensures
            r@ == rank_order(),
    {
        let mut v: Vec<Value> = Vec::new();
        v.push(Value::Ace);
        v.push(Value::Two);
        v.push(Value::Three);
        v.push(Value::Four);
        v.push(Value::Five);
        v.push(Value::Six);
        v.push(Value::Seven);
        v.push(Value::Eight);
        v.push(Value::Nine);
        v.push(Value::Ten);
        v.push(Value::Jack);
        v.push(Value::Queen);
        v.push(Value::King);
        proof {
            assert(v@ =~= rank_order());
        }
        v
    }

    /// The rank's position in the canonical order: Ace is 0, King is 12.
    pub fn ordinal(&self) -> (r: u8)
        ensures
            r as int == ordinal_of(*self),
    {
        match *self {
            Value::Ace => 0,
            Value::Two => 1,
            Value::Three => 2,
            Value::Four => 3,
            Value::Five => 4,
            Value::Six => 5,
            Value::Seven => 6,
            Value::Eight => 7,
            Value::Nine => 8,
            Value::Ten => 9,
            Value::Jack => 10,
            Value::Queen => 11,
            Value::King => 12,
        }
    }

    /// The canonical capitalized English name ("Two" ... "Ace").
    pub fn to_str(&self) -> (r: &'static str)
        ensures
            r@ == name_of(*self),
    {
        match *self {
            Value::Ace => "Ace",
            Value::Two => "Two",
            Value::Three => "Three",
            Value::Four => "Four",
            Value::Five => "Five",
            Value::Six => "Six",
            Value::Seven => "Seven",
            Value::Eight => "Eight",
            Value::Nine => "Nine",
            Value::Ten => "Ten",
            Value::Jack => "Jack",
            Value::Queen => "Queen",
            Value::King => "King",
        }
    }
}

/// Law: `ordinal_of` is a bijection between the thirteen ranks and 0..=12,
/// and [`rank_order`] lists all thirteen ranks so that the rank at index `i`
/// has ordinal `i`; in particular its entries are pairwise distinct.
pub proof fn lemma_ordinal_bijective()
    ensures
        forall|v: Value| 0 <= #[trigger] ordinal_of(v) <= 12,
        forall|v1: Value, v2: Value|
            #[trigger] ordinal_of(v1) == #[trigger] ordinal_of(v2) ==> v1 == v2,
        forall|n: int| 0 <= n <= 12 ==> #[trigger] ordinal_of(value_of_ordinal(n)) == n,
        rank_order().len() == 13,
        forall|i: int| 0 <= i < 13 ==> ordinal_of(#[trigger] rank_order()[i]) == i,
        forall|i: int, j: int|
            0 <= i < 13 && 0 <= j < 13 && i != j ==> #[trigger] rank_order()[i]
                != #[trigger] rank_order()[j],
{
    assert forall|i: int, j: int|
        0 <= i < 13 && 0 <= j < 13 && i != j implies #[trigger] rank_order()[i]
        != #[trigger] rank_order()[j] by {
        assert(ordinal_of(rank_order()[i]) == i);
        assert(ordinal_of(rank_order()[j]) == j);
    }
    assert forall|v: Value| 0 <= #[trigger] ordinal_of(v) <= 12 by {
        lemma_value_round_trip(v);
    }
    assert forall|v1: Value, v2: Value|
        #[trigger] ordinal_of(v1) == #[trigger] ordinal_of(v2) implies v1 == v2 by {
        lemma_value_round_trip(v1);
        lemma_value_round_trip(v2);
    }
}

/// Every rank is recovered from its own ordinal, which also lies in 0..=12.
proof fn lemma_value_round_trip(v: Value)
    ensures
        0 <= ordinal_of(v) <= 12,
        value_of_ordinal(ordinal_of(v)) == v,
{
}

} // verus!
