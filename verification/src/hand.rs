//! A `Hand` is zero or more cards held in some game context: an ordered,
//! owned, mutable sequence in which duplicates are permitted. Its view is
//! the mathematical sequence of its cards, in insertion order.

use crate::card::Card;
use crate::card::card_abbrev;
use crate::card::cards_of_rank_spec;
use crate::card::cards_of_suit_spec;
use crate::card::is_card_abbrev;
use crate::card::parse_card;
use crate::card::parse_card_spec;
use crate::card::Suit;
use crate::value::Value;
use vstd::prelude::*;
use vstd::slice::slice_to_vec;
use vstd::string::StringExecFns;

verus! {

/// An ordered, mutable collection of cards, e.g. the cards a player holds.
/// Insertion order is significant and duplicates are allowed.
#[derive(Debug, PartialEq, Eq)]
pub struct Hand {
    pub cards: Vec<Card>,
}

impl View for Hand {
    type V = Seq<Card>;

    open spec fn view(&self) -> Seq<Card> {
        self.cards@
    }
}

/// The result of pushing the cards of `cs`, first to last, onto `s`.
pub open spec fn push_each(s: Seq<Card>, cs: Seq<Card>) -> Seq<Card>
    decreases cs.len(),
{
    if cs.len() == 0 {
        s
    } else {
        push_each(s.push(cs[0]), cs.drop_first())
    }
}

/// The result of removing from `s` the first occurrence of each card of
/// `cs`, in the order of `cs`; a card with no occurrence left removes
/// nothing.
pub open spec fn remove_values(s: Seq<Card>, cs: Seq<Card>) -> Seq<Card>
    decreases cs.len(),
{
    if cs.len() == 0 {
        s
    } else {
        remove_values(s.remove_value(cs[0]), cs.drop_first())
    }
}

/// The number of occurrences of `c` in `s`.
pub open spec fn count_of(s: Seq<Card>, c: Card) -> nat
    decreases s.len(),
{
    if s.len() == 0 {
        0
    } else {
        (if s[0] == c {
            1nat
        } else {
            0nat
        }) + count_of(s.drop_first(), c)
    }
}

/// The rendering of a hand: the cards' abbreviated forms joined by single
/// commas, with no trailing separator; empty for an empty hand.
pub open spec fn hand_str(s: Seq<Card>) -> Seq<char>
    decreases s.len(),
{
    if s.len() == 0 {
        Seq::empty()
    } else if s.len() == 1 {
        card_abbrev(s[0])
    } else {
        hand_str(s.drop_last()) + ","@ + card_abbrev(s.last())
    }
}

impl Clone for Hand {
    /// Produces an independent copy: the cards are element-wise equal and
    /// the two hands share no storage, so they evolve independently.
    fn clone(&self) -> (r: Hand)
        ensures
            r@ == self@,
    {
        Hand { cards: slice_to_vec(self.cards.as_slice()) }
    }
}

impl Hand {
    /// Makes a new empty `Hand`.
    pub fn new() -> (r: Hand)
        ensures
            r@ == Seq::<Card>::empty(),
    {
        Hand { cards: Vec::new() }
    }

    /// Makes a `Hand` holding the same cards as an existing hand, which is
    /// left untouched.
    pub fn from_hand(hand: &Hand) -> (r: Hand)
        ensures
            r@ == hand@,
    {
        Hand::from_cards(hand.cards.as_slice())
    }

    /// Makes a `Hand` holding a copy of the given cards, in their order.
    pub fn from_cards(cards: &[Card]) -> (r: Hand)
        ensures
            r@ == cards@,
    {
        Hand { cards: slice_to_vec(cards) }
    }

    /// Makes a `Hand` by parsing abbreviated card strings ("AS", "2H", ...)
    /// in the given order. A malformed abbreviation is a caller error,
    /// ruled out by the precondition; [`parse_card`] tells well-formed
    /// abbreviations apart from malformed ones.
    pub fn from_strings(card_slice: &[&str]) -> (r: Hand)
        requires
            forall|i: int|
                0 <= i < card_slice@.len() ==> is_card_abbrev((#[trigger] card_slice@[i])@),
        ensures
            r@.len() == card_slice@.len(),
            forall|i: int|
                0 <= i < card_slice@.len() ==> r@[i] == parse_card_spec(
                    (#[trigger] card_slice@[i])@,
                ).unwrap(),
    {
        let n = card_slice.len();
        let mut cards: Vec<Card> = Vec::new();
        let mut i: usize = 0;
        while i < n
            invariant
                n == card_slice@.len(),
                i <= n,
                forall|j: int|
                    0 <= j < n ==> is_card_abbrev((#[trigger] card_slice@[j])@),
                cards@.len() == i,
                forall|j: int|
                    0 <= j < i ==> cards@[j] == parse_card_spec(
                        (#[trigger] card_slice@[j])@,
                    ).unwrap(),
            decreases n - i,
        {
            let s: &str = card_slice[i];
            let card = parse_card(s).unwrap();
            cards.push(card);
            i = i + 1;
        }
        Hand { cards }
    }

    /// Adds one card at the end of the hand.
    pub fn push_card(&mut self, card: Card)
        ensures
            final(self)@ == old(self)@.push(card),
    {
        self.cards.push(card);
    }

    /// Adds zero or more cards at the end of the hand, keeping their
    /// relative order.
    pub fn push_cards(&mut self, cards: &[Card])
        ensures
            final(self)@ == old(self)@ + cards@,
    {
        let n = cards.len();
        let mut i: usize = 0;
        while i < n
            invariant
                n == cards@.len(),
                i <= n,
                self@ == old(self)@ + cards@.take(i as int),
            decreases n - i,
        {
            let c = cards[i];
            self.cards.push(c);
            proof {
                assert(old(self)@ + cards@.take(i + 1) =~= (old(self)@ + cards@.take(
                    i as int,
                )).push(cards@[i as int]));
            }
            i = i + 1;
        }
        proof {
            assert(old(self)@ + cards@.take(n as int) =~= old(self)@ + cards@);
        }
    }

    /// Adds all cards of another hand, in that hand's order, leaving the
    /// other hand untouched.
    pub fn push_hand(&mut self, other: &Hand)
        ensures
            final(self)@ == old(self)@ + other@,
    {
        self.push_cards(other.cards.as_slice());
    }

    /// The number of cards currently held.
    pub fn len(&self) -> (r: usize)
        ensures
            r == self@.len(),
    {
        self.cards.len()
    }

    /// The cards currently held, in insertion order.
    pub fn cards(&self) -> (r: &[Card])
        ensures
            r@ == self@,
    {
        self.cards.as_slice()
    }

    /// Removes every card: the hand becomes empty but remains usable.
    pub fn clear(&mut self)
        ensures
            final(self)@ == Seq::<Card>::empty(),
    {
        self.cards.clear();
    }

    /// Removes the card at the given position and returns it; the cards
    /// after it move up by one. An out-of-range index is a caller error,
    /// ruled out by the precondition.
    pub fn remove(&mut self, index: usize) -> (r: Card)
        requires
            index < old(self)@.len(),
        ensures
            r == old(self)@[index as int],
            final(self)@ == old(self)@.remove(index as int),
    {
        self.cards.remove(index)
    }

    /// Removes the first card equal to the given card, scanning from the
    /// front; a hand without a match is left unchanged.
    pub fn remove_card(&mut self, card: Card)
        ensures
            final(self)@ == old(self)@.remove_value(card),
    {
        match index_of_card(&self.cards, card) {
            Some(i) => {
                proof {
                    self.cards@.index_of_first_ensures(card);
                }
                self.cards.remove(i);
            },
            None => {
                proof {
                    self.cards@.index_of_first_ensures(card);
                }
            },
        }
    }

    /// Removes the first occurrence of each given card in turn; each
    /// element removes at most one card, and one with no occurrence left
    /// removes nothing.
    pub fn remove_cards(&mut self, cards: &[Card])
        ensures
            final(self)@ == remove_values(old(self)@, cards@),
    {
        let n = cards.len();
        let mut i: usize = 0;
        while i < n
            invariant
                n == cards@.len(),
                i <= n,
                self@ == remove_values(old(self)@, cards@.take(i as int)),
            decreases n - i,
        {
            let c = cards[i];
            self.remove_card(c);
            proof {
                assert(cards@.take(i + 1) =~= cards@.take(i as int).push(cards@[i as int]));
                lemma_remove_values_push(old(self)@, cards@.take(i as int), cards@[i as int]);
            }
            i = i + 1;
        }
        proof {
            assert(cards@.take(n as int) =~= cards@);
        }
    }

    /// Copies out every card of the given rank, keeping their relative
    /// order; the hand itself is not changed.
    pub fn cards_of_rank(&self, rank: Value) -> (r: Vec<Card>)
        ensures
            r@ == cards_of_rank_spec(self@, rank),
    {
        crate::card::cards_of_rank(self.cards.as_slice(), rank)
    }

    /// Copies out every card of the given suit, keeping their relative
    /// order; the hand itself is not changed.
    pub fn cards_of_suit(&self, suit: Suit) -> (r: Vec<Card>)
        ensures
            r@ == cards_of_suit_spec(self@, suit),
    {
        crate::card::cards_of_suit(self.cards.as_slice(), suit)
    }

    /// Renders the hand as the comma-separated abbreviated cards, in hand
    /// order, with no trailing separator and no brackets; an empty hand
    /// renders as the empty string.
    pub fn to_str(&self) -> (r: String)
        ensures
            r@ == hand_str(self@),
    {
        let mut result = String::new();
        let n = self.cards.len();
        let mut i: usize = 0;
        while i < n
            invariant
                n == self@.len(),
                i <= n,
                result@ == hand_str(self@.take(i as int)),
            decreases n - i,
        {
            if i > 0 {
                result.append(",");
            }
            let c = self.cards[i];
            let abbrev = c.to_str();
            result.append(abbrev.as_str());
            proof {
                let pre = self@.take(i as int);
                let post = self@.take(i + 1);
                assert(post.drop_last() =~= pre);
                assert(post.last() == self@[i as int]);
                if i == 0 {
                    assert(Seq::<char>::empty() + card_abbrev(self@[0]) =~= card_abbrev(self@[0]));
                }
            }
            i = i + 1;
        }
        proof {
            assert(self@.take(n as int) =~= self@);
        }
        result
    }
}

/// The index of the first card of `cards` equal to `card`, if any.
fn index_of_card(cards: &Vec<Card>, card: Card) -> (r: Option<usize>)
    ensures
        match r {
            Some(i) => cards@.index_of_first(card) == Some(i as int),
            None => cards@.index_of_first(card) is None,
        },
{
    let n = cards.len();
    let mut i: usize = 0;
    while i < n
        invariant
            n == cards@.len(),
            i <= n,
            forall|j: int| 0 <= j < i ==> cards@[j] != card,
        decreases n - i,
    {
        if cards[i] == card {
            proof {
                assert(cards@.contains(card)) by {
                    assert(cards@[i as int] == card);
                }
                cards@.index_of_first_ensures(card);
            }
            return Some(i);
        }
        i = i + 1;
    }
    proof {
        cards@.index_of_first_ensures(card);
        if cards@.contains(card) {
            let j = choose|j: int| 0 <= j < cards@.len() && cards@[j] == card;
            assert(cards@[j] != card);
        }
    }
    None
}

/// Removing the cards of `cs` and then one more card `c` is the same as
/// removing the cards of `cs.push(c)`.
proof fn lemma_remove_values_push(s: Seq<Card>, cs: Seq<Card>, c: Card)
    ensures
        remove_values(s, cs.push(c)) == remove_values(s, cs).remove_value(c),
    decreases cs.len(),
{
    reveal_with_fuel(remove_values, 3);
    if cs.len() == 0 {
        assert(cs.push(c)[0] == c);
        assert(cs.push(c).drop_first() =~= Seq::<Card>::empty());
    } else {
        assert(cs.push(c)[0] == cs[0]);
        assert(cs.push(c).drop_first() =~= cs.drop_first().push(c));
        lemma_remove_values_push(s.remove_value(cs[0]), cs.drop_first(), c);
    }
}

/// Law: pushing cards one at a time, first to last, appends exactly those
/// cards in their order; in particular a hand built by `n` pushes onto an
/// empty hand holds `n` cards, in insertion order.
pub proof fn lemma_push_each_appends(s: Seq<Card>, cs: Seq<Card>)
    ensures
        push_each(s, cs) == s + cs,
        push_each(s, cs).len() == s.len() + cs.len(),
    decreases cs.len(),
{
    if cs.len() == 0 {
        assert(s + cs =~= s);
    } else {
        lemma_push_each_appends(s.push(cs[0]), cs.drop_first());
        assert(s.push(cs[0]) + cs.drop_first() =~= s + cs);
    }
}

/// A card occurs in a sequence exactly when its occurrence count is
/// positive.
pub proof fn lemma_count_contains(s: Seq<Card>, c: Card)
    ensures
        count_of(s, c) > 0 <==> s.contains(c),
    decreases s.len(),
{
    if s.len() > 0 {
        lemma_count_contains(s.drop_first(), c);
        if s[0] == c {
            assert(s.contains(c));
        }
        if s.drop_first().contains(c) {
            let j = choose|j: int|
                0 <= j < s.drop_first().len() && s.drop_first()[j] == c;
            assert(s[j + 1] == c);
            assert(s.contains(c));
        }
        if s.contains(c) && s[0] != c {
            let j = choose|j: int| 0 <= j < s.len() && s[j] == c;
            assert(s.drop_first()[j - 1] == c);
            assert(s.drop_first().contains(c));
        }
    }
}

/// Removing the card found at index `i` lowers its occurrence count by one.
proof fn lemma_count_remove_at(s: Seq<Card>, c: Card, i: int)
    requires
        0 <= i < s.len(),
        s[i] == c,
    ensures
        count_of(s.remove(i), c) + 1 == count_of(s, c),
    decreases s.len(),
{
    if i == 0 {
        assert(s.remove(0) =~= s.drop_first());
    } else {
        assert(s.remove(i)[0] == s[0]);
        assert(s.remove(i).drop_first() =~= s.drop_first().remove(i - 1));
        lemma_count_remove_at(s.drop_first(), c, i - 1);
    }
}

/// Law: removing a card that occurs exactly once shortens the hand by
/// exactly one and the hand no longer contains that card.
pub proof fn lemma_remove_value_single(s: Seq<Card>, c: Card)
    requires
        count_of(s, c) == 1,
    ensures
        s.remove_value(c).len() == s.len() - 1,
        !s.remove_value(c).contains(c),
        count_of(s.remove_value(c), c) == 0,
{
    lemma_count_contains(s, c);
    s.index_of_first_ensures(c);
    let i = s.index_of_first(c).unwrap();
    lemma_count_remove_at(s, c, i);
    lemma_count_contains(s.remove_value(c), c);
}

/// Law: removing a card that the hand does not contain changes nothing.
pub proof fn lemma_remove_value_absent(s: Seq<Card>, c: Card)
    requires
        !s.contains(c),
    ensures
        s.remove_value(c) == s,
{
    s.index_of_first_ensures(c);
}

/// Law: removing the same card twice from a hand that holds it exactly
/// once removes it exactly once; the second removal is a no-op, so the
/// length drops by one, not two.
pub proof fn lemma_remove_twice_single(s: Seq<Card>, c: Card)
    requires
        count_of(s, c) == 1,
    ensures
        remove_values(s, seq![c, c]) == s.remove_value(c),
        remove_values(s, seq![c, c]).len() == s.len() - 1,
{
    reveal_with_fuel(remove_values, 4);
    lemma_remove_value_single(s, c);
    lemma_count_contains(s.remove_value(c), c);
    lemma_remove_value_absent(s.remove_value(c), c);
    let two: Seq<Card> = seq![c, c];
    assert(two.drop_first() =~= seq![c]);
    assert(seq![c].drop_first() =~= Seq::<Card>::empty());
    assert(remove_values(s, two) == s.remove_value(c).remove_value(c));
}

} // verus!
