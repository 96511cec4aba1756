use cards::card::{cards_of_rank, cards_of_suit, parse_card, Card, Suit};
use cards::hand::Hand;
use cards::value::Value;

fn card(value: Value, suit: Suit) -> Card {
    Card { value, suit }
}

const ACE_OF_SPADES: Card = Card { value: Value::Ace, suit: Suit::Spades };
const TWO_OF_HEARTS: Card = Card { value: Value::Two, suit: Suit::Hearts };
const KING_OF_HEARTS: Card = Card { value: Value::King, suit: Suit::Hearts };
const ACE_OF_CLUBS: Card = Card { value: Value::Ace, suit: Suit::Clubs };

#[test]
fn pushes_keep_count_and_order() {
    let mut h = Hand::new();
    assert_eq!(h.len(), 0);
    let cs = vec![ACE_OF_SPADES, KING_OF_HEARTS, TWO_OF_HEARTS, ACE_OF_CLUBS];
    for (i, c) in cs.iter().enumerate() {
        h.push_card(*c);
        assert_eq!(h.len(), i + 1);
    }
    assert_eq!(h.cards(), cs.as_slice());
}

#[test]
fn push_cards_appends_in_order() {
    let mut h = Hand::new();
    h.push_card(ACE_OF_SPADES);
    h.push_cards(&[TWO_OF_HEARTS, KING_OF_HEARTS]);
    assert_eq!(h.cards(), &[ACE_OF_SPADES, TWO_OF_HEARTS, KING_OF_HEARTS]);
}

#[test]
fn push_hand_leaves_other_untouched() {
    let mut a = Hand::from_cards(&[ACE_OF_SPADES]);
    let b = Hand::from_cards(&[TWO_OF_HEARTS, ACE_OF_CLUBS]);
    a.push_hand(&b);
    assert_eq!(a.cards(), &[ACE_OF_SPADES, TWO_OF_HEARTS, ACE_OF_CLUBS]);
    assert_eq!(b.cards(), &[TWO_OF_HEARTS, ACE_OF_CLUBS]);
}

#[test]
fn clear_empties_any_hand() {
    let mut h = Hand::from_cards(&[ACE_OF_SPADES, TWO_OF_HEARTS, KING_OF_HEARTS]);
    h.clear();
    assert_eq!(h.len(), 0);
    let mut empty = Hand::new();
    empty.clear();
    assert_eq!(empty.len(), 0);
    h.push_card(ACE_OF_CLUBS);
    assert_eq!(h.cards(), &[ACE_OF_CLUBS]);
}

#[test]
fn remove_returns_card_and_shortens_by_one() {
    let mut h = Hand::from_cards(&[ACE_OF_SPADES, TWO_OF_HEARTS, KING_OF_HEARTS]);
    let c = h.remove(1);
    assert_eq!(c, TWO_OF_HEARTS);
    assert_eq!(h.len(), 2);
    assert_eq!(h.cards(), &[ACE_OF_SPADES, KING_OF_HEARTS]);
}

#[test]
fn remove_card_takes_first_match_only() {
    let mut h = Hand::from_cards(&[KING_OF_HEARTS, ACE_OF_SPADES, KING_OF_HEARTS]);
    h.remove_card(KING_OF_HEARTS);
    assert_eq!(h.cards(), &[ACE_OF_SPADES, KING_OF_HEARTS]);
}

#[test]
fn remove_card_present_once_removes_it() {
    let mut h = Hand::from_cards(&[ACE_OF_SPADES, TWO_OF_HEARTS]);
    h.remove_card(TWO_OF_HEARTS);
    assert_eq!(h.len(), 1);
    assert!(!h.cards().contains(&TWO_OF_HEARTS));
}

#[test]
fn remove_card_absent_is_a_no_op() {
    let mut h = Hand::from_cards(&[ACE_OF_SPADES, TWO_OF_HEARTS]);
    h.remove_card(KING_OF_HEARTS);
    assert_eq!(h.cards(), &[ACE_OF_SPADES, TWO_OF_HEARTS]);
}

#[test]
fn remove_cards_removes_one_per_element() {
    let mut h = Hand::from_cards(&[ACE_OF_SPADES, TWO_OF_HEARTS, KING_OF_HEARTS]);
    h.remove_cards(&[TWO_OF_HEARTS, TWO_OF_HEARTS]);
    assert_eq!(h.len(), 2);
    assert_eq!(h.cards(), &[ACE_OF_SPADES, KING_OF_HEARTS]);
}

#[test]
fn clone_is_independent() {
    let a = Hand::from_cards(&[ACE_OF_SPADES, TWO_OF_HEARTS]);
    let mut b = a.clone();
    assert_eq!(a, b);
    b.push_card(KING_OF_HEARTS);
    assert_eq!(a.cards(), &[ACE_OF_SPADES, TWO_OF_HEARTS]);
    assert_eq!(b.cards(), &[ACE_OF_SPADES, TWO_OF_HEARTS, KING_OF_HEARTS]);
}

#[test]
fn from_hand_copies_the_cards() {
    let a = Hand::from_cards(&[ACE_OF_SPADES, ACE_OF_CLUBS]);
    let b = Hand::from_hand(&a);
    assert_eq!(a, b);
    assert_eq!(a.cards(), &[ACE_OF_SPADES, ACE_OF_CLUBS]);
}

#[test]
fn cards_of_rank_keeps_order_and_hand() {
    let h = Hand::from_cards(&[ACE_OF_SPADES, KING_OF_HEARTS, ACE_OF_CLUBS]);
    let aces = h.cards_of_rank(Value::Ace);
    assert_eq!(aces, vec![ACE_OF_SPADES, ACE_OF_CLUBS]);
    assert_eq!(h.cards(), &[ACE_OF_SPADES, KING_OF_HEARTS, ACE_OF_CLUBS]);
    assert_eq!(h.cards_of_rank(Value::Queen), Vec::<Card>::new());
}

#[test]
fn cards_of_suit_keeps_order_and_hand() {
    let h = Hand::from_cards(&[ACE_OF_SPADES, KING_OF_HEARTS, TWO_OF_HEARTS]);
    let hearts = h.cards_of_suit(Suit::Hearts);
    assert_eq!(hearts, vec![KING_OF_HEARTS, TWO_OF_HEARTS]);
    assert_eq!(h.cards(), &[ACE_OF_SPADES, KING_OF_HEARTS, TWO_OF_HEARTS]);
}

#[test]
fn free_filters_work_on_slices() {
    let cs = [ACE_OF_SPADES, KING_OF_HEARTS, ACE_OF_CLUBS];
    assert_eq!(cards_of_rank(&cs, Value::Ace), vec![ACE_OF_SPADES, ACE_OF_CLUBS]);
    assert_eq!(cards_of_suit(&cs, Suit::Hearts), vec![KING_OF_HEARTS]);
}

#[test]
fn iterator_yields_thirteen_distinct_ranks_in_order() {
    let ranks = Value::iterator();
    assert_eq!(ranks.len(), 13);
    assert_eq!(ranks[0], Value::Ace);
    assert_eq!(ranks[12], Value::King);
    for (i, v) in ranks.iter().enumerate() {
        assert_eq!(v.ordinal() as usize, i);
    }
    for i in 0..ranks.len() {
        for j in 0..i {
            assert_ne!(ranks[i], ranks[j]);
        }
    }
}

#[test]
fn ordinal_spans_zero_to_twelve() {
    assert_eq!(Value::Ace.ordinal(), 0);
    assert_eq!(Value::Two.ordinal(), 1);
    assert_eq!(Value::Ten.ordinal(), 9);
    assert_eq!(Value::King.ordinal(), 12);
}

#[test]
fn value_names_are_capitalized_english() {
    assert_eq!(Value::Ace.to_str(), "Ace");
    assert_eq!(Value::Two.to_str(), "Two");
    assert_eq!(Value::Ten.to_str(), "Ten");
    assert_eq!(Value::Queen.to_str(), "Queen");
    assert_eq!(Value::King.to_str(), "King");
}

#[test]
fn display_of_empty_hand_is_empty() {
    assert_eq!(Hand::new().to_str(), "");
}

#[test]
fn display_joins_with_single_commas() {
    let h = Hand::from_cards(&[TWO_OF_HEARTS, ACE_OF_SPADES]);
    assert_eq!(h.to_str(), "2H,AS");
    let one = Hand::from_cards(&[KING_OF_HEARTS]);
    assert_eq!(one.to_str(), "KH");
}

#[test]
fn card_to_str_is_rank_then_suit() {
    assert_eq!(ACE_OF_SPADES.to_str(), "AS");
    assert_eq!(TWO_OF_HEARTS.to_str(), "2H");
    assert_eq!(card(Value::Ten, Suit::Diamonds).to_str(), "TD");
    assert_eq!(card(Value::Queen, Suit::Clubs).to_str(), "QC");
}

#[test]
fn parse_card_accepts_well_formed_abbreviations() {
    assert_eq!(parse_card("AS"), Some(ACE_OF_SPADES));
    assert_eq!(parse_card("2H"), Some(TWO_OF_HEARTS));
    assert_eq!(parse_card("TD"), Some(card(Value::Ten, Suit::Diamonds)));
    assert_eq!(parse_card("KC"), Some(card(Value::King, Suit::Clubs)));
}

#[test]
fn parse_card_rejects_malformed_abbreviations() {
    assert_eq!(parse_card(""), None);
    assert_eq!(parse_card("A"), None);
    assert_eq!(parse_card("ASX"), None);
    assert_eq!(parse_card("XS"), None);
    assert_eq!(parse_card("AX"), None);
    assert_eq!(parse_card("as"), None);
    assert_eq!(parse_card("1H"), None);
}

#[test]
fn from_strings_matches_pushing_the_parsed_cards() {
    let parsed = Hand::from_strings(&["AS", "2H"]);
    let mut pushed = Hand::new();
    pushed.push_card(ACE_OF_SPADES);
    pushed.push_card(TWO_OF_HEARTS);
    assert_eq!(parsed, pushed);
}

#[test]
fn from_strings_keeps_the_given_order() {
    let h = Hand::from_strings(&["KH", "AC", "AS"]);
    assert_eq!(h.cards(), &[KING_OF_HEARTS, ACE_OF_CLUBS, ACE_OF_SPADES]);
    assert_eq!(Hand::from_strings(&[]).len(), 0);
}

#[test]
fn parse_and_render_agree() {
    let h = Hand::from_strings(&["TD", "9C", "AS"]);
    assert_eq!(h.to_str(), "TD,9C,AS");
    for c in h.cards() {
        assert_eq!(parse_card(&c.to_str()), Some(*c));
    }
}
