//! A playing-card domain model: the thirteen card ranks (`Value`), a `Card`
//! made of a rank and a suit, and `Hand`, an ordered mutable collection of
//! cards with push/remove/query/display operations.

pub mod card;
pub mod hand;
pub mod value;
