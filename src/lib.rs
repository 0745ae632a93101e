//! Heads-up no-limit poker: the betting protocol of a street, the sequencing
//! of a hand across streets, showdown and settlement, and a table that carries
//! stacks from one hand to the next.

pub mod common;
pub mod street;
pub mod cards;
pub mod hand;
pub mod game;
