//! Rules engine for a single-player tarot patience.
//!
//! The game is played with four suits of thirteen ranks and the twenty-two
//! major arcana. Cards lie on eleven columns; they are gathered on the
//! foundations, which take them in order of rank. The library holds the
//! cards ([`cards`]), the rules as a model ([`rules`], [`deck`]) and the
//! board that follows them ([`board`]), two ways to deal a game
//! ([`random`]) and a search that says whether a game can be won
//! ([`solver`]). What a front end needs beside that is in [`input`],
//! [`render`], [`frame`] and [`atlas`].
//!
//! Every function is verified against its contract, but for the few in
//! [`random`] and [`seen`] that stand for a call into `fastrand` or `ahash`:
//! their contracts are taken on trust. The modules [`conservation`],
//! [`cascade`], [`laws`] and [`search`] hold what is proved of the rules
//! and of the search.

pub mod atlas;
pub mod board;
pub mod cards;
pub mod cascade;
pub mod conservation;
pub mod deck;
pub mod fingerprint;
pub mod frame;
pub mod input;
pub mod laws;
pub mod random;
pub mod render;
pub mod rules;
pub mod search;
pub mod seen;
pub mod solver;
pub mod zones;

pub use board::{Board, Column};
pub use cards::{Card, MinorSuit, Suit};
pub use rules::{BoardZone, CardMoveError};
