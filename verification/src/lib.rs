//! A falling-block puzzle on a playfield of twenty rows and ten columns.
//!
//! This crate is the simulation: a small generator of pseudo-random numbers
//! (`rng`), the playfield (`board`), the pieces and their templates
//! (`piece`), quarter turns (`rotation`), collision tests and locking
//! (`collision`), the removal of full rows (`lines`), and the round as a
//! state machine that advances by one frame at a time (`game`). It draws
//! nothing, plays nothing and reads no key or clock: the caller does.
//!
//! Every function states what it computes over sequences and integers, and
//! is proved to compute it.

pub mod board;
pub mod collision;
pub mod game;
pub mod lines;
pub mod piece;
pub mod rng;
pub mod rotation;
