//! Core of a four-player trick-taking card game engine.
//!
//! The crate models the turn-taking and trick-resolution machinery of
//! Tressette and compatible variants: bounded seat identifiers, the
//! in-progress trick accumulator, the finished-trick record, the pluggable
//! rule set, and the hand and match loops that compose tricks into a full
//! game with a win condition.

pub mod cards;
pub mod game;
pub mod hands;
pub mod rules;
pub mod seats;
pub mod tressette;
pub mod tricks;
