//! The simulation core of a small arena game: a player cell, host cells and
//! hostile virus particles, moved by a collaborator and ruled from here.
//!
//! The core works in whole numbers throughout. Lengths are thousandths of a
//! world unit, angles millionths of a radian, times milliseconds; the timer of
//! an infection runs in millionths of a second. A velocity is a heading and a
//! speed, and it is the caller who turns it into a displacement.
//!
//! A tick runs in phases: contacts are detected ([`collision`]), turned into
//! events and resolved by the rules of [`encounter`]; seekers let go of
//! targets that are gone and take new ones ([`enemy`], [`player_attack`]);
//! infections run down and hosts burst ([`host`]); and the scheduler sends
//! the next wave when the last one is gone ([`level`]). [`schedule::tick`] does
//! all of it in order.
//!
//! Chance comes from a generator that the caller hands in ([`random`]), so a
//! seed fixes a run.

pub mod collision;
pub mod config;
pub mod encounter;
pub mod enemy;
pub mod geometry;
pub mod host;
pub mod hud;
pub mod level;
pub mod movement;
pub mod player;
pub mod player_attack;
pub mod random;
pub mod schedule;
pub mod world;
