//! Analysis of Star Trek Online combat logs.
//!
//! A combat log is a stream of comma-separated records: who did what to whom,
//! with which ability, and how much. This library takes the records apart,
//! splits them into fights, credits each record to the players it concerns
//! and files it under a path of their damage and healing trees, works out
//! which map and difficulty a fight was, and names it. Around that sit the
//! pieces a front end needs: filtering and picking combats to compare,
//! picking rows of a table, telling the right windows of a refresh, the
//! layout of a spreadsheet export, folding the game's rotating logs into one
//! file, and registering the program with the desktop.
//!
//! Decimal magnitudes are summed by the caller; the library works with their
//! signs and with where each record belongs.
use vstd::prelude::*;

pub mod text;
pub mod csv;
pub mod entity;
pub mod timefmt;
pub mod record;
pub mod order;
pub mod detection;
pub mod naming;
pub mod combat;
pub mod heal;
pub mod damage;
pub mod filter;
pub mod compare;
pub mod export;
pub mod consolidation;
pub mod install;
pub mod overlay;
pub mod refresh;
pub mod dispatch;
pub mod selection;

verus! {
} // verus!
