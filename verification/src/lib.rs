//! The authoritative state reducer of a tiling window manager.
//!
//! Platform adapters observe windows and displays and carry out moves; this
//! crate decides. [`EngineState`] is the whole of what the engine knows, an
//! [`Event`] is something that happened or was asked for, and
//! [`apply`](reducer::apply) is the one function that turns the first into
//! its successor. Geometry planners, the container-tree library, window
//! matching and the rule evaluator live outside: what they answered is handed
//! in as [`Answers`](answers::Answers), and a step that needs an answer it
//! was not given hands back the [`Question`](answers::Question) instead.

pub mod answers;
pub mod arrange;
pub mod assign;
pub mod commands;
pub mod config;
pub mod direction;
pub mod event;
pub mod geometry;
pub mod glance;
pub mod initial;
pub mod laws;
pub mod layout;
pub mod lifecycle;
pub mod name;
pub mod observe;
pub mod outcome;
pub mod parking;
pub mod placement;
pub mod placing;
pub mod plans;
pub mod ranking;
pub mod reducer;
pub mod reversal;
pub mod session;
pub mod state;
pub mod switch;
pub mod table;
pub mod text;
pub mod topology;
pub mod trees;
pub mod undo;
pub mod window;
pub mod workspace;

