//! What the engine promises, proved of every state, every event and every
//! answer.
//!
//! [`every_step`] says what no step ever breaks. [`commands`], [`undo`] and
//! [`arrangement`] say what single commands owe their caller, [`assignment`]
//! what holds of the displays and what they show, [`workspaces`] what holds of
//! workspaces and of the windows in them, [`compensation`] what becomes of a
//! switch that failed, [`reflow`] that arranging twice is arranging once, and
//! [`answering`] that what was settled stays settled.
//!
//! A second group says what operations come to, over the rectangles, windows,
//! displays and workspaces themselves: [`heading`] of directions, [`hotplug`]
//! of displays that go, [`snapping`] of zones and throws, [`filling`] of who is
//! arranged and in what order, [`managing`] of what is managed and why,
//! [`belonging`], [`sharing`] and [`mapping`] of workspaces and who is in them,
//! [`growing`] and [`standing`] of trees, [`naming`], [`reversing`] and
//! [`refusing`] of undo, [`settling`] and [`returning`] of parking and
//! switching, and [`occasions`] and [`reports`] of single events.
//!
//! The other modules carry those proofs: what arranging leaves alone, and what
//! each part of a step and each event keeps.

pub mod answering;
pub mod arrangement;
pub mod assignment;
pub mod belonging;
pub mod commands;
pub mod compensation;
pub mod events;
pub mod every_step;
pub mod filling;
pub mod frame;
pub mod growing;
pub mod heading;
pub mod hotplug;
pub mod managing;
pub mod mapping;
pub mod naming;
pub mod occasions;
pub mod overflow;
pub mod parts;
pub mod reflow;
pub mod refusing;
pub mod repeats;
pub mod reports;
pub mod returning;
pub mod reversing;
pub mod settling;
pub mod sharing;
pub mod snapping;
pub mod standing;
pub mod steady;
pub mod undo;
pub mod workspaces;
