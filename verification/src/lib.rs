//! The logical core of a pen tool for bezier curves: curves that latch together
//! at their endpoints into chains, chains that are grouped into compound shapes,
//! and a linear undo/redo log over the structural edits.
//!
//! Everything here is plain data and total functions. Drawing, picking with the
//! mouse, sampling a curve and storing files belong to whoever embeds the core.
//!
//! The document is a [`pen::PenTool`]. What it holds is told by its view, a
//! [`model::PenView`]: a map of curves, a map of groups, the history and its
//! cursor. Every operation says what it makes of that view.
//!
//! - [`curve`], [`error`], [`history`]: the plain types.
//! - [`latch`], [`chain`], [`grouping`], [`deletion`], [`model`]: what the
//!   edits mean, as functions on the view.
//! - [`pen`], [`store`], [`edit`], [`traverse`], [`group`], [`log`], [`reach`],
//!   [`lut`]: the operations on the document.
//! - [`actions`], [`undo`]: what the pen tool does with the intents of its
//!   user.
//! - [`laws`], [`outcome`], [`group_laws`]: what holds of every document.

pub mod curve;
pub mod error;
pub mod lists;
pub mod latch;
pub mod chain;
pub mod history;
pub mod model;
pub mod laws;
pub mod deletion;
pub mod reach;
pub mod outcome;
pub mod grouping;
pub mod group_laws;
pub mod pen;
pub mod store;
pub mod log;
pub mod edit;
pub mod traverse;
pub mod group;
pub mod lut;
pub mod undo;
pub mod actions;
