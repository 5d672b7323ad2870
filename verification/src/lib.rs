//! Issue-based dialogue management in the Information-State-Update style.
//!
//! The crate models a task-oriented conversational agent: typed semantic
//! representations of questions, answers and propositions with a textual
//! notation; a domain registry holding the closed vocabulary and the
//! question-to-plan bindings; the per-session information state (agenda,
//! plan stack, beliefs, commitments, question-under-discussion stack); and
//! the turn controller that advances the state move by move.  All input and
//! output stays outside: the controller consumes plain strings and produces
//! plain strings.
//!
//! The textual notation uses a fixed ASCII identifier alphabet (see
//! [`text`]), so that parsing, display and their round-trip laws are
//! stated and proved without any assumption about character classes.

pub mod containers;
pub mod controller;
pub mod database;
pub mod domain;
pub mod errors;
pub mod grammar;
pub mod moves;
pub mod plan;
pub mod prop;
pub mod question;
pub mod semantics;
pub mod state;
pub mod text;
