//! A pattern-matching engine for streams of low-level input events.
//!
//! The library records observed events (key presses and releases, mouse
//! button presses and releases, pointer moves, wheel ticks) in a bounded,
//! time-ordered [`history::History`], describes multi-step chords as
//! [`key::KeySet`] patterns, and decides with [`matcher::matches`] whether
//! the most recent events complete a pattern. [`listener::Listener`] ties
//! the pieces together: it holds the registered bindings, feeds every
//! incoming event through the history, and reports which callbacks fired.
//!
//! Invoking the callbacks, as well as producing the raw event stream, is
//! left to the embedding application: a callback is identified here by a
//! caller-chosen token, and the application maps tokens to the
//! asynchronous actions it schedules.

pub mod exception;
pub mod history;
pub mod key;
pub mod listener;
pub mod matcher;
