//! Fetches the items of a manifest through a command-line download client
//! and places each in its own directory under a destination root.
//!
//! The library holds every decision of such a run and does no input or
//! output itself. [`manifest`] reads the list of items. [`protocol`] knows
//! the client's commands and how its answers are told apart. [`placement`]
//! decides from the state of an item's directories what is to be done for
//! it, and [`poller`] how long a finished download is waited for. [`run`]
//! ties them together in a state machine that says what to do next and takes
//! in what came of it.

use vstd::prelude::*;

pub mod config;
pub mod decimal;
pub mod manifest;
pub mod placement;
pub mod poller;
pub mod protocol;
pub mod run;
pub mod text;
