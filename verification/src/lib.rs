//! Discovery and capability probing of audio hardware endpoints.
//!
//! The library finds out which combinations of sample format, sample rate
//! and channel count each hardware endpoint of a machine really takes, and
//! which buffer times go with a chosen combination. It decides what to ask
//! the negotiation backend, in which order, and what to make of each
//! answer. The backend itself, the threads that the probing runs on and
//! the terminal are the caller's: they are handed in as plain functions.
//!
//! From the leaves up:
//! - `audio`, `ordered`: formats and directions; strictly increasing lists.
//! - `session`: the steps of one trial on one session and their verdict.
//! - `backend`, `policy`: the backend's three functions; candidate lists,
//!   limits and the ceiling.
//! - `capability`, `search`, `buffer`: accepted values by scanning, the
//!   combinations that pass together, the buffer-time window.
//! - `pcm`: endpoints and their verified configurations.
//! - `card`, `hint`: card keys and the endpoints worth probing.
//! - `worker`, `manager`: one worker for each card, and their dispatcher.
//! - `menu`, `converter`, `conf`: choosing among configurations and
//!   writing the configuration file's text.

pub mod audio;
pub mod backend;
pub mod buffer;
pub mod capability;
pub mod card;
pub mod conf;
pub mod converter;
pub mod hint;
pub mod manager;
pub mod menu;
pub mod ordered;
pub mod pcm;
pub mod policy;
pub mod search;
pub mod session;
pub mod worker;
