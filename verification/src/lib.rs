//! Core of a bar-by-bar trend-following backtesting engine: identifiers and
//! digests, the order book state machine, trigger and path rules, the three
//! execution phases of a bar, position-manager intents and the stop ratchet,
//! rejection guards, fill-simulation policies, warmup tracking and indicator
//! descriptors with their window extremes.

pub mod domain;
pub mod ids;
pub mod text;
pub mod order;
pub mod order_book;
pub mod order_book_laws;
pub mod trigger;
pub mod path_policy;
pub mod phases;
pub mod ratchet;
pub mod bar_loop;
pub mod trades;
pub mod guards;
pub mod stable_sort;
pub mod execution;
pub mod liquidity;
pub mod fingerprint;
pub mod warmup;
pub mod indicators;
