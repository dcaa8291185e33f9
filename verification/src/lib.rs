//! The AnyTLS proxy protocol as verified state machines and codecs.
//!
//! Every module states what it computes in `requires` and `ensures` clauses that Verus
//! proves. The parts that touch sockets, timers and tasks live in the surrounding
//! application, which feeds this library plain values and performs the actions it returns.
pub mod address;
pub mod announcements;
pub mod api;
pub mod assoc;
pub mod audit;
pub mod client;
pub mod clock;
pub mod delivery;
pub mod engine;
pub mod error;
pub mod exchange;
pub mod formats;
pub mod frame;
pub mod history;
pub mod identity;
pub mod index;
pub mod limits;
pub mod multiplexing;
pub mod panel_sync;
pub mod parse_url;
pub mod percent;
pub mod pipe;
pub mod pool;
pub mod query;
pub mod records;
pub mod relay;
pub mod reporting;
pub mod requests;
pub mod round_trip;
pub mod server;
pub mod session;
pub mod sessions;
pub mod settings;
pub mod state;
pub mod stream;
pub mod stream_relay;
pub mod text;
pub mod uot;
pub mod urls;
pub mod users;
pub mod wire;
pub mod words;
pub mod writer;
