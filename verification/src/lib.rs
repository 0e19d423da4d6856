//! Telemetry acquisition for a kernel-resident process tracker: the fixed
//! binary record layout and its codec, the session-wide deduplication of
//! process identities, and the decisions of the polling loop. Channel I/O,
//! waiting and printing are left to the embedding program, which hands the
//! outcome of each request to [`poll::PollLoop`] and does what it answers.

pub mod layout;
pub mod source;
pub mod text;
pub mod record;
pub mod builder;
pub mod dedup;
pub mod channel;
pub mod poll;
