//! Iterative DNS resolution: walking the name hierarchy from the root
//! nameservers down, one referral at a time.
//!
//! The library never touches the network. A [`engine::Resolution`] says
//! which query is due, the caller sends it and hands the reply back, and the
//! resolution says what comes next, until it ends with an address or with
//! the reason why there is none.
//!
//! - [`message`]: header, resource records, and the three sections of a
//!   reply.
//! - [`classify`]: what one reply means: an answer, a failure, a referral,
//!   or a nameserver whose address has to be found first.
//! - [`engine`]: the resolution as a state machine.
//! - [`roots`]: the root nameservers, and the random choices.
//! - [`network`]: a resolution against a network that does not change, and
//!   the proof that it always comes to the same result.
//! - [`wire`]: queries and replies as bytes.
//! - [`text`]: addresses as text.

pub mod classify;
pub mod engine;
pub mod message;
pub mod network;
pub mod roots;
pub mod text;
pub mod wire;
