//! A mail-ingestion daemon's core: an SMTP session state machine that builds
//! one message per connection, and the decisions of the publisher that relays
//! each accepted message to a message broker, falling back to an overflow store.

pub mod command;
pub mod config;
pub mod message;
pub mod publisher;
pub mod response;
pub mod session;
pub mod support;
pub mod text;
