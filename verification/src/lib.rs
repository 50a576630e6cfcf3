//! Client library for delegating the sorting of a sequence to a remote
//! chat-completion service: it builds a deterministic JSON request from the
//! input, and interprets the service's JSON reply as the sorted sequence,
//! failing explicitly whenever the reply cannot be trusted.
//!
//! The request construction and the response interpretation are verified;
//! the single HTTP round trip itself is left to the embedding application.
pub mod client;
pub mod dec;
pub mod json;
pub mod laws;

pub use client::PreparedRequest;
pub use client::Vibesort;
pub use client::VibesortError;

