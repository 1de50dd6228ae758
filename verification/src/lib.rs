//! Feature-table derivation for social-media post exports.
//!
//! The crate ingests decoded post rows, resolves retweet/reply/quote
//! references against an in-memory post store, scores and segments the
//! eligible posts, aggregates a hashtag dictionary with stable first-seen
//! identifiers, and compacts that dictionary into a dense identifier space
//! together with timestamped, offset-disambiguated occurrence rows.

pub mod compact;
pub mod decode;
pub mod hashtags;
pub mod pipeline;
pub mod resolve;
pub mod rows;
pub mod segment;
pub mod shims;
pub mod sortrows;
pub mod store;
