//! Core logic of a slot-availability notification service.
//!
//! Subscribers register a location (pincode), an age, and a push token.
//! A periodic dispatcher groups subscriptions by (pincode, age band),
//! evaluates an availability snapshot per group, filters recipients by a
//! cooldown window, builds the notification text, and records the send
//! attempt on every token of the batch.

pub mod band;
pub mod dates;
pub mod dispatch;
pub mod message;
pub mod snapshot;
pub mod store;

pub use band::get_age_limit;
pub use snapshot::Center;
pub use snapshot::Centers;
pub use snapshot::Session;
