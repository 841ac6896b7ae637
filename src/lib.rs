//! Feed polling and delivery engine: decides when each subscribed web feed
//! may be fetched again, which of its entries are new, how delivery failures
//! roll state back, and how feed records are stored and reloaded.
pub mod command;
pub mod dispatch;
pub mod expiry;
pub mod feed;
pub mod store;
pub mod text;
