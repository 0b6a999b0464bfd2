//! A provenance registry for books.
//!
//! The registry records which principal currently owns each uniquely
//! identified book, the append-only chain of past ownership transfers, and a
//! per-owner inventory index, and keeps the three views consistent under
//! every operation. Mutations are gated by a pause flag that only a fixed
//! administrator may toggle. The host environment supplies the caller
//! identity and a timestamp for each call and forwards the notification
//! values that successful mutations return.

pub mod laws;
pub mod model;
pub mod registry;
pub mod types;

pub use model::RegistryModel;
pub use registry::BookTraceability;
pub use types::AccountId;
pub use types::Book;
pub use types::BookMetadataUpdated;
pub use types::BookOwnershipTransferred;
pub use types::BookRegistered;
pub use types::Error;
pub use types::Timestamp;
pub use types::Transfer;
