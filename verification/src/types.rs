//! The data carried by the registry: books, transfer records, notification
//! values, the error kinds, and the mathematical image of each record type.

use vstd::prelude::*;

verus! {

/// An opaque principal handle. Principals are compared for equality only.
pub type AccountId = u64;

/// A host-supplied timestamp. The registry records it without interpreting it.
pub type Timestamp = u64;

/// The failures a registry operation can report. Every failed operation
/// returns exactly one of these and leaves the registry unchanged.
#[derive(Clone, Copy, PartialEq, Eq, Structural, Debug)]
pub enum Error {
    /// `register_book` was given a `book_id` that is already registered.
    BookAlreadyExists,
    /// The named book has never been registered.
    BookNotFound,
    /// The caller is not the book's current owner.
    NotBookOwner,
    /// Only the administrator may pause or unpause the registry.
    OnlyContractOwner,
    /// The registry is paused; no mutating book operation is admitted.
    ContractPaused,
    /// The transfer names the caller itself as the new owner.
    InvalidTransfer,
}

/// A registered book. Descriptive attributes and the original owner are
/// fixed at registration; `current_owner`, `metadata` and `transfer_count`
/// change only through `transfer_ownership` and `update_metadata`.
pub struct Book {
    pub book_id: String,
    pub isbn: String,
    pub title: String,
    pub author: String,
    pub current_owner: AccountId,
    pub original_owner: AccountId,
    pub registration_timestamp: Timestamp,
    pub metadata: String,
    pub transfer_count: u32,
}

/// The mathematical image of a `Book`: strings as character sequences.
#[verifier::ext_equal]
pub ghost struct BookModel {
    pub book_id: Seq<char>,
    pub isbn: Seq<char>,
    pub title: Seq<char>,
    pub author: Seq<char>,
    pub current_owner: AccountId,
    pub original_owner: AccountId,
    pub registration_timestamp: Timestamp,
    pub metadata: Seq<char>,
    pub transfer_count: u32,
}

impl View for Book {
    type V = BookModel;

    open spec fn view(&self) -> BookModel {
        BookModel {
            book_id: self.book_id@,
            isbn: self.isbn@,
            title: self.title@,
            author: self.author@,
            current_owner: self.current_owner,
            original_owner: self.original_owner,
            registration_timestamp: self.registration_timestamp,
            metadata: self.metadata@,
            transfer_count: self.transfer_count,
        }
    }
}

/// One immutable entry of a book's ownership history, appended by
/// `transfer_ownership` and never changed afterwards.
pub struct Transfer {
    pub from: AccountId,
    pub to: AccountId,
    pub timestamp: Timestamp,
    pub notes: String,
}

/// The mathematical image of a `Transfer`.
#[verifier::ext_equal]
pub ghost struct TransferModel {
    pub from: AccountId,
    pub to: AccountId,
    pub timestamp: Timestamp,
    pub notes: Seq<char>,
}

impl View for Transfer {
    type V = TransferModel;

    open spec fn view(&self) -> TransferModel {
        TransferModel {
            from: self.from,
            to: self.to,
            timestamp: self.timestamp,
            notes: self.notes@,
        }
    }
}

/// Notification value returned by a successful `register_book`; the host
/// forwards it to whatever consumes state-change announcements.
pub struct BookRegistered {
    pub book_id: String,
    pub owner: AccountId,
    pub title: String,
    pub timestamp: Timestamp,
}

/// Notification value returned by a successful `transfer_ownership`.
pub struct BookOwnershipTransferred {
    pub book_id: String,
    pub from: AccountId,
    pub to: AccountId,
    pub timestamp: Timestamp,
}

/// Notification value returned by a successful `update_metadata`.
pub struct BookMetadataUpdated {
    pub book_id: String,
    pub updated_by: AccountId,
    pub timestamp: Timestamp,
}

} // verus!
