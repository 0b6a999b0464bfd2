use book_traceability::BookTraceability;
use book_traceability::Error;

const ADMIN: u64 = 100;
const A: u64 = 1;
const B: u64 = 2;
const C: u64 = 3;

fn register(
    r: &mut BookTraceability,
    caller: u64,
    now: u64,
    id: &str,
) -> Result<book_traceability::BookRegistered, Error> {
    r.register_book(
        caller,
        now,
        String::from(id),
        String::from("978-0000000000"),
        String::from("Some Title"),
        String::from("Some Author"),
        String::from("{}"),
    )
}

#[test]
fn new_works() {
    let contract = BookTraceability::new(ADMIN);
    assert_eq!(contract.get_total_books(), 0);
    assert!(!contract.is_paused());
}

#[test]
fn register_book_works() {
    let mut contract = BookTraceability::new(ADMIN);
    let book_id = String::from("book-123");
    let result = contract.register_book(
        A,
        10,
        book_id.clone(),
        String::from("978-1234567890"),
        String::from("Test Book"),
        String::from("Test Author"),
        String::from("{}"),
    );
    assert!(result.is_ok());
    assert_eq!(contract.get_total_books(), 1);
    let book = contract.get_book(book_id);
    assert!(book.is_some());
}

#[test]
fn duplicate_book_fails() {
    let mut contract = BookTraceability::new(ADMIN);
    let book_id = String::from("book-123");
    let _ = contract.register_book(
        A,
        10,
        book_id.clone(),
        String::from("978-1234567890"),
        String::from("Test Book"),
        String::from("Test Author"),
        String::from("{}"),
    );
    let result = contract.register_book(
        A,
        11,
        book_id,
        String::from("978-1234567890"),
        String::from("Test Book 2"),
        String::from("Test Author 2"),
        String::from("{}"),
    );
    assert!(matches!(result, Err(Error::BookAlreadyExists)));
}

#[test]
fn register_sets_owner_and_count() {
    let mut r = BookTraceability::new(ADMIN);
    assert!(register(&mut r, A, 10, "b1").is_ok());
    assert_eq!(r.get_total_books(), 1);
    let book = r.get_book(String::from("b1")).unwrap();
    assert_eq!(book.current_owner, A);
    assert_eq!(book.original_owner, A);
    assert_eq!(book.registration_timestamp, 10);
    assert_eq!(book.transfer_count, 0);
    assert!(r.verify_ownership(String::from("b1"), A));
}

#[test]
fn register_event_contents() {
    let mut r = BookTraceability::new(ADMIN);
    let ev = r
        .register_book(
            A,
            42,
            String::from("b1"),
            String::from("isbn-1"),
            String::from("Title One"),
            String::from("Author One"),
            String::from("meta"),
        )
        .unwrap();
    assert_eq!(ev.book_id, "b1");
    assert_eq!(ev.owner, A);
    assert_eq!(ev.title, "Title One");
    assert_eq!(ev.timestamp, 42);
}

#[test]
fn transfer_updates_history_and_index() {
    let mut r = BookTraceability::new(ADMIN);
    assert!(register(&mut r, A, 10, "b1").is_ok());
    let result = r.transfer_ownership(A, 20, String::from("b1"), B, String::from("gift"));
    assert!(result.is_ok());
    let history = r.get_transfer_history(String::from("b1"));
    assert_eq!(history.len(), 1);
    assert_eq!(history[0].from, A);
    assert_eq!(history[0].to, B);
    assert_eq!(history[0].timestamp, 20);
    assert_eq!(history[0].notes, "gift");
    let book = r.get_book(String::from("b1")).unwrap();
    assert_eq!(book.transfer_count, 1);
    assert_eq!(book.current_owner, B);
    assert_eq!(book.original_owner, A);
    let of_b = r.get_books_by_owner(B);
    assert!(of_b.iter().any(|id| id == "b1"));
    let of_a = r.get_books_by_owner(A);
    assert!(!of_a.iter().any(|id| id == "b1"));
}

#[test]
fn transfer_event_contents() {
    let mut r = BookTraceability::new(ADMIN);
    assert!(register(&mut r, A, 10, "b1").is_ok());
    let ev = r
        .transfer_ownership(A, 21, String::from("b1"), B, String::from("sold"))
        .unwrap();
    assert_eq!(ev.book_id, "b1");
    assert_eq!(ev.from, A);
    assert_eq!(ev.to, B);
    assert_eq!(ev.timestamp, 21);
}

#[test]
fn transfer_flips_verify_ownership() {
    let mut r = BookTraceability::new(ADMIN);
    assert!(register(&mut r, A, 10, "b1").is_ok());
    assert!(r.verify_ownership(String::from("b1"), A));
    assert!(!r.verify_ownership(String::from("b1"), B));
    assert!(r
        .transfer_ownership(A, 20, String::from("b1"), B, String::new())
        .is_ok());
    assert!(r.verify_ownership(String::from("b1"), B));
    assert!(!r.verify_ownership(String::from("b1"), A));
}

#[test]
fn self_transfer_fails_unchanged() {
    let mut r = BookTraceability::new(ADMIN);
    assert!(register(&mut r, A, 10, "b1").is_ok());
    let result = r.transfer_ownership(A, 20, String::from("b1"), A, String::new());
    assert!(matches!(result, Err(Error::InvalidTransfer)));
    let book = r.get_book(String::from("b1")).unwrap();
    assert_eq!(book.current_owner, A);
    assert_eq!(book.transfer_count, 0);
    assert_eq!(r.get_transfer_history(String::from("b1")).len(), 0);
    assert!(r.get_books_by_owner(A).iter().any(|id| id == "b1"));
}

#[test]
fn transfer_by_non_owner_fails() {
    let mut r = BookTraceability::new(ADMIN);
    assert!(register(&mut r, A, 10, "b1").is_ok());
    let result = r.transfer_ownership(C, 20, String::from("b1"), B, String::new());
    assert!(matches!(result, Err(Error::NotBookOwner)));
    assert!(r.verify_ownership(String::from("b1"), A));
}

#[test]
fn transfer_unknown_book_fails() {
    let mut r = BookTraceability::new(ADMIN);
    let result = r.transfer_ownership(A, 20, String::from("nope"), B, String::new());
    assert!(matches!(result, Err(Error::BookNotFound)));
}

#[test]
fn update_metadata_by_owner() {
    let mut r = BookTraceability::new(ADMIN);
    assert!(register(&mut r, A, 10, "b1").is_ok());
    let ev = r
        .update_metadata(A, 30, String::from("b1"), String::from("fresh"))
        .unwrap();
    assert_eq!(ev.book_id, "b1");
    assert_eq!(ev.updated_by, A);
    assert_eq!(ev.timestamp, 30);
    let book = r.get_book(String::from("b1")).unwrap();
    assert_eq!(book.metadata, "fresh");
}

#[test]
fn update_metadata_by_non_owner_fails_unchanged() {
    let mut r = BookTraceability::new(ADMIN);
    assert!(register(&mut r, A, 10, "b1").is_ok());
    let result = r.update_metadata(C, 30, String::from("b1"), String::from("x"));
    assert!(matches!(result, Err(Error::NotBookOwner)));
    let book = r.get_book(String::from("b1")).unwrap();
    assert_eq!(book.metadata, "{}");
}

#[test]
fn update_metadata_unknown_book_fails() {
    let mut r = BookTraceability::new(ADMIN);
    let result = r.update_metadata(A, 30, String::from("nope"), String::from("x"));
    assert!(matches!(result, Err(Error::BookNotFound)));
}

#[test]
fn pause_gates_all_mutations() {
    let mut r = BookTraceability::new(ADMIN);
    assert!(register(&mut r, A, 10, "b1").is_ok());
    assert!(r.pause(ADMIN).is_ok());
    assert!(r.is_paused());
    let reg = register(&mut r, B, 20, "b2");
    assert!(matches!(reg, Err(Error::ContractPaused)));
    let tr = r.transfer_ownership(A, 20, String::from("b1"), B, String::new());
    assert!(matches!(tr, Err(Error::ContractPaused)));
    let up = r.update_metadata(A, 20, String::from("b1"), String::from("x"));
    assert!(matches!(up, Err(Error::ContractPaused)));
    assert_eq!(r.get_total_books(), 1);
    assert!(r.verify_ownership(String::from("b1"), A));
    assert_eq!(r.get_transfer_history(String::from("b1")).len(), 0);
    let book = r.get_book(String::from("b1")).unwrap();
    assert_eq!(book.metadata, "{}");
    assert!(r.get_book(String::from("b2")).is_none());
}

#[test]
fn unpause_restores_operation() {
    let mut r = BookTraceability::new(ADMIN);
    assert!(r.pause(ADMIN).is_ok());
    let denied = register(&mut r, A, 10, "b1");
    assert!(matches!(denied, Err(Error::ContractPaused)));
    assert!(r.unpause(ADMIN).is_ok());
    assert!(!r.is_paused());
    assert!(register(&mut r, A, 11, "b1").is_ok());
    assert_eq!(r.get_total_books(), 1);
}

#[test]
fn only_administrator_toggles_pause() {
    let mut r = BookTraceability::new(ADMIN);
    assert!(matches!(r.pause(A), Err(Error::OnlyContractOwner)));
    assert!(!r.is_paused());
    assert!(r.pause(ADMIN).is_ok());
    assert!(matches!(r.unpause(A), Err(Error::OnlyContractOwner)));
    assert!(r.is_paused());
    assert!(r.unpause(ADMIN).is_ok());
    assert!(!r.is_paused());
}

#[test]
fn reregistration_fails_even_after_transfer() {
    let mut r = BookTraceability::new(ADMIN);
    assert!(register(&mut r, A, 10, "b1").is_ok());
    assert!(r
        .transfer_ownership(A, 20, String::from("b1"), B, String::new())
        .is_ok());
    let again = register(&mut r, A, 30, "b1");
    assert!(matches!(again, Err(Error::BookAlreadyExists)));
    let by_c = register(&mut r, C, 31, "b1");
    assert!(matches!(by_c, Err(Error::BookAlreadyExists)));
    assert_eq!(r.get_total_books(), 1);
}

#[test]
fn history_length_tracks_transfer_count() {
    let mut r = BookTraceability::new(ADMIN);
    assert!(register(&mut r, A, 10, "b1").is_ok());
    assert!(r
        .transfer_ownership(A, 20, String::from("b1"), B, String::from("first"))
        .is_ok());
    assert!(r
        .transfer_ownership(B, 30, String::from("b1"), C, String::from("second"))
        .is_ok());
    let book = r.get_book(String::from("b1")).unwrap();
    let history = r.get_transfer_history(String::from("b1"));
    assert_eq!(book.transfer_count, 2);
    assert_eq!(history.len(), 2);
    assert_eq!(history[0].notes, "first");
    assert_eq!(history[1].notes, "second");
    assert_eq!(history[0].to, B);
    assert_eq!(history[1].to, C);
}

#[test]
fn owner_index_matches_current_owner() {
    let mut r = BookTraceability::new(ADMIN);
    assert!(register(&mut r, A, 10, "b1").is_ok());
    assert!(register(&mut r, A, 11, "b2").is_ok());
    assert!(register(&mut r, B, 12, "b3").is_ok());
    assert!(r
        .transfer_ownership(A, 20, String::from("b1"), B, String::new())
        .is_ok());
    let of_a = r.get_books_by_owner(A);
    let of_b = r.get_books_by_owner(B);
    assert_eq!(of_a, vec![String::from("b2")]);
    assert_eq!(of_b, vec![String::from("b3"), String::from("b1")]);
    for id in of_a {
        let book = r.get_book(id).unwrap();
        assert_eq!(book.current_owner, A);
    }
    for id in of_b {
        let book = r.get_book(id).unwrap();
        assert_eq!(book.current_owner, B);
    }
}

#[test]
fn total_books_counts_distinct_ids() {
    let mut r = BookTraceability::new(ADMIN);
    let mut last: u32 = r.get_total_books();
    assert_eq!(last, 0);
    assert!(register(&mut r, A, 10, "b1").is_ok());
    assert!(r.get_total_books() >= last);
    last = r.get_total_books();
    assert!(register(&mut r, A, 11, "b1").is_err());
    assert!(r.get_total_books() >= last);
    last = r.get_total_books();
    assert!(register(&mut r, B, 12, "b2").is_ok());
    assert!(r.get_total_books() >= last);
    last = r.get_total_books();
    assert!(r
        .transfer_ownership(A, 20, String::from("b1"), B, String::new())
        .is_ok());
    assert!(r.get_total_books() >= last);
    assert_eq!(r.get_total_books(), 2);
}

#[test]
fn queries_on_missing_keys_are_empty() {
    let r = BookTraceability::new(ADMIN);
    assert!(r.get_book(String::from("ghost")).is_none());
    assert_eq!(r.get_transfer_history(String::from("ghost")).len(), 0);
    assert_eq!(r.get_books_by_owner(A).len(), 0);
    assert!(!r.verify_ownership(String::from("ghost"), A));
}

#[test]
fn queries_work_while_paused() {
    let mut r = BookTraceability::new(ADMIN);
    assert!(register(&mut r, A, 10, "b1").is_ok());
    assert!(r.pause(ADMIN).is_ok());
    assert!(r.get_book(String::from("b1")).is_some());
    assert!(r.verify_ownership(String::from("b1"), A));
    assert_eq!(r.get_books_by_owner(A), vec![String::from("b1")]);
    assert_eq!(r.get_total_books(), 1);
}
