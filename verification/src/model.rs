//! The mathematical model of the registry: its state as maps, one transition
//! function per operation, the invariant every reachable state satisfies, and
//! the operation alphabet used to reason about whole call sequences.

use vstd::prelude::*;

use crate::types::AccountId;
use crate::types::BookModel;
use crate::types::Error;
use crate::types::Timestamp;
use crate::types::TransferModel;

verus! {

/// The registry state, abstracted: the book catalog and the history log keyed
/// by book id, the per-owner inventory index keyed by principal, the count of
/// registrations, the administrator, and the pause flag.
#[verifier::ext_equal]
pub ghost struct RegistryModel {
    pub books: Map<Seq<char>, BookModel>,
    pub history: Map<Seq<char>, Seq<TransferModel>>,
    pub owned: Map<AccountId, Seq<Seq<char>>>,
    pub total_books: u32,
    pub admin: AccountId,
    pub paused: bool,
}

/// The state a freshly constructed registry is in: empty stores, zero
/// registrations, not paused, administered by `admin`.
pub open spec fn init(admin: AccountId) -> RegistryModel {
    RegistryModel {
        books: Map::empty(),
        history: Map::empty(),
        owned: Map::empty(),
        total_books: 0,
        admin,
        paused: false,
    }
}

/// The transfer history of a book: empty until the first transfer.
pub open spec fn history_of(m: RegistryModel, id: Seq<char>) -> Seq<TransferModel> {
    if m.history.contains_key(id) {
        m.history[id]
    } else {
        Seq::empty()
    }
}

/// The inventory of a principal: empty until it first receives a book.
pub open spec fn owned_of(m: RegistryModel, owner: AccountId) -> Seq<Seq<char>> {
    if m.owned.contains_key(owner) {
        m.owned[owner]
    } else {
        Seq::empty()
    }
}

/// Whether `who` is the current owner of the registered book `id`.
pub open spec fn owns(m: RegistryModel, id: Seq<char>, who: AccountId) -> bool {
    m.books.contains_key(id) && m.books[id].current_owner == who
}

/// A count capped at `u32::MAX`, the saturation point of the registry's
/// counters.
pub open spec fn cap_u32(n: nat) -> u32 {
    if n < u32::MAX {
        n as u32
    } else {
        u32::MAX
    }
}

/// `s` with every occurrence of `id` removed, the order of the rest kept.
pub open spec fn remove_all(s: Seq<Seq<char>>, id: Seq<char>) -> Seq<Seq<char>>
    decreases s.len(),
{
    if s.len() == 0 {
        Seq::empty()
    } else if s.last() == id {
        remove_all(s.drop_last(), id)
    } else {
        remove_all(s.drop_last(), id).push(s.last())
    }
}

/// The outcome of `register_book`: rejected while paused, rejected when the
/// id is taken, admitted otherwise.
pub open spec fn register_outcome(m: RegistryModel, id: Seq<char>) -> Result<(), Error> {
    if m.paused {
        Err(Error::ContractPaused)
    } else if m.books.contains_key(id) {
        Err(Error::BookAlreadyExists)
    } else {
        Ok(())
    }
}

/// The state after `register_book`: on success the new book enters the
/// catalog owned by the caller, the caller's inventory grows by the id, and
/// the registration count rises (saturating); on failure nothing changes.
pub open spec fn register_post(
    m: RegistryModel,
    caller: AccountId,
    now: Timestamp,
    id: Seq<char>,
    isbn: Seq<char>,
    title: Seq<char>,
    author: Seq<char>,
    metadata: Seq<char>,
) -> RegistryModel {
    if register_outcome(m, id) is Ok {
        RegistryModel {
            books: m.books.insert(
                id,
                BookModel {
                    book_id: id,
                    isbn,
                    title,
                    author,
                    current_owner: caller,
                    original_owner: caller,
                    registration_timestamp: now,
                    metadata,
                    transfer_count: 0,
                },
            ),
            owned: m.owned.insert(caller, owned_of(m, caller).push(id)),
            total_books: m.total_books.saturating_add(1),
            ..m
        }
    } else {
        m
    }
}

/// The outcome of `transfer_ownership`: rejected while paused, for an unknown
/// book, for a caller that is not the current owner, or for a self-transfer;
/// admitted otherwise.
pub open spec fn transfer_outcome(
    m: RegistryModel,
    caller: AccountId,
    id: Seq<char>,
    new_owner: AccountId,
) -> Result<(), Error> {
    if m.paused {
        Err(Error::ContractPaused)
    } else if !m.books.contains_key(id) {
        Err(Error::BookNotFound)
    } else if m.books[id].current_owner != caller {
        Err(Error::NotBookOwner)
    } else if new_owner == caller {
        Err(Error::InvalidTransfer)
    } else {
        Ok(())
    }
}

/// The state after `transfer_ownership`: on success a transfer record is
/// appended to the book's history, the id moves from the caller's inventory
/// to the new owner's, and the book's owner and transfer count are updated;
/// on failure nothing changes.
pub open spec fn transfer_post(
    m: RegistryModel,
    caller: AccountId,
    now: Timestamp,
    id: Seq<char>,
    new_owner: AccountId,
    notes: Seq<char>,
) -> RegistryModel {
    if transfer_outcome(m, caller, id, new_owner) is Ok {
        let b = m.books[id];
        RegistryModel {
            books: m.books.insert(
                id,
                BookModel {
                    current_owner: new_owner,
                    transfer_count: b.transfer_count.saturating_add(1),
                    ..b
                },
            ),
            history: m.history.insert(
                id,
                history_of(m, id).push(
                    TransferModel { from: caller, to: new_owner, timestamp: now, notes },
                ),
            ),
            owned: m.owned.insert(caller, remove_all(owned_of(m, caller), id)).insert(
                new_owner,
                owned_of(m, new_owner).push(id),
            ),
            ..m
        }
    } else {
        m
    }
}

/// The outcome of `update_metadata`: rejected while paused, for an unknown
/// book, or for a caller that is not the current owner; admitted otherwise.
pub open spec fn update_outcome(
    m: RegistryModel,
    caller: AccountId,
    id: Seq<char>,
) -> Result<(), Error> {
    if m.paused {
        Err(Error::ContractPaused)
    } else if !m.books.contains_key(id) {
        Err(Error::BookNotFound)
    } else if m.books[id].current_owner != caller {
        Err(Error::NotBookOwner)
    } else {
        Ok(())
    }
}

/// The state after `update_metadata`: on success only the book's metadata
/// changes; on failure nothing changes.
pub open spec fn update_post(
    m: RegistryModel,
    caller: AccountId,
    id: Seq<char>,
    metadata: Seq<char>,
) -> RegistryModel {
    if update_outcome(m, caller, id) is Ok {
        let b = m.books[id];
        RegistryModel { books: m.books.insert(id, BookModel { metadata, ..b }), ..m }
    } else {
        m
    }
}

/// The outcome of `pause` and `unpause`: only the administrator may toggle
/// the flag.
pub open spec fn admin_outcome(m: RegistryModel, caller: AccountId) -> Result<(), Error> {
    if caller != m.admin {
        Err(Error::OnlyContractOwner)
    } else {
        Ok(())
    }
}

/// The state after `pause` (with `to = true`) or `unpause` (`to = false`).
pub open spec fn set_paused_post(m: RegistryModel, caller: AccountId, to: bool) -> RegistryModel {
    if admin_outcome(m, caller) is Ok {
        RegistryModel { paused: to, ..m }
    } else {
        m
    }
}

/// The invariant of every reachable registry state:
/// the catalog is finite and keyed by the ids the books themselves carry;
/// the registration count is the capped number of distinct registered ids;
/// each book's transfer count is the capped length of its history;
/// every registered book appears in its current owner's inventory;
/// every inventory entry names a registered book currently owned by that
/// principal (so an id appears in at most one inventory, once);
/// and only registered books have history entries.
pub open spec fn inv(m: RegistryModel) -> bool {
    &&& m.books.dom().finite()
    &&& m.total_books == cap_u32(m.books.dom().len())
    &&& forall|id: Seq<char>| #[trigger] m.books.contains_key(id) ==> {
        &&& m.books[id].book_id == id
        &&& m.books[id].transfer_count == cap_u32(history_of(m, id).len())
        &&& owned_of(m, m.books[id].current_owner).contains(id)
    }
    &&& forall|o: AccountId, x: Seq<char>| #[trigger] owned_of(m, o).contains(x) ==> owns(m, x, o)
    &&& forall|o: AccountId| (#[trigger] owned_of(m, o)).no_duplicates()
    &&& forall|id: Seq<char>| #[trigger] m.history.contains_key(id) ==> m.books.contains_key(id)
}

/// One mutating call, with everything the host supplies for it: the alphabet
/// over which whole call sequences are stated.
pub ghost enum Op {
    Register {
        caller: AccountId,
        now: Timestamp,
        id: Seq<char>,
        isbn: Seq<char>,
        title: Seq<char>,
        author: Seq<char>,
        metadata: Seq<char>,
    },
    Transfer {
        caller: AccountId,
        now: Timestamp,
        id: Seq<char>,
        new_owner: AccountId,
        notes: Seq<char>,
    },
    Update { caller: AccountId, id: Seq<char>, metadata: Seq<char> },
    Pause { caller: AccountId },
    Unpause { caller: AccountId },
}

/// The state reached by one operation, failed operations included (a failed
/// operation leaves the state as it was).
pub open spec fn step(m: RegistryModel, op: Op) -> RegistryModel {
    match op {
        Op::Register { caller, now, id, isbn, title, author, metadata } => register_post(
            m,
            caller,
            now,
            id,
            isbn,
            title,
            author,
            metadata,
        ),
        Op::Transfer { caller, now, id, new_owner, notes } => transfer_post(
            m,
            caller,
            now,
            id,
            new_owner,
            notes,
        ),
        Op::Update { caller, id, metadata } => update_post(m, caller, id, metadata),
        Op::Pause { caller } => set_paused_post(m, caller, true),
        Op::Unpause { caller } => set_paused_post(m, caller, false),
    }
}

/// The state reached by a whole sequence of operations, applied in order.
pub open spec fn run(m: RegistryModel, ops: Seq<Op>) -> RegistryModel
    decreases ops.len(),
{
    if ops.len() == 0 {
        m
    } else {
        run(step(m, ops[0]), ops.drop_first())
    }
}

/// Pushing an element a sequence does not hold keeps the sequence
/// duplicate-free.
proof fn lemma_push_no_duplicates<A>(s: Seq<A>, e: A)
    requires
        s.no_duplicates(),
        !s.contains(e),
    ensures
        s.push(e).no_duplicates(),
{
    let s2 = s.push(e);
    assert forall|i: int, j: int|
        0 <= i < s2.len() && 0 <= j < s2.len() && i != j implies s2[i] != s2[j] by {
        if i < s.len() && j == s.len() {
            if s2[i] == e {
                assert(s[i] == e);
                assert(s.contains(e));
            }
        } else if i == s.len() && j < s.len() {
            if s2[j] == e {
                assert(s[j] == e);
                assert(s.contains(e));
            }
        }
    }
}

/// Dropping the last element keeps a sequence duplicate-free, and the dropped
/// element does not occur among the rest.
proof fn lemma_drop_last_no_duplicates<A>(s: Seq<A>)
    requires
        s.len() > 0,
        s.no_duplicates(),
    ensures
        s.drop_last().no_duplicates(),
        !s.drop_last().contains(s.last()),
{
    assert forall|i: int, j: int|
        0 <= i < s.drop_last().len() && 0 <= j < s.drop_last().len() && i != j
        implies s.drop_last()[i] != s.drop_last()[j] by {
        assert(s.drop_last()[i] == s[i]);
        assert(s.drop_last()[j] == s[j]);
    }
    if s.drop_last().contains(s.last()) {
        let i = choose|i: int| 0 <= i < s.drop_last().len() && s.drop_last()[i] == s.last();
        assert(s[i] == s[s.len() - 1]);
        assert(false);
    }
}

/// An element occurs in a non-empty sequence exactly when it occurs before
/// the last position or is the last element.
proof fn lemma_contains_split<A>(s: Seq<A>, x: A)
    requires
        s.len() > 0,
    ensures
        s.contains(x) <==> (s.drop_last().contains(x) || s.last() == x),
{
    if s.contains(x) {
        let i = choose|i: int| 0 <= i < s.len() && s[i] == x;
        if i < s.len() - 1 {
            assert(s.drop_last()[i] == x);
            assert(s.drop_last().contains(x));
        }
    }
    if s.drop_last().contains(x) {
        let i = choose|i: int| 0 <= i < s.drop_last().len() && s.drop_last()[i] == x;
        assert(s[i] == x);
        assert(s.contains(x));
    }
    assert(s[s.len() - 1] == s.last());
}

/// What `remove_all` holds: exactly the other elements, still without
/// duplicates when the input had none.
pub proof fn lemma_remove_all_props(s: Seq<Seq<char>>, id: Seq<char>)
    ensures
        forall|x: Seq<char>|
            #[trigger] remove_all(s, id).contains(x) <==> (s.contains(x) && x != id),
        s.no_duplicates() ==> remove_all(s, id).no_duplicates(),
    decreases s.len(),
{
    broadcast use vstd::seq_lib::lemma_seq_contains_after_push;

    if s.len() == 0 {
        assert forall|x: Seq<char>|
            #[trigger] remove_all(s, id).contains(x) <==> (s.contains(x) && x != id) by {
            assert(!remove_all(s, id).contains(x));
            assert(!s.contains(x));
        }
    } else {
        let butlast = s.drop_last();
        lemma_remove_all_props(butlast, id);
        assert forall|x: Seq<char>|
            #[trigger] remove_all(s, id).contains(x) <==> (s.contains(x) && x != id) by {
            lemma_contains_split(s, x);
            assert(remove_all(butlast, id).contains(x) <==> (butlast.contains(x) && x != id));
            if s.last() == id {
                assert(remove_all(s, id) == remove_all(butlast, id));
            } else {
                assert(remove_all(s, id) == remove_all(butlast, id).push(s.last()));
                assert(remove_all(s, id).contains(x) <==> (s.last() == x || remove_all(
                    butlast,
                    id,
                ).contains(x)));
            }
        }
        if s.no_duplicates() {
            lemma_drop_last_no_duplicates(s);
            if s.last() != id {
                if remove_all(butlast, id).contains(s.last()) {
                    assert(butlast.contains(s.last()));
                    assert(false);
                }
                lemma_push_no_duplicates(remove_all(butlast, id), s.last());
            }
        }
    }
}

/// `register_book` preserves the registry invariant.
pub proof fn lemma_register_preserves_inv(
    m: RegistryModel,
    caller: AccountId,
    now: Timestamp,
    id: Seq<char>,
    isbn: Seq<char>,
    title: Seq<char>,
    author: Seq<char>,
    metadata: Seq<char>,
)
    requires
        inv(m),
    ensures
        inv(register_post(m, caller, now, id, isbn, title, author, metadata)),
{
    broadcast use vstd::seq_lib::lemma_seq_contains_after_push;

    let m2 = register_post(m, caller, now, id, isbn, title, author, metadata);
    if register_outcome(m, id) is Ok {
        assert(m2.books.dom() =~= m.books.dom().insert(id));
        vstd::set::axiom_set_insert_len(m.books.dom(), id);
        let oc = owned_of(m, caller);
        assert(owned_of(m2, caller) == oc.push(id));
        assert(oc.push(id)[oc.len() as int] == id);
        assert(owned_of(m2, caller).contains(id));
        assert forall|bid: Seq<char>| #[trigger] m2.books.contains_key(bid) implies {
            &&& m2.books[bid].book_id == bid
            &&& m2.books[bid].transfer_count == cap_u32(history_of(m2, bid).len())
            &&& owned_of(m2, m2.books[bid].current_owner).contains(bid)
        } by {
            if bid == id {
                assert(!m.history.contains_key(id));
                assert(history_of(m2, id) == Seq::<TransferModel>::empty());
            } else {
                assert(m.books.contains_key(bid));
                assert(history_of(m2, bid) == history_of(m, bid));
                let o = m.books[bid].current_owner;
                assert(owned_of(m, o).contains(bid));
                if o != caller {
                    assert(owned_of(m2, o) == owned_of(m, o));
                }
            }
        }
        assert forall|o: AccountId, x: Seq<char>|
            #[trigger] owned_of(m2, o).contains(x) implies owns(m2, x, o) by {
            if o == caller {
                if x != id {
                    assert(oc.contains(x));
                    assert(owns(m, x, caller));
                }
            } else {
                assert(owned_of(m2, o) == owned_of(m, o));
                assert(owns(m, x, o));
            }
        }
        assert forall|o: AccountId| (#[trigger] owned_of(m2, o)).no_duplicates() by {
            if o == caller {
                if oc.contains(id) {
                    assert(owns(m, id, caller));
                    assert(false);
                }
                lemma_push_no_duplicates(oc, id);
            } else {
                assert(owned_of(m2, o) == owned_of(m, o));
            }
        }
    }
}

/// `transfer_ownership` preserves the registry invariant.
pub proof fn lemma_transfer_preserves_inv(
    m: RegistryModel,
    caller: AccountId,
    now: Timestamp,
    id: Seq<char>,
    new_owner: AccountId,
    notes: Seq<char>,
)
    requires
        inv(m),
    ensures
        inv(transfer_post(m, caller, now, id, new_owner, notes)),
{
    broadcast use vstd::seq_lib::lemma_seq_contains_after_push;

    let m2 = transfer_post(m, caller, now, id, new_owner, notes);
    if transfer_outcome(m, caller, id, new_owner) is Ok {
        let oc = owned_of(m, caller);
        let on = owned_of(m, new_owner);
        lemma_remove_all_props(oc, id);
        assert(m2.books.dom() =~= m.books.dom());
        assert(owned_of(m2, caller) == remove_all(oc, id));
        assert(owned_of(m2, new_owner) == on.push(id));
        assert(on.push(id)[on.len() as int] == id);
        assert(owned_of(m2, new_owner).contains(id));
        if on.contains(id) {
            assert(owns(m, id, new_owner));
            assert(false);
        }
        assert forall|bid: Seq<char>| #[trigger] m2.books.contains_key(bid) implies {
            &&& m2.books[bid].book_id == bid
            &&& m2.books[bid].transfer_count == cap_u32(history_of(m2, bid).len())
            &&& owned_of(m2, m2.books[bid].current_owner).contains(bid)
        } by {
            assert(m.books.contains_key(bid));
            if bid != id {
                assert(history_of(m2, bid) == history_of(m, bid));
                let o = m.books[bid].current_owner;
                assert(owned_of(m, o).contains(bid));
                if o == caller {
                    assert(remove_all(oc, id).contains(bid));
                } else if o != new_owner {
                    assert(owned_of(m2, o) == owned_of(m, o));
                }
            }
        }
        assert forall|o: AccountId, x: Seq<char>|
            #[trigger] owned_of(m2, o).contains(x) implies owns(m2, x, o) by {
            if o == caller {
                assert(remove_all(oc, id).contains(x));
                assert(owns(m, x, caller));
            } else if o == new_owner {
                if x != id {
                    assert(on.contains(x));
                    assert(owns(m, x, new_owner));
                }
            } else {
                assert(owned_of(m2, o) == owned_of(m, o));
                assert(owns(m, x, o));
                if x == id {
                    assert(owns(m, id, o));
                    assert(false);
                }
            }
        }
        assert forall|o: AccountId| (#[trigger] owned_of(m2, o)).no_duplicates() by {
            if o == caller {
            } else if o == new_owner {
                lemma_push_no_duplicates(on, id);
            } else {
                assert(owned_of(m2, o) == owned_of(m, o));
            }
        }
        assert forall|hid: Seq<char>| #[trigger] m2.history.contains_key(hid)
            implies m2.books.contains_key(hid) by {
            if hid != id {
                assert(m.history.contains_key(hid));
            }
        }
    }
}

/// `update_metadata` preserves the registry invariant.
pub proof fn lemma_update_preserves_inv(
    m: RegistryModel,
    caller: AccountId,
    id: Seq<char>,
    metadata: Seq<char>,
)
    requires
        inv(m),
    ensures
        inv(update_post(m, caller, id, metadata)),
{
    let m2 = update_post(m, caller, id, metadata);
    if update_outcome(m, caller, id) is Ok {
        assert(m2.books.dom() =~= m.books.dom());
        assert forall|bid: Seq<char>| #[trigger] m2.books.contains_key(bid) implies {
            &&& m2.books[bid].book_id == bid
            &&& m2.books[bid].transfer_count == cap_u32(history_of(m2, bid).len())
            &&& owned_of(m2, m2.books[bid].current_owner).contains(bid)
        } by {
            assert(m.books.contains_key(bid));
            assert(history_of(m2, bid) == history_of(m, bid));
            let o = m.books[bid].current_owner;
            assert(owned_of(m, o).contains(bid));
            assert(owned_of(m2, o) == owned_of(m, o));
        }
        assert forall|o: AccountId, x: Seq<char>|
            #[trigger] owned_of(m2, o).contains(x) implies owns(m2, x, o) by {
            assert(owned_of(m2, o) == owned_of(m, o));
            assert(owns(m, x, o));
        }
        assert forall|o: AccountId| (#[trigger] owned_of(m2, o)).no_duplicates() by {
            assert(owned_of(m2, o) == owned_of(m, o));
        }
    }
}

/// `pause` and `unpause` preserve the registry invariant.
pub proof fn lemma_set_paused_preserves_inv(m: RegistryModel, caller: AccountId, to: bool)
    requires
        inv(m),
    ensures
        inv(set_paused_post(m, caller, to)),
{
    let m2 = set_paused_post(m, caller, to);
    assert forall|bid: Seq<char>| #[trigger] m2.books.contains_key(bid) implies {
        &&& m2.books[bid].book_id == bid
        &&& m2.books[bid].transfer_count == cap_u32(history_of(m2, bid).len())
        &&& owned_of(m2, m2.books[bid].current_owner).contains(bid)
    } by {
        assert(m.books.contains_key(bid));
        assert(history_of(m2, bid) == history_of(m, bid));
        let o = m.books[bid].current_owner;
        assert(owned_of(m2, o) == owned_of(m, o));
    }
    assert forall|o: AccountId, x: Seq<char>|
        #[trigger] owned_of(m2, o).contains(x) implies owns(m2, x, o) by {
        assert(owned_of(m2, o) == owned_of(m, o));
        assert(owns(m, x, o));
    }
    assert forall|o: AccountId| (#[trigger] owned_of(m2, o)).no_duplicates() by {
        assert(owned_of(m2, o) == owned_of(m, o));
    }
}

/// Every operation preserves the registry invariant.
pub proof fn lemma_step_preserves_inv(m: RegistryModel, op: Op)
    requires
        inv(m),
    ensures
        inv(step(m, op)),
{
    match op {
        Op::Register { caller, now, id, isbn, title, author, metadata } => {
            lemma_register_preserves_inv(m, caller, now, id, isbn, title, author, metadata);
        },
        Op::Transfer { caller, now, id, new_owner, notes } => {
            lemma_transfer_preserves_inv(m, caller, now, id, new_owner, notes);
        },
        Op::Update { caller, id, metadata } => {
            lemma_update_preserves_inv(m, caller, id, metadata);
        },
        Op::Pause { caller } => {
            lemma_set_paused_preserves_inv(m, caller, true);
        },
        Op::Unpause { caller } => {
            lemma_set_paused_preserves_inv(m, caller, false);
        },
    }
}

} // verus!
