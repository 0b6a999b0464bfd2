//! The laws the registry obeys, stated over the model and proved once for
//! every state and every call sequence.

use vstd::prelude::*;

use crate::model::cap_u32;
use crate::model::history_of;
use crate::model::init;
use crate::model::inv;
use crate::model::lemma_step_preserves_inv;
use crate::model::owned_of;
use crate::model::owns;
use crate::model::register_outcome;
use crate::model::register_post;
use crate::model::run;
use crate::model::set_paused_post;
use crate::model::step;
use crate::model::transfer_outcome;
use crate::model::transfer_post;
use crate::model::update_outcome;
use crate::model::update_post;
use crate::model::Op;
use crate::model::RegistryModel;
use crate::types::AccountId;
use crate::types::Error;
use crate::types::Timestamp;

verus! {

/// A freshly constructed registry satisfies the registry invariant.
pub proof fn lemma_init_satisfies_inv(admin: AccountId)
    ensures
        inv(init(admin)),
{
}

/// Whether `op` is a registration targeting the id `id`.
pub open spec fn op_registers(op: Op, id: Seq<char>) -> bool {
    match op {
        Op::Register { id: rid, .. } => rid == id,
        _ => false,
    }
}

/// An id is registered after an operation exactly when it was registered
/// before or the operation is a registration of that very id that was
/// admitted: books are never deleted, and only `register_book` adds one.
pub proof fn lemma_step_registered_ids(m: RegistryModel, op: Op, id: Seq<char>)
    ensures
        step(m, op).books.contains_key(id) <==> (m.books.contains_key(id) || (op_registers(op, id)
            && register_outcome(m, id) is Ok)),
{
    match op {
        Op::Register { caller, now, id: rid, isbn, title, author, metadata } => {
            assert(step(m, op) == register_post(m, caller, now, rid, isbn, title, author, metadata));
        },
        Op::Transfer { caller, now, id: tid, new_owner, notes } => {
            assert(step(m, op) == transfer_post(m, caller, now, tid, new_owner, notes));
        },
        Op::Update { caller, id: uid, metadata } => {
            assert(step(m, op) == update_post(m, caller, uid, metadata));
        },
        Op::Pause { caller } => {
            assert(step(m, op) == set_paused_post(m, caller, true));
        },
        Op::Unpause { caller } => {
            assert(step(m, op) == set_paused_post(m, caller, false));
        },
    }
}

/// A registered id stays registered under any sequence of operations.
pub proof fn lemma_run_keeps_registered(m: RegistryModel, ops: Seq<Op>, id: Seq<char>)
    requires
        m.books.contains_key(id),
    ensures
        run(m, ops).books.contains_key(id),
    decreases ops.len(),
{
    if ops.len() > 0 {
        lemma_step_registered_ids(m, ops[0], id);
        lemma_run_keeps_registered(step(m, ops[0]), ops.drop_first(), id);
    }
}

/// A given id can be the target of a successful registration at most once:
/// after one success, no sequence of further operations leads to a state in
/// which registering that id is admitted again, and an unpaused registry
/// rejects the attempt with `BookAlreadyExists`.
pub proof fn lemma_register_at_most_once(
    m: RegistryModel,
    caller: AccountId,
    now: Timestamp,
    id: Seq<char>,
    isbn: Seq<char>,
    title: Seq<char>,
    author: Seq<char>,
    metadata: Seq<char>,
    ops: Seq<Op>,
)
    requires
        register_outcome(m, id) is Ok,
    ensures
        !(register_outcome(
            run(register_post(m, caller, now, id, isbn, title, author, metadata), ops),
            id,
        ) is Ok),
        !run(register_post(m, caller, now, id, isbn, title, author, metadata), ops).paused
            ==> register_outcome(
            run(register_post(m, caller, now, id, isbn, title, author, metadata), ops),
            id,
        ) == Err::<(), Error>(Error::BookAlreadyExists),
{
    let m1 = register_post(m, caller, now, id, isbn, title, author, metadata);
    assert(m1.books.contains_key(id));
    lemma_run_keeps_registered(m1, ops, id);
}

/// After a successful transfer the new owner owns the book and the previous
/// owner does not.
pub proof fn lemma_transfer_flips_ownership(
    m: RegistryModel,
    caller: AccountId,
    now: Timestamp,
    id: Seq<char>,
    new_owner: AccountId,
    notes: Seq<char>,
)
    requires
        transfer_outcome(m, caller, id, new_owner) is Ok,
    ensures
        owns(transfer_post(m, caller, now, id, new_owner, notes), id, new_owner),
        !owns(transfer_post(m, caller, now, id, new_owner, notes), id, caller),
{
}

/// In every state satisfying the invariant, a registered book's transfer
/// count equals the length of its transfer history. (The count saturates at
/// `u32::MAX`, so the equality is stated for histories up to that length.)
pub proof fn lemma_history_length_matches_count(m: RegistryModel, id: Seq<char>)
    requires
        inv(m),
        m.books.contains_key(id),
        history_of(m, id).len() <= u32::MAX,
    ensures
        m.books[id].transfer_count == history_of(m, id).len(),
{
    assert(m.books[id].transfer_count == cap_u32(history_of(m, id).len()));
}

/// In every state satisfying the invariant, a principal's inventory holds
/// only ids of registered books whose current owner is that principal.
pub proof fn lemma_inventory_entries_owned(m: RegistryModel, owner: AccountId, id: Seq<char>)
    requires
        inv(m),
        owned_of(m, owner).contains(id),
    ensures
        owns(m, id, owner),
{
}

/// No single operation lowers the registration count.
pub proof fn lemma_step_total_books_non_decreasing(m: RegistryModel, op: Op)
    ensures
        step(m, op).total_books >= m.total_books,
{
}

/// The registration count is non-decreasing across any sequence of
/// operations.
pub proof fn lemma_total_books_non_decreasing(m: RegistryModel, ops: Seq<Op>)
    ensures
        run(m, ops).total_books >= m.total_books,
    decreases ops.len(),
{
    if ops.len() > 0 {
        lemma_step_total_books_non_decreasing(m, ops[0]);
        lemma_total_books_non_decreasing(step(m, ops[0]), ops.drop_first());
    }
}

/// In every state satisfying the invariant, the registration count equals the
/// number of distinct registered ids. (The count saturates at `u32::MAX`, so
/// the equality is stated for catalogs up to that size.)
pub proof fn lemma_total_books_counts_ids(m: RegistryModel)
    requires
        inv(m),
        m.books.dom().len() <= u32::MAX,
    ensures
        m.total_books == m.books.dom().len(),
{
    assert(m.total_books == cap_u32(m.books.dom().len()));
}

/// While the registry is paused, registration, transfer and metadata update
/// are all rejected with `ContractPaused`, and each leaves the state exactly
/// as it was.
pub proof fn lemma_paused_rejects_mutations(
    m: RegistryModel,
    caller: AccountId,
    now: Timestamp,
    id: Seq<char>,
    new_owner: AccountId,
    isbn: Seq<char>,
    title: Seq<char>,
    author: Seq<char>,
    metadata: Seq<char>,
    notes: Seq<char>,
)
    requires
        m.paused,
    ensures
        register_outcome(m, id) == Err::<(), Error>(Error::ContractPaused),
        register_post(m, caller, now, id, isbn, title, author, metadata) == m,
        transfer_outcome(m, caller, id, new_owner) == Err::<(), Error>(Error::ContractPaused),
        transfer_post(m, caller, now, id, new_owner, notes) == m,
        update_outcome(m, caller, id) == Err::<(), Error>(Error::ContractPaused),
        update_post(m, caller, id, metadata) == m,
{
}

/// Every state reached from a state satisfying the invariant satisfies it
/// too, whatever the operations were.
pub proof fn lemma_reachable_states_satisfy_inv(m: RegistryModel, ops: Seq<Op>)
    requires
        inv(m),
    ensures
        inv(run(m, ops)),
    decreases ops.len(),
{
    if ops.len() > 0 {
        lemma_step_preserves_inv(m, ops[0]);
        lemma_reachable_states_satisfy_inv(step(m, ops[0]), ops.drop_first());
    }
}

} // verus!

