//! The registry itself: the stored representation (three association
//! vectors), its abstraction to `RegistryModel`, and the verified operations.

use vstd::prelude::*;

use crate::model::history_of;
use crate::model::init;
use crate::model::inv;
use crate::model::owned_of;
use crate::model::owns;
use crate::model::register_outcome;
use crate::model::register_post;
use crate::model::remove_all;
use crate::model::admin_outcome;
use crate::model::set_paused_post;
use crate::model::transfer_outcome;
use crate::model::transfer_post;
use crate::model::update_outcome;
use crate::model::update_post;
use crate::model::RegistryModel;
use crate::types::AccountId;
use crate::types::Book;
use crate::types::BookMetadataUpdated;
use crate::types::BookModel;
use crate::types::BookOwnershipTransferred;
use crate::types::BookRegistered;
use crate::types::Error;
use crate::types::Timestamp;
use crate::types::Transfer;
use crate::types::TransferModel;

verus! {

/// One stored history-log entry: a book id and its transfer records so far.
struct HistoryEntry {
    book_id: String,
    transfers: Vec<Transfer>,
}

/// One stored owner-index entry: a principal and the ids it currently holds.
struct OwnerEntry {
    owner: AccountId,
    book_ids: Vec<String>,
}

spec fn books_has_key(s: Seq<Book>, k: Seq<char>) -> bool {
    exists|i: int| 0 <= i < s.len() && s[i].book_id@ == k
}

spec fn books_index(s: Seq<Book>, k: Seq<char>) -> int {
    choose|i: int| 0 <= i < s.len() && s[i].book_id@ == k
}

spec fn books_map(s: Seq<Book>) -> Map<Seq<char>, BookModel> {
    Map::new(|k: Seq<char>| books_has_key(s, k), |k: Seq<char>| s[books_index(s, k)]@)
}

spec fn books_unique(s: Seq<Book>) -> bool {
    forall|i: int, j: int| 0 <= i < j < s.len() ==> s[i].book_id@ != s[j].book_id@
}

spec fn ids_view(v: Seq<String>) -> Seq<Seq<char>> {
    v.map_values(|x: String| x@)
}

spec fn transfers_view(v: Seq<Transfer>) -> Seq<TransferModel> {
    v.map_values(|t: Transfer| t@)
}

spec fn hist_has_key(s: Seq<HistoryEntry>, k: Seq<char>) -> bool {
    exists|i: int| 0 <= i < s.len() && s[i].book_id@ == k
}

spec fn hist_index(s: Seq<HistoryEntry>, k: Seq<char>) -> int {
    choose|i: int| 0 <= i < s.len() && s[i].book_id@ == k
}

spec fn hist_map(s: Seq<HistoryEntry>) -> Map<Seq<char>, Seq<TransferModel>> {
    Map::new(
        |k: Seq<char>| hist_has_key(s, k),
        |k: Seq<char>| transfers_view(s[hist_index(s, k)].transfers@),
    )
}

spec fn hist_unique(s: Seq<HistoryEntry>) -> bool {
    forall|i: int, j: int| 0 <= i < j < s.len() ==> s[i].book_id@ != s[j].book_id@
}

spec fn owner_has_key(s: Seq<OwnerEntry>, o: AccountId) -> bool {
    exists|i: int| 0 <= i < s.len() && s[i].owner == o
}

spec fn owner_index(s: Seq<OwnerEntry>, o: AccountId) -> int {
    choose|i: int| 0 <= i < s.len() && s[i].owner == o
}

spec fn owner_map(s: Seq<OwnerEntry>) -> Map<AccountId, Seq<Seq<char>>> {
    Map::new(
        |o: AccountId| owner_has_key(s, o),
        |o: AccountId| ids_view(s[owner_index(s, o)].book_ids@),
    )
}

spec fn owner_unique(s: Seq<OwnerEntry>) -> bool {
    forall|i: int, j: int| 0 <= i < j < s.len() ==> s[i].owner != s[j].owner
}

proof fn lemma_books_at(s: Seq<Book>, i: int)
    requires
        books_unique(s),
        0 <= i < s.len(),
    ensures
        books_map(s).contains_key(s[i].book_id@),
        books_map(s)[s[i].book_id@] == s[i]@,
        books_index(s, s[i].book_id@) == i,
{
    let k = s[i].book_id@;
    assert(books_has_key(s, k));
    let j = books_index(s, k);
    assert(0 <= j < s.len() && s[j].book_id@ == k);
    if i < j {
        assert(s[i].book_id@ != s[j].book_id@);
        assert(false);
    }
    if j < i {
        assert(s[j].book_id@ != s[i].book_id@);
        assert(false);
    }
}

proof fn lemma_books_push(s: Seq<Book>, b: Book)
    requires
        books_unique(s),
        !books_has_key(s, b.book_id@),
    ensures
        books_unique(s.push(b)),
        books_map(s.push(b)) == books_map(s).insert(b.book_id@, b@),
{
    let s2 = s.push(b);
    let k0 = b.book_id@;
    assert forall|i: int, j: int| 0 <= i < j < s2.len() implies s2[i].book_id@ != s2[j].book_id@
    by {
        if j == s.len() {
            if s2[i].book_id@ == k0 {
                assert(s[i].book_id@ == k0);
                assert(books_has_key(s, k0));
                assert(false);
            }
        }
    }
    let m1 = books_map(s2);
    let m2 = books_map(s).insert(k0, b@);
    assert(s2[s.len() as int].book_id@ == k0);
    assert forall|k: Seq<char>| #[trigger] m1.contains_key(k) == m2.contains_key(k) by {
        if books_has_key(s2, k) {
            let i = books_index(s2, k);
            assert(0 <= i < s2.len() && s2[i].book_id@ == k);
            if i < s.len() {
                assert(s[i].book_id@ == k);
                assert(books_has_key(s, k));
            }
        }
        if books_has_key(s, k) {
            let i = choose|i: int| 0 <= i < s.len() && s[i].book_id@ == k;
            assert(s2[i].book_id@ == k);
            assert(books_has_key(s2, k));
        }
    }
    assert forall|k: Seq<char>| #[trigger] m1.contains_key(k) implies m1[k] == m2[k] by {
        let i = books_index(s2, k);
        assert(0 <= i < s2.len() && s2[i].book_id@ == k);
        lemma_books_at(s2, i);
        if k == k0 {
            if i < s.len() {
                assert(books_has_key(s, k0));
                assert(false);
            }
            assert(m1[k] == b@);
        } else {
            assert(i < s.len());
            assert(s[i].book_id@ == k);
            lemma_books_at(s, i);
            assert(s2[i]@ == s[i]@);
        }
    }
    assert(m1 =~= m2);
}

proof fn lemma_books_update(s: Seq<Book>, i: int, b: Book)
    requires
        books_unique(s),
        0 <= i < s.len(),
        b.book_id@ == s[i].book_id@,
    ensures
        books_unique(s.update(i, b)),
        books_map(s.update(i, b)) == books_map(s).insert(b.book_id@, b@),
{
    let s2 = s.update(i, b);
    let k0 = b.book_id@;
    assert forall|j: int| 0 <= j < s.len() implies s2[j].book_id@ == s[j].book_id@ by {}
    assert forall|p: int, q: int| 0 <= p < q < s2.len() implies s2[p].book_id@ != s2[q].book_id@
    by {
        assert(s2[p].book_id@ == s[p].book_id@);
        assert(s2[q].book_id@ == s[q].book_id@);
    }
    let m1 = books_map(s2);
    let m2 = books_map(s).insert(k0, b@);
    assert(s[i].book_id@ == k0);
    assert(books_has_key(s, k0));
    assert(s2[i].book_id@ == k0);
    assert forall|k: Seq<char>| #[trigger] m1.contains_key(k) == m2.contains_key(k) by {
        if books_has_key(s2, k) {
            let p = books_index(s2, k);
            assert(0 <= p < s2.len() && s2[p].book_id@ == k);
            assert(s[p].book_id@ == k);
            assert(books_has_key(s, k));
        }
        if books_has_key(s, k) {
            let p = choose|p: int| 0 <= p < s.len() && s[p].book_id@ == k;
            assert(s2[p].book_id@ == k);
            assert(books_has_key(s2, k));
        }
    }
    assert forall|k: Seq<char>| #[trigger] m1.contains_key(k) implies m1[k] == m2[k] by {
        let p = books_index(s2, k);
        assert(0 <= p < s2.len() && s2[p].book_id@ == k);
        lemma_books_at(s2, p);
        if k == k0 {
            lemma_books_at(s2, i);
            assert(p == i);
            assert(m1[k] == b@);
        } else {
            assert(p != i);
            assert(s[p].book_id@ == k);
            lemma_books_at(s, p);
            assert(s2[p]@ == s[p]@);
        }
    }
    assert(m1 =~= m2);
}

proof fn lemma_hist_at(s: Seq<HistoryEntry>, i: int)
    requires
        hist_unique(s),
        0 <= i < s.len(),
    ensures
        hist_map(s).contains_key(s[i].book_id@),
        hist_map(s)[s[i].book_id@] == transfers_view(s[i].transfers@),
        hist_index(s, s[i].book_id@) == i,
{
    let k = s[i].book_id@;
    assert(hist_has_key(s, k));
    let j = hist_index(s, k);
    assert(0 <= j < s.len() && s[j].book_id@ == k);
    if i < j {
        assert(s[i].book_id@ != s[j].book_id@);
        assert(false);
    }
    if j < i {
        assert(s[j].book_id@ != s[i].book_id@);
        assert(false);
    }
}

proof fn lemma_hist_push(s: Seq<HistoryEntry>, e: HistoryEntry)
    requires
        hist_unique(s),
        !hist_has_key(s, e.book_id@),
    ensures
        hist_unique(s.push(e)),
        hist_map(s.push(e)) == hist_map(s).insert(e.book_id@, transfers_view(e.transfers@)),
{
    let s2 = s.push(e);
    let k0 = e.book_id@;
    assert forall|i: int, j: int| 0 <= i < j < s2.len() implies s2[i].book_id@ != s2[j].book_id@
    by {
        if j == s.len() {
            if s2[i].book_id@ == k0 {
                assert(s[i].book_id@ == k0);
                assert(hist_has_key(s, k0));
                assert(false);
            }
        }
    }
    let m1 = hist_map(s2);
    let m2 = hist_map(s).insert(k0, transfers_view(e.transfers@));
    assert(s2[s.len() as int].book_id@ == k0);
    assert forall|k: Seq<char>| #[trigger] m1.contains_key(k) == m2.contains_key(k) by {
        if hist_has_key(s2, k) {
            let i = hist_index(s2, k);
            assert(0 <= i < s2.len() && s2[i].book_id@ == k);
            if i < s.len() {
                assert(s[i].book_id@ == k);
                assert(hist_has_key(s, k));
            }
        }
        if hist_has_key(s, k) {
            let i = choose|i: int| 0 <= i < s.len() && s[i].book_id@ == k;
            assert(s2[i].book_id@ == k);
            assert(hist_has_key(s2, k));
        }
    }
    assert forall|k: Seq<char>| #[trigger] m1.contains_key(k) implies m1[k] == m2[k] by {
        let i = hist_index(s2, k);
        assert(0 <= i < s2.len() && s2[i].book_id@ == k);
        lemma_hist_at(s2, i);
        if k == k0 {
            if i < s.len() {
                assert(hist_has_key(s, k0));
                assert(false);
            }
        } else {
            assert(i < s.len());
            assert(s[i].book_id@ == k);
            lemma_hist_at(s, i);
            assert(s2[i].transfers@ == s[i].transfers@);
        }
    }
    assert(m1 =~= m2);
}

proof fn lemma_hist_update(s: Seq<HistoryEntry>, i: int, e: HistoryEntry)
    requires
        hist_unique(s),
        0 <= i < s.len(),
        e.book_id@ == s[i].book_id@,
    ensures
        hist_unique(s.update(i, e)),
        hist_map(s.update(i, e)) == hist_map(s).insert(e.book_id@, transfers_view(e.transfers@)),
{
    let s2 = s.update(i, e);
    let k0 = e.book_id@;
    assert forall|p: int, q: int| 0 <= p < q < s2.len() implies s2[p].book_id@ != s2[q].book_id@
    by {
        assert(s2[p].book_id@ == s[p].book_id@);
        assert(s2[q].book_id@ == s[q].book_id@);
    }
    let m1 = hist_map(s2);
    let m2 = hist_map(s).insert(k0, transfers_view(e.transfers@));
    assert(s[i].book_id@ == k0);
    assert(hist_has_key(s, k0));
    assert(s2[i].book_id@ == k0);
    assert forall|k: Seq<char>| #[trigger] m1.contains_key(k) == m2.contains_key(k) by {
        if hist_has_key(s2, k) {
            let p = hist_index(s2, k);
            assert(0 <= p < s2.len() && s2[p].book_id@ == k);
            assert(s[p].book_id@ == k);
            assert(hist_has_key(s, k));
        }
        if hist_has_key(s, k) {
            let p = choose|p: int| 0 <= p < s.len() && s[p].book_id@ == k;
            assert(s2[p].book_id@ == k);
            assert(hist_has_key(s2, k));
        }
    }
    assert forall|k: Seq<char>| #[trigger] m1.contains_key(k) implies m1[k] == m2[k] by {
        let p = hist_index(s2, k);
        assert(0 <= p < s2.len() && s2[p].book_id@ == k);
        lemma_hist_at(s2, p);
        if k == k0 {
            lemma_hist_at(s2, i);
            assert(p == i);
        } else {
            assert(p != i);
            assert(s[p].book_id@ == k);
            lemma_hist_at(s, p);
            assert(s2[p].transfers@ == s[p].transfers@);
        }
    }
    assert(m1 =~= m2);
}

proof fn lemma_owner_at(s: Seq<OwnerEntry>, i: int)
    requires
        owner_unique(s),
        0 <= i < s.len(),
    ensures
        owner_map(s).contains_key(s[i].owner),
        owner_map(s)[s[i].owner] == ids_view(s[i].book_ids@),
        owner_index(s, s[i].owner) == i,
{
    let k = s[i].owner;
    assert(owner_has_key(s, k));
    let j = owner_index(s, k);
    assert(0 <= j < s.len() && s[j].owner == k);
    if i < j {
        assert(s[i].owner != s[j].owner);
        assert(false);
    }
    if j < i {
        assert(s[j].owner != s[i].owner);
        assert(false);
    }
}

proof fn lemma_owner_push(s: Seq<OwnerEntry>, e: OwnerEntry)
    requires
        owner_unique(s),
        !owner_has_key(s, e.owner),
    ensures
        owner_unique(s.push(e)),
        owner_map(s.push(e)) == owner_map(s).insert(e.owner, ids_view(e.book_ids@)),
{
    let s2 = s.push(e);
    let k0 = e.owner;
    assert forall|i: int, j: int| 0 <= i < j < s2.len() implies s2[i].owner != s2[j].owner by {
        if j == s.len() {
            if s2[i].owner == k0 {
                assert(s[i].owner == k0);
                assert(owner_has_key(s, k0));
                assert(false);
            }
        }
    }
    let m1 = owner_map(s2);
    let m2 = owner_map(s).insert(k0, ids_view(e.book_ids@));
    assert(s2[s.len() as int].owner == k0);
    assert forall|k: AccountId| #[trigger] m1.contains_key(k) == m2.contains_key(k) by {
        if owner_has_key(s2, k) {
            let i = owner_index(s2, k);
            assert(0 <= i < s2.len() && s2[i].owner == k);
            if i < s.len() {
                assert(s[i].owner == k);
                assert(owner_has_key(s, k));
            }
        }
        if owner_has_key(s, k) {
            let i = choose|i: int| 0 <= i < s.len() && s[i].owner == k;
            assert(s2[i].owner == k);
            assert(owner_has_key(s2, k));
        }
    }
    assert forall|k: AccountId| #[trigger] m1.contains_key(k) implies m1[k] == m2[k] by {
        let i = owner_index(s2, k);
        assert(0 <= i < s2.len() && s2[i].owner == k);
        lemma_owner_at(s2, i);
        if k == k0 {
            if i < s.len() {
                assert(owner_has_key(s, k0));
                assert(false);
            }
        } else {
            assert(i < s.len());
            assert(s[i].owner == k);
            lemma_owner_at(s, i);
            assert(s2[i].book_ids@ == s[i].book_ids@);
        }
    }
    assert(m1 =~= m2);
}

proof fn lemma_owner_update(s: Seq<OwnerEntry>, i: int, e: OwnerEntry)
    requires
        owner_unique(s),
        0 <= i < s.len(),
        e.owner == s[i].owner,
    ensures
        owner_unique(s.update(i, e)),
        owner_map(s.update(i, e)) == owner_map(s).insert(e.owner, ids_view(e.book_ids@)),
{
    let s2 = s.update(i, e);
    let k0 = e.owner;
    assert forall|p: int, q: int| 0 <= p < q < s2.len() implies s2[p].owner != s2[q].owner by {
        assert(s2[p].owner == s[p].owner);
        assert(s2[q].owner == s[q].owner);
    }
    let m1 = owner_map(s2);
    let m2 = owner_map(s).insert(k0, ids_view(e.book_ids@));
    assert(s[i].owner == k0);
    assert(owner_has_key(s, k0));
    assert(s2[i].owner == k0);
    assert forall|k: AccountId| #[trigger] m1.contains_key(k) == m2.contains_key(k) by {
        if owner_has_key(s2, k) {
            let p = owner_index(s2, k);
            assert(0 <= p < s2.len() && s2[p].owner == k);
            assert(s[p].owner == k);
            assert(owner_has_key(s, k));
        }
        if owner_has_key(s, k) {
            let p = choose|p: int| 0 <= p < s.len() && s[p].owner == k;
            assert(s2[p].owner == k);
            assert(owner_has_key(s2, k));
        }
    }
    assert forall|k: AccountId| #[trigger] m1.contains_key(k) implies m1[k] == m2[k] by {
        let p = owner_index(s2, k);
        assert(0 <= p < s2.len() && s2[p].owner == k);
        lemma_owner_at(s2, p);
        if k == k0 {
            lemma_owner_at(s2, i);
            assert(p == i);
        } else {
            assert(p != i);
            assert(s[p].owner == k);
            lemma_owner_at(s, p);
            assert(s2[p].book_ids@ == s[p].book_ids@);
        }
    }
    assert(m1 =~= m2);
}

fn find_book_index(books: &Vec<Book>, id: &String) -> (result: Option<usize>)
    ensures
        match result {
            Some(i) => i < books@.len() && books@[i as int].book_id@ == id@,
            None => !books_has_key(books@, id@),
        },
{
    let mut i: usize = 0;
    while i < books.len()
        invariant
            i <= books@.len(),
            forall|j: int| 0 <= j < i ==> books@[j].book_id@ != id@,
        decreases books@.len() - i,
    {
        if books[i].book_id == *id {
            return Some(i);
        }
        i = i + 1;
    }
    None
}

fn find_hist_index(entries: &Vec<HistoryEntry>, id: &String) -> (result: Option<usize>)
    ensures
        match result {
            Some(i) => i < entries@.len() && entries@[i as int].book_id@ == id@,
            None => !hist_has_key(entries@, id@),
        },
{
    let mut i: usize = 0;
    while i < entries.len()
        invariant
            i <= entries@.len(),
            forall|j: int| 0 <= j < i ==> entries@[j].book_id@ != id@,
        decreases entries@.len() - i,
    {
        if entries[i].book_id == *id {
            return Some(i);
        }
        i = i + 1;
    }
    None
}

fn find_owner_index(entries: &Vec<OwnerEntry>, owner: AccountId) -> (result: Option<usize>)
    ensures
        match result {
            Some(i) => i < entries@.len() && entries@[i as int].owner == owner,
            None => !owner_has_key(entries@, owner),
        },
{
    let mut i: usize = 0;
    while i < entries.len()
        invariant
            i <= entries@.len(),
            forall|j: int| 0 <= j < i ==> entries@[j].owner != owner,
        decreases entries@.len() - i,
    {
        if entries[i].owner == owner {
            return Some(i);
        }
        i = i + 1;
    }
    None
}

/// A copy of `v` without every occurrence of `id`, the order of the rest
/// kept: the value-based removal the owner index uses.
fn remove_id(v: &Vec<String>, id: &String) -> (result: Vec<String>)
    ensures
        result@.map_values(|x: String| x@) == remove_all(v@.map_values(|x: String| x@), id@),
{
    let ghost target = v@.map_values(|x: String| x@);
    let mut out: Vec<String> = Vec::new();
    let mut i: usize = 0;
    proof {
        assert(target.take(0) =~= Seq::<Seq<char>>::empty());
    }
    while i < v.len()
        invariant
            i <= v@.len(),
            target == v@.map_values(|x: String| x@),
            out@.map_values(|x: String| x@) == remove_all(target.take(i as int), id@),
        decreases v@.len() - i,
    {
        proof {
            assert(target.take(i as int + 1).drop_last() =~= target.take(i as int));
            assert(target.take(i as int + 1).last() == target[i as int]);
            assert(target[i as int] == v@[i as int]@);
        }
        if v[i] == *id {
            proof {
                assert(remove_all(target.take(i as int + 1), id@) == remove_all(
                    target.take(i as int),
                    id@,
                ));
            }
        } else {
            out.push(v[i].clone());
            proof {
                assert(out@.map_values(|x: String| x@) =~= remove_all(
                    target.take(i as int),
                    id@,
                ).push(target[i as int]));
                assert(remove_all(target.take(i as int + 1), id@) == remove_all(
                    target.take(i as int),
                    id@,
                ).push(target[i as int]));
            }
        }
        i = i + 1;
    }
    proof {
        assert(target.take(v@.len() as int) =~= target);
    }
    out
}

/// The provenance registry: the book catalog, the per-book transfer history,
/// and the per-owner inventory index, under a pause flag owned by a single
/// administrator.
pub struct BookTraceability {
    books: Vec<Book>,
    transfer_history: Vec<HistoryEntry>,
    books_by_owner: Vec<OwnerEntry>,
    total_books: u32,
    owner: AccountId,
    paused: bool,
}

impl View for BookTraceability {
    type V = RegistryModel;

    closed spec fn view(&self) -> RegistryModel {
        RegistryModel {
            books: books_map(self.books@),
            history: hist_map(self.transfer_history@),
            owned: owner_map(self.books_by_owner@),
            total_books: self.total_books,
            admin: self.owner,
            paused: self.paused,
        }
    }
}

impl BookTraceability {
    /// Each stored vector holds any one key at most once.
    pub closed spec fn keys_unique(&self) -> bool {
        &&& books_unique(self.books@)
        &&& hist_unique(self.transfer_history@)
        &&& owner_unique(self.books_by_owner@)
    }

    /// Well-formedness: the stored keys are unique and the abstract state
    /// satisfies the registry invariant. `new` establishes it and every
    /// operation preserves it.
    pub open spec fn wf(&self) -> bool {
        self.keys_unique() && inv(self@)
    }

    /// A fresh registry administered by `admin`: no books, no history, no
    /// inventories, not paused.
    pub fn new(admin: AccountId) -> (result: BookTraceability)
        ensures
            result.wf(),
            result@ == init(admin),
    {
        let result = BookTraceability {
            books: Vec::new(),
            transfer_history: Vec::new(),
            books_by_owner: Vec::new(),
            total_books: 0,
            owner: admin,
            paused: false,
        };
        proof {
            assert(result@.books =~= init(admin).books);
            assert(result@.history =~= init(admin).history);
            assert(result@.owned =~= init(admin).owned);
            assert(result@ =~= init(admin));
        }
        result
    }

    /// How many registrations have succeeded so far (saturating at
    /// `u32::MAX`).
    pub fn get_total_books(&self) -> (result: u32)
        ensures
            result == self@.total_books,
    {
        self.total_books
    }

    /// Whether mutating book operations are currently rejected.
    pub fn is_paused(&self) -> (result: bool)
        ensures
            result == self@.paused,
    {
        self.paused
    }

    /// Whether `address` is the current owner of the registered book
    /// `book_id`; `false` for a book that was never registered.
    pub fn verify_ownership(&self, book_id: String, address: AccountId) -> (result: bool)
        requires
            self.wf(),
        ensures
            result == owns(self@, book_id@, address),
    {
        match find_book_index(&self.books, &book_id) {
            Some(i) => {
                proof {
                    lemma_books_at(self.books@, i as int);
                }
                self.books[i].current_owner == address
            },
            None => false,
        }
    }

    /// The registered book named `book_id`, or `None` when the id was never
    /// registered.
    pub fn get_book(&self, book_id: String) -> (result: Option<Book>)
        requires
            self.wf(),
        ensures
            match result {
                Some(b) => self@.books.contains_key(book_id@) && b@ == self@.books[book_id@],
                None => !self@.books.contains_key(book_id@),
            },
    {
        match find_book_index(&self.books, &book_id) {
            Some(i) => {
                proof {
                    lemma_books_at(self.books@, i as int);
                }
                let b = &self.books[i];
                Some(
                    Book {
                        book_id: b.book_id.clone(),
                        isbn: b.isbn.clone(),
                        title: b.title.clone(),
                        author: b.author.clone(),
                        current_owner: b.current_owner,
                        original_owner: b.original_owner,
                        registration_timestamp: b.registration_timestamp,
                        metadata: b.metadata.clone(),
                        transfer_count: b.transfer_count,
                    },
                )
            },
            None => None,
        }
    }

    /// The transfer history of `book_id` in chronological order; empty for a
    /// book that was never registered or never transferred.
    pub fn get_transfer_history(&self, book_id: String) -> (result: Vec<Transfer>)
        requires
            self.wf(),
        ensures
            result@.map_values(|t: Transfer| t@) == history_of(self@, book_id@),
    {
        match find_hist_index(&self.transfer_history, &book_id) {
            Some(i) => {
                proof {
                    lemma_hist_at(self.transfer_history@, i as int);
                }
                let stored = &self.transfer_history[i].transfers;
                let mut out: Vec<Transfer> = Vec::new();
                let mut j: usize = 0;
                while j < stored.len()
                    invariant
                        j <= stored@.len(),
                        out@.len() == j,
                        forall|q: int| 0 <= q < j ==> out@[q]@ == stored@[q]@,
                    decreases stored@.len() - j,
                {
                    let t = &stored[j];
                    out.push(
                        Transfer {
                            from: t.from,
                            to: t.to,
                            timestamp: t.timestamp,
                            notes: t.notes.clone(),
                        },
                    );
                    j = j + 1;
                }
                proof {
                    assert(out@.map_values(|t: Transfer| t@) =~= transfers_view(stored@));
                }
                out
            },
            None => {
                let out: Vec<Transfer> = Vec::new();
                proof {
                    assert(out@.map_values(|t: Transfer| t@) =~= history_of(self@, book_id@));
                }
                out
            },
        }
    }

    /// The ids currently attributed to `owner`, in the order they were
    /// received; empty for a principal that holds nothing. Every id returned
    /// names a registered book whose current owner is `owner`.
    pub fn get_books_by_owner(&self, owner: AccountId) -> (result: Vec<String>)
        requires
            self.wf(),
        ensures
            result@.map_values(|x: String| x@) == owned_of(self@, owner),
            forall|q: int| 0 <= q < result@.len() ==> owns(self@, result@[q]@, owner),
    {
        let result = match find_owner_index(&self.books_by_owner, owner) {
            Some(i) => {
                proof {
                    lemma_owner_at(self.books_by_owner@, i as int);
                }
                let stored = &self.books_by_owner[i].book_ids;
                let mut out: Vec<String> = Vec::new();
                let mut j: usize = 0;
                while j < stored.len()
                    invariant
                        j <= stored@.len(),
                        out@.len() == j,
                        forall|q: int| 0 <= q < j ==> out@[q]@ == stored@[q]@,
                    decreases stored@.len() - j,
                {
                    out.push(stored[j].clone());
                    j = j + 1;
                }
                proof {
                    assert(out@.map_values(|x: String| x@) =~= ids_view(stored@));
                }
                out
            },
            None => {
                let out: Vec<String> = Vec::new();
                proof {
                    assert(out@.map_values(|x: String| x@) =~= owned_of(self@, owner));
                }
                out
            },
        };
        proof {
            assert forall|q: int| 0 <= q < result@.len() implies owns(
                self@,
                result@[q]@,
                owner,
            ) by {
                assert(owned_of(self@, owner)[q] == result@[q]@);
                assert(owned_of(self@, owner).contains(result@[q]@));
            }
        }
        result
    }

    /// Register a new book under the fresh id `book_id`. On success the
    /// caller becomes both current and original owner, the caller's inventory
    /// grows by the id, the registration count rises, and the returned
    /// notification describes the registration; a registry that is paused or
    /// already knows the id rejects the call unchanged.
    pub fn register_book(
        &mut self,
        caller: AccountId,
        now: Timestamp,
        book_id: String,
        isbn: String,
        title: String,
        author: String,
        metadata: String,
    ) -> (result: Result<BookRegistered, Error>)
        requires
            old(self).wf(),
        ensures
            final(self).wf(),
            final(self)@ == register_post(
                old(self)@,
                caller,
                now,
                book_id@,
                isbn@,
                title@,
                author@,
                metadata@,
            ),
            match result {
                Ok(ev) => register_outcome(old(self)@, book_id@) is Ok && ev.book_id@ == book_id@
                    && ev.owner == caller && ev.title@ == title@ && ev.timestamp == now,
                Err(e) => register_outcome(old(self)@, book_id@) == Err::<(), Error>(e),
            },
    {
        if self.paused {
            return Err(Error::ContractPaused);
        }
        match find_book_index(&self.books, &book_id) {
            Some(i) => {
                proof {
                    assert(self.books@[i as int].book_id@ == book_id@);
                    assert(books_has_key(self.books@, book_id@));
                }
                return Err(Error::BookAlreadyExists);
            },
            None => {},
        }
        let book = Book {
            book_id: book_id.clone(),
            isbn,
            title: title.clone(),
            author,
            current_owner: caller,
            original_owner: caller,
            registration_timestamp: now,
            metadata,
            transfer_count: 0,
        };
        proof {
            lemma_books_push(self.books@, book);
        }
        self.books.push(book);
        let ghost owners0 = self.books_by_owner@;
        match find_owner_index(&self.books_by_owner, caller) {
            Some(i) => {
                proof {
                    lemma_owner_at(owners0, i as int);
                }
                let mut entry = self.books_by_owner.remove(i);
                entry.book_ids.push(book_id.clone());
                proof {
                    assert(ids_view(entry.book_ids@) =~= ids_view(owners0[i as int].book_ids@).push(
                        book_id@,
                    ));
                    lemma_owner_update(owners0, i as int, entry);
                }
                self.books_by_owner.insert(i, entry);
                proof {
                    assert(self.books_by_owner@ =~= owners0.update(i as int, entry));
                }
            },
            None => {
                let mut ids: Vec<String> = Vec::new();
                ids.push(book_id.clone());
                let entry = OwnerEntry { owner: caller, book_ids: ids };
                proof {
                    assert(ids_view(entry.book_ids@) =~= owned_of(old(self)@, caller).push(
                        book_id@,
                    ));
                    lemma_owner_push(owners0, entry);
                }
                self.books_by_owner.push(entry);
            },
        }
        self.total_books = self.total_books.saturating_add(1);
        proof {
            crate::model::lemma_register_preserves_inv(
                old(self)@,
                caller,
                now,
                book_id@,
                isbn@,
                title@,
                author@,
                metadata@,
            );
            assert(self@ =~= register_post(
                old(self)@,
                caller,
                now,
                book_id@,
                isbn@,
                title@,
                author@,
                metadata@,
            ));
        }
        Ok(BookRegistered { book_id, owner: caller, title, timestamp: now })
    }

    /// Transfer `book_id` from the caller to `new_owner`. Only the current
    /// owner may, and not to itself; a paused registry or an unknown id is
    /// rejected, and every rejection leaves the registry unchanged. On
    /// success a transfer record is appended to the book's history, the id
    /// moves from the caller's inventory to the new owner's, the book's owner
    /// and transfer count are updated, and the returned notification
    /// describes the transfer.
    pub fn transfer_ownership(
        &mut self,
        caller: AccountId,
        now: Timestamp,
        book_id: String,
        new_owner: AccountId,
        notes: String,
    ) -> (result: Result<BookOwnershipTransferred, Error>)
        requires
            old(self).wf(),
        ensures
            final(self).wf(),
            final(self)@ == transfer_post(old(self)@, caller, now, book_id@, new_owner, notes@),
            match result {
                Ok(ev) => transfer_outcome(old(self)@, caller, book_id@, new_owner) is Ok
                    && ev.book_id@ == book_id@ && ev.from == caller && ev.to == new_owner
                    && ev.timestamp == now,
                Err(e) => transfer_outcome(old(self)@, caller, book_id@, new_owner) == Err::<
                    (),
                    Error,
                >(e),
            },
    {
        if self.paused {
            return Err(Error::ContractPaused);
        }
        let idx = match find_book_index(&self.books, &book_id) {
            Some(i) => i,
            None => {
                return Err(Error::BookNotFound);
            },
        };
        proof {
            lemma_books_at(self.books@, idx as int);
        }
        if self.books[idx].current_owner != caller {
            return Err(Error::NotBookOwner);
        }
        if new_owner == caller {
            return Err(Error::InvalidTransfer);
        }
        let ghost m = old(self)@;
        let ghost tm = TransferModel { from: caller, to: new_owner, timestamp: now, notes: notes@ };
        let transfer = Transfer { from: caller, to: new_owner, timestamp: now, notes };
        let ghost hist0 = self.transfer_history@;
        match find_hist_index(&self.transfer_history, &book_id) {
            Some(h) => {
                proof {
                    lemma_hist_at(hist0, h as int);
                }
                let mut he = self.transfer_history.remove(h);
                he.transfers.push(transfer);
                proof {
                    assert(transfers_view(he.transfers@) =~= transfers_view(
                        hist0[h as int].transfers@,
                    ).push(tm));
                    lemma_hist_update(hist0, h as int, he);
                }
                self.transfer_history.insert(h, he);
                proof {
                    assert(self.transfer_history@ =~= hist0.update(h as int, he));
                }
            },
            None => {
                let mut ts: Vec<Transfer> = Vec::new();
                ts.push(transfer);
                let he = HistoryEntry { book_id: book_id.clone(), transfers: ts };
                proof {
                    assert(transfers_view(he.transfers@) =~= history_of(m, book_id@).push(tm));
                    lemma_hist_push(hist0, he);
                }
                self.transfer_history.push(he);
            },
        }
        proof {
            assert(hist_map(self.transfer_history@) == m.history.insert(
                book_id@,
                history_of(m, book_id@).push(tm),
            ));
        }
        let ghost owners0 = self.books_by_owner@;
        match find_owner_index(&self.books_by_owner, caller) {
            Some(ci) => {
                proof {
                    lemma_owner_at(owners0, ci as int);
                }
                let ce = self.books_by_owner.remove(ci);
                let new_ids = remove_id(&ce.book_ids, &book_id);
                let ce2 = OwnerEntry { owner: ce.owner, book_ids: new_ids };
                proof {
                    lemma_owner_update(owners0, ci as int, ce2);
                }
                self.books_by_owner.insert(ci, ce2);
                proof {
                    assert(self.books_by_owner@ =~= owners0.update(ci as int, ce2));
                }
            },
            None => {
                let ce2 = OwnerEntry { owner: caller, book_ids: Vec::new() };
                proof {
                    assert(ids_view(ce2.book_ids@) =~= remove_all(owned_of(m, caller), book_id@));
                    lemma_owner_push(owners0, ce2);
                }
                self.books_by_owner.push(ce2);
            },
        }
        proof {
            assert(owner_map(self.books_by_owner@) == m.owned.insert(
                caller,
                remove_all(owned_of(m, caller), book_id@),
            ));
        }
        let ghost owners1 = self.books_by_owner@;
        match find_owner_index(&self.books_by_owner, new_owner) {
            Some(ni) => {
                proof {
                    lemma_owner_at(owners1, ni as int);
                    assert(ids_view(owners1[ni as int].book_ids@) == owned_of(m, new_owner));
                }
                let mut ne = self.books_by_owner.remove(ni);
                ne.book_ids.push(book_id.clone());
                proof {
                    assert(ids_view(ne.book_ids@) =~= ids_view(owners1[ni as int].book_ids@).push(
                        book_id@,
                    ));
                    lemma_owner_update(owners1, ni as int, ne);
                }
                self.books_by_owner.insert(ni, ne);
                proof {
                    assert(self.books_by_owner@ =~= owners1.update(ni as int, ne));
                }
            },
            None => {
                let mut ids: Vec<String> = Vec::new();
                ids.push(book_id.clone());
                let ne = OwnerEntry { owner: new_owner, book_ids: ids };
                proof {
                    assert(!owner_map(owners1).contains_key(new_owner));
                    assert(owner_map(owners1) == m.owned.insert(
                        caller,
                        remove_all(owned_of(m, caller), book_id@),
                    ));
                    assert(!m.owned.contains_key(new_owner));
                    assert(ids_view(ne.book_ids@) =~= owned_of(m, new_owner).push(book_id@));
                    lemma_owner_push(owners1, ne);
                }
                self.books_by_owner.push(ne);
            },
        }
        let ghost books0 = self.books@;
        let ob = self.books.remove(idx);
        let nb = Book {
            current_owner: new_owner,
            transfer_count: ob.transfer_count.saturating_add(1),
            ..ob
        };
        proof {
            lemma_books_update(books0, idx as int, nb);
        }
        self.books.insert(idx, nb);
        proof {
            assert(self.books@ =~= books0.update(idx as int, nb));
            crate::model::lemma_transfer_preserves_inv(m, caller, now, book_id@, new_owner, notes@);
            assert(self@ =~= transfer_post(m, caller, now, book_id@, new_owner, notes@));
        }
        Ok(BookOwnershipTransferred { book_id, from: caller, to: new_owner, timestamp: now })
    }

    /// Overwrite the metadata of `book_id`. Only the current owner may; a
    /// paused registry, an unknown id, or another caller is rejected
    /// unchanged. On success only the book's metadata changes and the
    /// returned notification names the updating principal.
    pub fn update_metadata(
        &mut self,
        caller: AccountId,
        now: Timestamp,
        book_id: String,
        metadata: String,
    ) -> (result: Result<BookMetadataUpdated, Error>)
        requires
            old(self).wf(),
        ensures
            final(self).wf(),
            final(self)@ == update_post(old(self)@, caller, book_id@, metadata@),
            match result {
                Ok(ev) => update_outcome(old(self)@, caller, book_id@) is Ok && ev.book_id@
                    == book_id@ && ev.updated_by == caller && ev.timestamp == now,
                Err(e) => update_outcome(old(self)@, caller, book_id@) == Err::<(), Error>(e),
            },
    {
        if self.paused {
            return Err(Error::ContractPaused);
        }
        let idx = match find_book_index(&self.books, &book_id) {
            Some(i) => i,
            None => {
                return Err(Error::BookNotFound);
            },
        };
        proof {
            lemma_books_at(self.books@, idx as int);
        }
        if self.books[idx].current_owner != caller {
            return Err(Error::NotBookOwner);
        }
        let ghost books0 = self.books@;
        let old_book = self.books.remove(idx);
        let new_book = Book { metadata, ..old_book };
        proof {
            lemma_books_update(books0, idx as int, new_book);
        }
        self.books.insert(idx, new_book);
        proof {
            assert(self.books@ =~= books0.update(idx as int, new_book));
            crate::model::lemma_update_preserves_inv(old(self)@, caller, book_id@, metadata@);
            assert(self@ =~= update_post(old(self)@, caller, book_id@, metadata@));
        }
        Ok(BookMetadataUpdated { book_id, updated_by: caller, timestamp: now })
    }

    /// Pause the registry. Only the administrator may; every caller else is
    /// rejected with `OnlyContractOwner` and nothing changes.
    pub fn pause(&mut self, caller: AccountId) -> (result: Result<(), Error>)
        requires
            old(self).wf(),
        ensures
            final(self).wf(),
            final(self)@ == set_paused_post(old(self)@, caller, true),
            result == admin_outcome(old(self)@, caller),
    {
        if caller != self.owner {
            return Err(Error::OnlyContractOwner);
        }
        self.paused = true;
        proof {
            crate::model::lemma_set_paused_preserves_inv(old(self)@, caller, true);
            assert(self@ =~= set_paused_post(old(self)@, caller, true));
        }
        Ok(())
    }

    /// Unpause the registry. Only the administrator may; every caller else is
    /// rejected with `OnlyContractOwner` and nothing changes.
    pub fn unpause(&mut self, caller: AccountId) -> (result: Result<(), Error>)
        requires
            old(self).wf(),
        ensures
            final(self).wf(),
            final(self)@ == set_paused_post(old(self)@, caller, false),
            result == admin_outcome(old(self)@, caller),
    {
        if caller != self.owner {
            return Err(Error::OnlyContractOwner);
        }
        self.paused = false;
        proof {
            crate::model::lemma_set_paused_preserves_inv(old(self)@, caller, false);
            assert(self@ =~= set_paused_post(old(self)@, caller, false));
        }
        Ok(())
    }
}

} // verus!
