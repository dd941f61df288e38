//! The persistent store's logic: a table of entries keyed by `guid`, each
//! with a read/unread flag. Insertion deduplicates on `guid` (first write
//! wins, later writes for the same `guid` are silently discarded), and
//! marking an entry read excludes it from every later unread query.
//!
//! This module owns the rules; the embedding application mirrors the rows
//! into whatever durable medium it uses.

use vstd::prelude::*;

use crate::feed::Entry;

verus! {

/// One stored row: an entry together with its read flag. Entries are
/// created unread and flipped to read exactly once.
#[derive(Debug)]
pub struct StoredEntry {
    pub entry: Entry,
    pub read: bool,
}

impl Clone for StoredEntry {
    fn clone(&self) -> (r: Self)
        ensures
            r == *self,
    {
        StoredEntry { entry: self.entry.clone(), read: self.read }
    }
}

/// Some row of `rows` carries the guid `g`.
pub open spec fn has_guid(rows: Seq<StoredEntry>, g: Seq<char>) -> bool {
    exists|i: int| 0 <= i < rows.len() && rows[i].entry.guid@ == g
}

/// Guids are unique across the rows: the store's invariant.
pub open spec fn wf_rows(rows: Seq<StoredEntry>) -> bool {
    forall|i: int, j: int|
        0 <= i < j < rows.len() ==> rows[i].entry.guid@ != rows[j].entry.guid@
}

/// Insert one row if its guid is absent; keep the rows unchanged otherwise.
pub open spec fn insert_row(rows: Seq<StoredEntry>, row: StoredEntry) -> Seq<StoredEntry> {
    if has_guid(rows, row.entry.guid@) {
        rows
    } else {
        rows.push(row)
    }
}

/// Insert a batch of entries in order, each unread, deduplicating on guid
/// both against the existing rows and within the batch itself.
pub open spec fn insert_all(rows: Seq<StoredEntry>, items: Seq<Entry>) -> Seq<StoredEntry>
    decreases items.len(),
{
    if items.len() == 0 {
        rows
    } else {
        insert_row(insert_all(rows, items.drop_last()), StoredEntry { entry: items.last(), read: false })
    }
}

/// Load a batch of rows (read flags included) in order, deduplicating on guid.
pub open spec fn load_all(rows: Seq<StoredEntry>, given: Seq<StoredEntry>) -> Seq<StoredEntry>
    decreases given.len(),
{
    if given.len() == 0 {
        rows
    } else {
        insert_row(load_all(rows, given.drop_last()), given.last())
    }
}

/// Set the read flag on every row carrying the guid `g`; all other rows are
/// untouched and the order is kept.
pub open spec fn mark_read(rows: Seq<StoredEntry>, g: Seq<char>) -> Seq<StoredEntry> {
    Seq::new(
        rows.len(),
        |i: int|
            if rows[i].entry.guid@ == g {
                StoredEntry { entry: rows[i].entry, read: true }
            } else {
                rows[i]
            },
    )
}

/// The entries of the unread rows, in storage order.
pub open spec fn unread(rows: Seq<StoredEntry>) -> Seq<Entry>
    decreases rows.len(),
{
    if rows.len() == 0 {
        Seq::<Entry>::empty()
    } else {
        unread(rows.drop_last()) + (if !rows.last().read {
            seq![rows.last().entry]
        } else {
            Seq::<Entry>::empty()
        })
    }
}

/// How many rows carry the guid `g`.
pub open spec fn count_guid(rows: Seq<StoredEntry>, g: Seq<char>) -> nat
    decreases rows.len(),
{
    if rows.len() == 0 {
        0
    } else {
        count_guid(rows.drop_last(), g) + (if rows.last().entry.guid@ == g {
            1nat
        } else {
            0nat
        })
    }
}

/// The local store of every known entry, deduplicated by guid, each row
/// flagged read or unread. The authoritative copy of an entry lives here
/// once inserted; queries hand out transient copies.
pub struct Store {
    rows: Vec<StoredEntry>,
}

impl View for Store {
    type V = Seq<StoredEntry>;

    closed spec fn view(&self) -> Seq<StoredEntry> {
        self.rows@
    }
}

impl Store {
    /// The store's invariant: no two rows share a guid.
    pub open spec fn wf(&self) -> bool {
        wf_rows(self@)
    }

    /// An empty store, as a freshly created database starts out.
    pub fn new() -> (s: Store)
        ensures
            s.wf(),
            s@ == Seq::<StoredEntry>::empty(),
    {
        Store { rows: Vec::new() }
    }

    /// Rebuild a store from previously persisted rows, keeping their read
    /// flags. A row whose guid was already loaded is dropped, so the
    /// invariant holds even over an untrusted row source.
    pub fn from_rows(given: Vec<StoredEntry>) -> (s: Store)
        ensures
            s.wf(),
            s@ == load_all(Seq::<StoredEntry>::empty(), given@),
    {
        let mut s = Store { rows: Vec::new() };
        let n = given.len();
        let mut i: usize = 0;
        while i < n
            invariant
                n == given@.len(),
                i <= n,
                wf_rows(s.rows@),
                s.rows@ == load_all(Seq::<StoredEntry>::empty(), given@.take(i as int)),
            decreases n - i,
        {
            let row = given[i].clone();
            proof {
                assert(given@.take(i + 1).drop_last() =~= given@.take(i as int));
                lemma_insert_row_wf(s.rows@, row);
            }
            if !contains_guid(&s.rows, &row.entry.guid) {
                s.rows.push(row);
            }
            i += 1;
        }
        proof {
            assert(given@.take(n as int) =~= given@);
        }
        s
    }

    /// The rows as stored, for the embedding application to persist.
    pub fn rows(&self) -> (r: &Vec<StoredEntry>)
        ensures
            r@ == self@,
    {
        &self.rows
    }
}

/// Whether some stored row carries the guid `g`.
fn contains_guid(rows: &Vec<StoredEntry>, g: &String) -> (r: bool)
    ensures
        r == has_guid(rows@, g@),
{
    let n = rows.len();
    let mut i: usize = 0;
    while i < n
        invariant
            n == rows@.len(),
            i <= n,
            forall|k: int| 0 <= k < i ==> rows@[k].entry.guid@ != g@,
        decreases n - i,
    {
        if rows[i].entry.guid == *g {
            return true;
        }
        i += 1;
    }
    false
}

/// Insert each entry, unread, skipping any whose `guid` is already present:
/// first write wins, a duplicate is silently discarded, never an update.
/// The store only ever grows and no existing row is overwritten.
pub fn insert_new_entries(store: &mut Store, items: Vec<Entry>)
    requires
        old(store).wf(),
    ensures
        final(store).wf(),
        final(store)@ == insert_all(old(store)@, items@),
{
    let n = items.len();
    let mut i: usize = 0;
    while i < n
        invariant
            n == items@.len(),
            i <= n,
            wf_rows(store.rows@),
            store.rows@ == insert_all(old(store)@, items@.take(i as int)),
        decreases n - i,
    {
        let row = StoredEntry { entry: items[i].clone(), read: false };
        proof {
            assert(items@.take(i + 1).drop_last() =~= items@.take(i as int));
            lemma_insert_row_wf(store.rows@, row);
        }
        if !contains_guid(&store.rows, &row.entry.guid) {
            store.rows.push(row);
        }
        i += 1;
    }
    proof {
        assert(items@.take(n as int) =~= items@);
    }
}

/// Every entry whose row is still unread, in storage order. Marked rows are
/// excluded; nothing is removed from the store itself.
pub fn get_unread_entries(store: &Store) -> (r: Vec<Entry>)
    ensures
        r@ == unread(store@),
{
    let rows = &store.rows;
    let n = rows.len();
    let mut res: Vec<Entry> = Vec::new();
    let mut i: usize = 0;
    while i < n
        invariant
            n == rows@.len(),
            i <= n,
            res@ == unread(rows@.take(i as int)),
        decreases n - i,
    {
        proof {
            assert(rows@.take(i + 1).drop_last() =~= rows@.take(i as int));
        }
        if !rows[i].read {
            res.push(rows[i].entry.clone());
        }
        i += 1;
    }
    proof {
        assert(rows@.take(n as int) =~= rows@);
    }
    res
}

/// Set `read` on the row matching `guid`. A guid that matches no row is an
/// idempotent no-op, not an error; the row order and every other row are
/// untouched.
pub fn mark_entry_as_read(store: &mut Store, guid: &String)
    requires
        old(store).wf(),
    ensures
        final(store).wf(),
        final(store)@ == mark_read(old(store)@, guid@),
{
    let n = store.rows.len();
    let mut i: usize = 0;
    while i < n
        invariant
            n == store.rows@.len(),
            i <= n,
            store.rows@.len() == old(store)@.len(),
            forall|k: int| 0 <= k < i ==> store.rows@[k] == mark_read(old(store)@, guid@)[k],
            forall|k: int| i <= k < n ==> store.rows@[k] == old(store)@[k],
        decreases n - i,
    {
        if store.rows[i].entry.guid == *guid {
            let e = store.rows[i].entry.clone();
            store.rows[i] = StoredEntry { entry: e, read: true };
        }
        i += 1;
    }
    proof {
        assert(store.rows@ =~= mark_read(old(store)@, guid@));
        lemma_mark_read_wf(old(store)@, guid@);
    }
}

/// Inserting a row whose guid is fresh, or skipping one whose guid is
/// taken, keeps the guids unique.
proof fn lemma_insert_row_wf(rows: Seq<StoredEntry>, row: StoredEntry)
    requires
        wf_rows(rows),
    ensures
        wf_rows(insert_row(rows, row)),
{
    if !has_guid(rows, row.entry.guid@) {
        let pushed = rows.push(row);
        assert forall|i: int, j: int| 0 <= i < j < pushed.len() implies pushed[i].entry.guid@
            != pushed[j].entry.guid@ by {
            if j < rows.len() {
            } else {
                assert(pushed[j] == row);
                assert(!(rows[i].entry.guid@ == row.entry.guid@));
            }
        }
    }
}

/// Inserting a row leaves every previously present guid present, and makes
/// the row's own guid present.
proof fn lemma_insert_row_has_guid(rows: Seq<StoredEntry>, row: StoredEntry, g: Seq<char>)
    ensures
        has_guid(insert_row(rows, row), g) == (has_guid(rows, g) || row.entry.guid@ == g),
{
    if !has_guid(rows, row.entry.guid@) {
        let pushed = rows.push(row);
        if has_guid(rows, g) {
            let i = choose|i: int| 0 <= i < rows.len() && rows[i].entry.guid@ == g;
            assert(pushed[i].entry.guid@ == g);
        }
        if row.entry.guid@ == g {
            assert(pushed[rows.len() as int].entry.guid@ == g);
        }
        if has_guid(pushed, g) {
            let i = choose|i: int| 0 <= i < pushed.len() && pushed[i].entry.guid@ == g;
            if i < rows.len() {
                assert(rows[i].entry.guid@ == g);
            }
        }
    }
}

/// A guid is present after a batch insert exactly when it was present
/// before or some entry of the batch carries it.
proof fn lemma_insert_all_has_guid(rows: Seq<StoredEntry>, items: Seq<Entry>, g: Seq<char>)
    ensures
        has_guid(insert_all(rows, items), g) == (has_guid(rows, g) || exists|k: int|
            0 <= k < items.len() && items[k].guid@ == g),
    decreases items.len(),
{
    if items.len() != 0 {
        let prefix = items.drop_last();
        lemma_insert_all_has_guid(rows, prefix, g);
        lemma_insert_row_has_guid(
            insert_all(rows, prefix),
            StoredEntry { entry: items.last(), read: false },
            g,
        );
        if exists|k: int| 0 <= k < items.len() && items[k].guid@ == g {
            let k = choose|k: int| 0 <= k < items.len() && items[k].guid@ == g;
            if k < prefix.len() {
                assert(prefix[k].guid@ == g);
            }
        }
        if exists|k: int| 0 <= k < prefix.len() && prefix[k].guid@ == g {
            let k = choose|k: int| 0 <= k < prefix.len() && prefix[k].guid@ == g;
            assert(items[k].guid@ == g);
        }
    }
}

/// A batch whose guids are all taken already changes nothing.
proof fn lemma_insert_all_noop(rows: Seq<StoredEntry>, items: Seq<Entry>)
    requires
        forall|k: int| 0 <= k < items.len() ==> has_guid(rows, #[trigger] items[k].guid@),
    ensures
        insert_all(rows, items) == rows,
    decreases items.len(),
{
    if items.len() != 0 {
        let prefix = items.drop_last();
        assert(forall|k: int| 0 <= k < prefix.len() ==> #[trigger] prefix[k] == items[k]);
        lemma_insert_all_noop(rows, prefix);
        assert(has_guid(rows, items.last().guid@));
    }
}

/// A guid is present exactly when at least one row counts for it.
proof fn lemma_count_guid_has(rows: Seq<StoredEntry>, g: Seq<char>)
    ensures
        has_guid(rows, g) == (count_guid(rows, g) >= 1),
    decreases rows.len(),
{
    if rows.len() != 0 {
        let prefix = rows.drop_last();
        lemma_count_guid_has(prefix, g);
        if has_guid(rows, g) {
            let i = choose|i: int| 0 <= i < rows.len() && rows[i].entry.guid@ == g;
            if i < prefix.len() {
                assert(prefix[i].entry.guid@ == g);
            }
        }
        if has_guid(prefix, g) {
            let i = choose|i: int| 0 <= i < prefix.len() && prefix[i].entry.guid@ == g;
            assert(rows[i].entry.guid@ == g);
        }
    }
}

/// Under the uniqueness invariant no guid counts for more than one row.
proof fn lemma_wf_count_guid(rows: Seq<StoredEntry>, g: Seq<char>)
    requires
        wf_rows(rows),
    ensures
        count_guid(rows, g) <= 1,
    decreases rows.len(),
{
    if rows.len() != 0 {
        let prefix = rows.drop_last();
        assert(wf_rows(prefix)) by {
            assert(forall|k: int| 0 <= k < prefix.len() ==> #[trigger] prefix[k] == rows[k]);
        }
        lemma_wf_count_guid(prefix, g);
        if rows.last().entry.guid@ == g {
            assert(!has_guid(prefix, g)) by {
                if has_guid(prefix, g) {
                    let i = choose|i: int| 0 <= i < prefix.len() && prefix[i].entry.guid@ == g;
                    assert(rows[i].entry.guid@ == rows[rows.len() - 1].entry.guid@);
                }
            }
            lemma_count_guid_has(prefix, g);
        }
    }
}

/// A batch insert keeps the uniqueness invariant.
proof fn lemma_insert_all_wf(rows: Seq<StoredEntry>, items: Seq<Entry>)
    requires
        wf_rows(rows),
    ensures
        wf_rows(insert_all(rows, items)),
    decreases items.len(),
{
    if items.len() != 0 {
        lemma_insert_all_wf(rows, items.drop_last());
        lemma_insert_row_wf(
            insert_all(rows, items.drop_last()),
            StoredEntry { entry: items.last(), read: false },
        );
    }
}

/// Dedup idempotence: against a store with unique guids, inserting a batch
/// a second time changes nothing — the store holds the same rows, each
/// inserted guid is carried by exactly one row, and the unread view is the
/// same before and after the repeated insert.
pub proof fn lemma_insert_new_idempotent(rows: Seq<StoredEntry>, items: Seq<Entry>)
    requires
        wf_rows(rows),
    ensures
        insert_all(insert_all(rows, items), items) == insert_all(rows, items),
        forall|k: int| 0 <= k < items.len() ==> count_guid(
            insert_all(rows, items),
            #[trigger] items[k].guid@,
        ) == 1,
        unread(insert_all(insert_all(rows, items), items)) == unread(insert_all(rows, items)),
{
    let once = insert_all(rows, items);
    assert forall|k: int| 0 <= k < items.len() implies has_guid(
        once,
        #[trigger] items[k].guid@,
    ) by {
        lemma_insert_all_has_guid(rows, items, items[k].guid@);
    }
    lemma_insert_all_noop(once, items);
    lemma_insert_all_wf(rows, items);
    assert forall|k: int| 0 <= k < items.len() implies count_guid(
        once,
        #[trigger] items[k].guid@,
    ) == 1 by {
        lemma_count_guid_has(once, items[k].guid@);
        lemma_wf_count_guid(once, items[k].guid@);
    }
}

/// Every row carrying the guid `g` is flagged read.
pub open spec fn no_unread_guid(rows: Seq<StoredEntry>, g: Seq<char>) -> bool {
    forall|i: int| 0 <= i < rows.len() && rows[i].entry.guid@ == g ==> rows[i].read
}

/// Where every row with guid `g` is read, no unread entry carries `g`.
proof fn lemma_unread_excludes(rows: Seq<StoredEntry>, g: Seq<char>)
    requires
        no_unread_guid(rows, g),
    ensures
        forall|k: int| 0 <= k < unread(rows).len() ==> unread(rows)[k].guid@ != g,
    decreases rows.len(),
{
    if rows.len() != 0 {
        let prefix = rows.drop_last();
        assert(no_unread_guid(prefix, g)) by {
            assert(forall|k: int| 0 <= k < prefix.len() ==> #[trigger] prefix[k] == rows[k]);
        }
        lemma_unread_excludes(prefix, g);
        let u = unread(rows);
        let up = unread(prefix);
        if !rows.last().read {
            assert(rows[rows.len() - 1].entry.guid@ != g);
            assert(u == up + seq![rows.last().entry]);
            assert forall|k: int| 0 <= k < u.len() implies u[k].guid@ != g by {
                if k < up.len() {
                    assert(u[k] == up[k]);
                } else {
                    assert(u[k] == rows.last().entry);
                }
            }
        } else {
            assert(u =~= up);
        }
    }
}

/// Inserting entries cannot revive a read guid: as long as the guid stays
/// present, the dedup skips any entry that carries it again.
proof fn lemma_insert_all_keeps_read(rows: Seq<StoredEntry>, items: Seq<Entry>, g: Seq<char>)
    requires
        no_unread_guid(rows, g),
        has_guid(rows, g),
    ensures
        no_unread_guid(insert_all(rows, items), g),
        has_guid(insert_all(rows, items), g),
    decreases items.len(),
{
    if items.len() != 0 {
        let prefix = items.drop_last();
        lemma_insert_all_keeps_read(rows, prefix, g);
        let before = insert_all(rows, prefix);
        let row = StoredEntry { entry: items.last(), read: false };
        lemma_insert_row_has_guid(before, row, g);
        if !has_guid(before, row.entry.guid@) {
            let pushed = before.push(row);
            assert(row.entry.guid@ != g);
            assert forall|i: int|
                0 <= i < pushed.len() && pushed[i].entry.guid@ == g implies pushed[i].read by {
                assert(pushed[i] == before[i]);
            }
        }
    }
}

/// Read exclusion: after marking the guid `g` read, no unread query returns
/// an entry with that guid — not even after further batch inserts, as long
/// as some row carried `g` — and repeating the mark is a no-op.
pub proof fn lemma_read_exclusion(rows: Seq<StoredEntry>, g: Seq<char>, items: Seq<Entry>)
    requires
        wf_rows(rows),
    ensures
        wf_rows(mark_read(rows, g)),
        forall|k: int| 0 <= k < unread(mark_read(rows, g)).len() ==> unread(
            mark_read(rows, g),
        )[k].guid@ != g,
        mark_read(mark_read(rows, g), g) == mark_read(rows, g),
        has_guid(rows, g) ==> forall|k: int|
            0 <= k < unread(insert_all(mark_read(rows, g), items)).len() ==> unread(
                insert_all(mark_read(rows, g), items),
            )[k].guid@ != g,
{
    let marked = mark_read(rows, g);
    lemma_mark_read_wf(rows, g);
    assert(no_unread_guid(marked, g));
    lemma_unread_excludes(marked, g);
    assert(mark_read(marked, g) =~= marked);
    if has_guid(rows, g) {
        assert(has_guid(marked, g)) by {
            let i = choose|i: int| 0 <= i < rows.len() && rows[i].entry.guid@ == g;
            assert(marked[i].entry.guid@ == g);
        }
        lemma_insert_all_keeps_read(marked, items, g);
        lemma_unread_excludes(insert_all(marked, items), g);
    }
}

/// Marking rows read changes no guid, so uniqueness is kept.
proof fn lemma_mark_read_wf(rows: Seq<StoredEntry>, g: Seq<char>)
    requires
        wf_rows(rows),
    ensures
        wf_rows(mark_read(rows, g)),
{
    let m = mark_read(rows, g);
    assert forall|i: int, j: int| 0 <= i < j < m.len() implies m[i].entry.guid@
        != m[j].entry.guid@ by {
        assert(m[i].entry == rows[i].entry);
        assert(m[j].entry == rows[j].entry);
    }
}

} // verus!
