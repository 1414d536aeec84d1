use vstd::prelude::*;
use crate::clock::{valid_ts, now_ts};
use crate::error::TodoError;
use crate::ids::fresh_id;
use crate::record::{Archival, TodoRecord, RecordView, views_of, lemma_views_push, lemma_views_update};

verus! {

/// Some record in `s` carries the identifier `id`.
pub open spec fn has_id(s: Seq<RecordView>, id: u128) -> bool {
    exists|i: int| 0 <= i < s.len() && (#[trigger] s[i]).id == id
}

/// The index of the record carrying `id`; meaningful only when `has_id`
/// holds and identifiers are pairwise distinct, in which case it is the one
/// such index.
pub open spec fn idx_of(s: Seq<RecordView>, id: u128) -> int {
    choose|i: int| 0 <= i < s.len() && (#[trigger] s[i]).id == id
}

/// The successor identifier a marker points at (zero when it points at
/// none; ask `is ReplacedBy` first).
pub open spec fn succ_id(a: Archival) -> u128 {
    match a {
        Archival::ReplacedBy(x) => x,
        _ => 0,
    }
}

/// Identifiers are pairwise distinct: no id is ever reused.
pub open spec fn ids_distinct(s: Seq<RecordView>) -> bool {
    forall|i: int, j: int| 0 <= i < j < s.len() ==> (#[trigger] s[i]).id != (#[trigger] s[j]).id
}

/// Every `ReplacedBy` marker points at a record that stands strictly later
/// in the store. Chains therefore always move forward and can hold no
/// cycle.
pub open spec fn targets_forward(s: Seq<RecordView>) -> bool {
    forall|i: int|
        0 <= i < s.len() && (#[trigger] s[i]).archival is ReplacedBy ==> exists|j: int|
            i < j < s.len() && (#[trigger] s[j]).id == succ_id(s[i].archival)
}

/// No two records point at the same successor: a record replaces at most
/// one predecessor.
pub open spec fn targets_unique(s: Seq<RecordView>) -> bool {
    forall|i: int, j: int|
        0 <= i < s.len() && 0 <= j < s.len() && i != j && (#[trigger] s[i]).archival is ReplacedBy
            && (#[trigger] s[j]).archival is ReplacedBy ==> succ_id(s[i].archival) != succ_id(
            s[j].archival,
        )
}

/// Every creation instant lies in the range the calendar handles.
pub open spec fn dates_valid(s: Seq<RecordView>) -> bool {
    forall|i: int| 0 <= i < s.len() ==> valid_ts((#[trigger] s[i]).date)
}

/// The store invariant: distinct identifiers, forward-pointing acyclic
/// replacement chains with at most one predecessor per record, and valid
/// creation instants.
pub open spec fn wf_seq(s: Seq<RecordView>) -> bool {
    &&& ids_distinct(s)
    &&& targets_forward(s)
    &&& targets_unique(s)
    &&& dates_valid(s)
}

/// The record value a fresh creation produces: not done, active, with the
/// given identifier, text and instant.
pub open spec fn fresh_rv(id: u128, text: Seq<char>, ts: i64) -> RecordView {
    RecordView { id, text, done: false, date: ts, archival: Archival::Active }
}

/// `rv` with its completion flag set to `done`.
pub open spec fn with_done(rv: RecordView, done: bool) -> RecordView {
    RecordView { done, ..rv }
}

/// `rv` with its archival marker set to `a`.
pub open spec fn with_archival(rv: RecordView, a: Archival) -> RecordView {
    RecordView { archival: a, ..rv }
}

/// The store after the completion flag of the record carrying `id` is set
/// to `done`.
pub open spec fn set_done(s: Seq<RecordView>, id: u128, done: bool) -> Seq<RecordView> {
    s.update(idx_of(s, id), with_done(s[idx_of(s, id)], done))
}

/// The store after a successful edit of the record carrying `id`: that
/// record is marked replaced by `new_id`, and a fresh active record with
/// identifier `new_id`, the new text and instant `ts` stands at the end.
pub open spec fn edit_post(s: Seq<RecordView>, id: u128, new_id: u128, ts: i64, text: Seq<char>)
    -> Seq<RecordView> {
    s.update(idx_of(s, id), with_archival(s[idx_of(s, id)], Archival::ReplacedBy(new_id))).push(
        fresh_rv(new_id, text, ts),
    )
}

/// If a record at `i` carries `id` and identifiers are distinct, then `i`
/// is the index `idx_of` names.
pub proof fn lemma_idx_of(s: Seq<RecordView>, id: u128, i: int)
    requires
        ids_distinct(s),
        0 <= i < s.len(),
        s[i].id == id,
    ensures
        idx_of(s, id) == i,
        has_id(s, id),
{
    assert(0 <= i < s.len() && s[i].id == id);
    let w = idx_of(s, id);
    assert(0 <= w < s.len() && s[w].id == id);
    if w < i {
        assert(s[w].id != s[i].id);
    } else if i < w {
        assert(s[i].id != s[w].id);
    }
}

/// Appending a record with a fresh identifier, a valid instant and no
/// replacement pointer keeps the store well formed.
pub proof fn lemma_wf_push_fresh(s: Seq<RecordView>, rv: RecordView)
    requires
        wf_seq(s),
        !has_id(s, rv.id),
        valid_ts(rv.date),
        !(rv.archival is ReplacedBy),
    ensures
        wf_seq(s.push(rv)),
{
    let s2 = s.push(rv);
    assert forall|i: int, j: int| 0 <= i < j < s2.len() implies (#[trigger] s2[i]).id != (
    #[trigger] s2[j]).id by {
        if j < s.len() {
        } else {
            assert(s2[i] == s[i]);
            assert(!(s[i].id == rv.id));
        }
    }
    assert forall|i: int|
        0 <= i < s2.len() && (#[trigger] s2[i]).archival is ReplacedBy implies exists|j: int|
        i < j < s2.len() && (#[trigger] s2[j]).id == succ_id(s2[i].archival) by {
        assert(i < s.len());
        assert(s2[i] == s[i]);
        let j = choose|j: int| i < j < s.len() && (#[trigger] s[j]).id == succ_id(s[i].archival);
        assert(s2[j].id == succ_id(s2[i].archival));
    }
    assert forall|i: int, j: int|
        0 <= i < s2.len() && 0 <= j < s2.len() && i != j && (#[trigger] s2[i]).archival
            is ReplacedBy && (#[trigger] s2[j]).archival is ReplacedBy implies succ_id(
        s2[i].archival,
    ) != succ_id(s2[j].archival) by {
        assert(i < s.len() && j < s.len());
        assert(s2[i] == s[i] && s2[j] == s[j]);
    }
    assert forall|i: int| 0 <= i < s2.len() implies valid_ts((#[trigger] s2[i]).date) by {
        if i < s.len() {
            assert(s2[i] == s[i]);
        }
    }
}

/// A change that leaves every identifier, creation instant and archival
/// marker in place keeps the store well formed.
pub proof fn lemma_wf_same_structure(s1: Seq<RecordView>, s2: Seq<RecordView>)
    requires
        wf_seq(s1),
        s1.len() == s2.len(),
        forall|k: int|
            0 <= k < s1.len() ==> (#[trigger] s2[k]).id == s1[k].id && s2[k].date == s1[k].date
                && s2[k].archival == s1[k].archival,
    ensures
        wf_seq(s2),
{
    assert forall|i: int|
        0 <= i < s2.len() && (#[trigger] s2[i]).archival is ReplacedBy implies exists|j: int|
        i < j < s2.len() && (#[trigger] s2[j]).id == succ_id(s2[i].archival) by {
        let j = choose|j: int| i < j < s1.len() && (#[trigger] s1[j]).id == succ_id(s1[i].archival);
        assert(s2[j].id == succ_id(s2[i].archival));
    }
}

/// The conditions under which the archival marker of the record carrying
/// `id` may be set to `a`, read off the lineage state machine: the record
/// must still be active (`Archived` and `ReplacedBy` are terminal), a
/// record is never re-activated, and a replacement pointer must name a
/// distinct record that stands later in the store and that no other record
/// already points at.
pub open spec fn archival_transition_ok(s: Seq<RecordView>, id: u128, a: Archival) -> bool {
    has_id(s, id) ==> {
        let i = idx_of(s, id);
        &&& s[i].archival is Active
        &&& match a {
            Archival::Active => false,
            Archival::Archived => true,
            Archival::ReplacedBy(x) => {
                &&& x != id
                &&& exists|j: int| i < j < s.len() && (#[trigger] s[j]).id == x
                &&& forall|k: int|
                    0 <= k < s.len() ==> !((#[trigger] s[k]).archival == Archival::ReplacedBy(x))
            },
        }
    }
}

/// Setting the marker of an active record under `archival_transition_ok`
/// keeps the store well formed.
pub proof fn lemma_wf_set_archival(s: Seq<RecordView>, id: u128, a: Archival)
    requires
        wf_seq(s),
        has_id(s, id),
        archival_transition_ok(s, id, a),
    ensures
        wf_seq(s.update(idx_of(s, id), with_archival(s[idx_of(s, id)], a))),
{
    let i = idx_of(s, id);
    let s2 = s.update(i, with_archival(s[i], a));
    assert forall|p: int, q: int| 0 <= p < q < s2.len() implies (#[trigger] s2[p]).id != (
    #[trigger] s2[q]).id by {
        assert(s2[p].id == s[p].id && s2[q].id == s[q].id);
    }
    assert forall|p: int|
        0 <= p < s2.len() && (#[trigger] s2[p]).archival is ReplacedBy implies exists|j: int|
        p < j < s2.len() && (#[trigger] s2[j]).id == succ_id(s2[p].archival) by {
        if p == i {
            let x = succ_id(a);
            let j = choose|j: int| i < j < s.len() && (#[trigger] s[j]).id == x;
            assert(s2[j].id == x);
        } else {
            assert(s2[p] == s[p]);
            let j = choose|j: int|
                p < j < s.len() && (#[trigger] s[j]).id == succ_id(s[p].archival);
            assert(s2[j].id == succ_id(s2[p].archival));
        }
    }
    assert forall|p: int, q: int|
        0 <= p < s2.len() && 0 <= q < s2.len() && p != q && (#[trigger] s2[p]).archival
            is ReplacedBy && (#[trigger] s2[q]).archival is ReplacedBy implies succ_id(
        s2[p].archival,
    ) != succ_id(s2[q].archival) by {
        if p == i {
            assert(s2[q] == s[q]);
            assert(!(s[q].archival == Archival::ReplacedBy(succ_id(a))));
        } else if q == i {
            assert(s2[p] == s[p]);
            assert(!(s[p].archival == Archival::ReplacedBy(succ_id(a))));
        } else {
            assert(s2[p] == s[p] && s2[q] == s[q]);
        }
    }
    assert forall|p: int| 0 <= p < s2.len() implies valid_ts((#[trigger] s2[p]).date) by {
        assert(s2[p].date == s[p].date);
    }
}

/// If a record carrying `id` stands in the store, it is still active.
pub open spec fn active_if_present(s: Seq<RecordView>, id: u128) -> bool {
    has_id(s, id) ==> s[idx_of(s, id)].archival is Active
}

/// A successful edit — marking the active record carrying `id` as replaced
/// by a fresh `new_id` and appending the fresh active record — keeps the
/// store well formed.
pub proof fn lemma_wf_edit(s: Seq<RecordView>, id: u128, new_id: u128, ts: i64, text: Seq<char>)
    requires
        wf_seq(s),
        has_id(s, id),
        !has_id(s, new_id),
        s[idx_of(s, id)].archival is Active,
        valid_ts(ts),
    ensures
        wf_seq(edit_post(s, id, new_id, ts, text)),
{
    let i = idx_of(s, id);
    let n = s.len() as int;
    let s2 = edit_post(s, id, new_id, ts, text);
    assert(0 <= i < n && s[i].id == id);
    assert forall|p: int, q: int| 0 <= p < q < s2.len() implies (#[trigger] s2[p]).id != (
    #[trigger] s2[q]).id by {
        if q < n {
            assert(s2[p].id == s[p].id && s2[q].id == s[q].id);
        } else {
            assert(s2[p].id == s[p].id);
            assert(!(s[p].id == new_id));
        }
    }
    assert forall|p: int|
        0 <= p < s2.len() && (#[trigger] s2[p]).archival is ReplacedBy implies exists|j: int|
        p < j < s2.len() && (#[trigger] s2[j]).id == succ_id(s2[p].archival) by {
        if p == i {
            assert(s2[n].id == succ_id(s2[i].archival));
        } else if p < n {
            assert(s2[p] == s[p]);
            let j = choose|j: int|
                p < j < s.len() && (#[trigger] s[j]).id == succ_id(s[p].archival);
            assert(s2[j].id == succ_id(s2[p].archival));
        }
    }
    assert forall|p: int, q: int|
        0 <= p < s2.len() && 0 <= q < s2.len() && p != q && (#[trigger] s2[p]).archival
            is ReplacedBy && (#[trigger] s2[q]).archival is ReplacedBy implies succ_id(
        s2[p].archival,
    ) != succ_id(s2[q].archival) by {
        if p == i && q < n {
            assert(s2[q] == s[q]);
            let j = choose|j: int|
                q < j < s.len() && (#[trigger] s[j]).id == succ_id(s[q].archival);
            assert(s[j].id == succ_id(s[q].archival));
            assert(!(s[j].id == new_id));
        } else if q == i && p < n {
            assert(s2[p] == s[p]);
            let j = choose|j: int|
                p < j < s.len() && (#[trigger] s[j]).id == succ_id(s[p].archival);
            assert(s[j].id == succ_id(s[p].archival));
            assert(!(s[j].id == new_id));
        } else if p < n && q < n {
            assert(s2[p] == s[p] && s2[q] == s[q]);
        }
    }
    assert forall|p: int| 0 <= p < s2.len() implies valid_ts((#[trigger] s2[p]).date) by {
        if p < n {
            assert(s2[p].date == s[p].date);
        }
    }
}

/// The record store: every record ever created, in insertion order.
/// Nothing is ever physically deleted; an edit retires a record by
/// pointing it at its successor.
pub struct TodoStore {
    records: Vec<TodoRecord>,
}

impl View for TodoStore {
    type V = Seq<RecordView>;

    closed spec fn view(&self) -> Seq<RecordView> {
        views_of(self.records@)
    }
}

impl TodoStore {
    /// The store invariant, over the store's value.
    pub open spec fn wf(&self) -> bool {
        wf_seq(self@)
    }

    /// An empty store.
    pub fn new() -> (s: Self)
        ensures
            s@ =~= Seq::<RecordView>::empty(),
            s.wf(),
    {
        let s = TodoStore { records: Vec::new() };
        proof {
            assert(s@ =~= Seq::<RecordView>::empty());
        }
        s
    }

    /// Every record, in storage (insertion) order. Display order is the
    /// formatter's business, not the store's.
    pub fn fetch_all(&self) -> (r: &Vec<TodoRecord>)
        ensures
            views_of(r@) == self@,
    {
        &self.records
    }

    /// The position of the record carrying `id`, if any record does.
    fn find_index(&self, id: u128) -> (r: Option<usize>)
        ensures
            match r {
                Some(i) => i < self@.len() && self@[i as int].id == id,
                None => !has_id(self@, id),
            },
    {
        let n = self.records.len();
        let mut i: usize = 0;
        while i < n
            invariant
                n == self@.len(),
                i <= n,
                n == self.records@.len(),
                forall|k: int| 0 <= k < i ==> (#[trigger] self@[k]).id != id,
            decreases n - i,
        {
            if self.records[i].id == id {
                return Some(i);
            }
            i += 1;
        }
        None
    }

    /// Persists a new record. Fails with `StoreError`, changing nothing,
    /// exactly when the identifier is already taken (the uniqueness
    /// constraint). A new record enters the store without a replacement
    /// pointer; it can gain one later only through an edit.
    pub fn insert(&mut self, rec: TodoRecord) -> (r: Result<(), TodoError>)
        requires
            old(self).wf(),
            valid_ts(rec@.date),
            !(rec@.archival is ReplacedBy),
        ensures
            final(self).wf(),
            has_id(old(self)@, rec@.id) ==> r == Err::<(), TodoError>(TodoError::StoreError)
                && final(self)@ == old(self)@,
            !has_id(old(self)@, rec@.id) ==> r == Ok::<(), TodoError>(()) && final(self)@ == old(
                self,
            )@.push(rec@),
    {
        match self.find_index(rec.id) {
            Some(_) => Err(TodoError::StoreError),
            None => {
                proof {
                    lemma_views_push(self.records@, rec);
                    lemma_wf_push_fresh(self@, rec@);
                }
                self.records.push(rec);
                Ok(())
            },
        }
    }

    /// Sets the completion flag of the record carrying `id` and of no
    /// other. Fails with `NotFound`, changing nothing, exactly when no
    /// record carries `id`. The flag may be toggled freely, whatever the
    /// record's archival state.
    pub fn update_done(&mut self, id: u128, done: bool) -> (r: Result<(), TodoError>)
        requires
            old(self).wf(),
        ensures
            final(self).wf(),
            has_id(old(self)@, id) ==> r == Ok::<(), TodoError>(()) && final(self)@ == set_done(
                old(self)@,
                id,
                done,
            ),
            !has_id(old(self)@, id) ==> r == Err::<(), TodoError>(TodoError::NotFound)
                && final(self)@ == old(self)@,
    {
        match self.find_index(id) {
            None => Err(TodoError::NotFound),
            Some(i) => {
                proof {
                    lemma_idx_of(self@, id, i as int);
                }
                let old_rec = &self.records[i];
                let new_rec = TodoRecord {
                    id: old_rec.id,
                    text: old_rec.text.clone(),
                    done,
                    date: old_rec.date,
                    archival: old_rec.archival,
                };
                proof {
                    lemma_views_update(self.records@, i as int, new_rec);
                    lemma_wf_same_structure(self@, set_done(self@, id, done));
                }
                self.records.set(i, new_rec);
                Ok(())
            },
        }
    }

    /// Sets the archival marker of the record carrying `id` and of no
    /// other; the lineage state machine (`archival_transition_ok`) rules
    /// which transitions a caller may ask for. Fails with `NotFound`,
    /// changing nothing, exactly when no record carries `id`.
    pub fn update_archival(&mut self, id: u128, a: Archival) -> (r: Result<(), TodoError>)
        requires
            old(self).wf(),
            archival_transition_ok(old(self)@, id, a),
        ensures
            final(self).wf(),
            has_id(old(self)@, id) ==> r == Ok::<(), TodoError>(()) && final(self)@
                == old(self)@.update(
                idx_of(old(self)@, id),
                with_archival(old(self)@[idx_of(old(self)@, id)], a),
            ),
            !has_id(old(self)@, id) ==> r == Err::<(), TodoError>(TodoError::NotFound)
                && final(self)@ == old(self)@,
    {
        match self.find_index(id) {
            None => Err(TodoError::NotFound),
            Some(i) => {
                proof {
                    lemma_idx_of(self@, id, i as int);
                }
                let old_rec = &self.records[i];
                let new_rec = TodoRecord {
                    id: old_rec.id,
                    text: old_rec.text.clone(),
                    done: old_rec.done,
                    date: old_rec.date,
                    archival: a,
                };
                proof {
                    lemma_views_update(self.records@, i as int, new_rec);
                    lemma_wf_set_archival(self@, id, a);
                }
                self.records.set(i, new_rec);
                Ok(())
            },
        }
    }

    /// The "complete" command of the versioning engine: flip the completion
    /// flag of the record carrying `id`. A plain delegation to the store's
    /// single-row update, with its exact contract.
    pub fn complete(&mut self, id: u128, completed: bool) -> (r: Result<(), TodoError>)
        requires
            old(self).wf(),
        ensures
            final(self).wf(),
            has_id(old(self)@, id) ==> r == Ok::<(), TodoError>(()) && final(self)@ == set_done(
                old(self)@,
                id,
                completed,
            ),
            !has_id(old(self)@, id) ==> r == Err::<(), TodoError>(TodoError::NotFound)
                && final(self)@ == old(self)@,
    {
        self.update_done(id, completed)
    }

    /// Creates a record from caller-supplied identifier and instant: not
    /// done, active, with the given text. Succeeds, appending the record,
    /// exactly when the identifier is not yet taken; otherwise fails with
    /// `StoreError` and changes nothing. The record handed back is the one
    /// persisted.
    pub fn create_with(&mut self, id: u128, ts: i64, text: String) -> (r: Result<
        TodoRecord,
        TodoError,
    >)
        requires
            old(self).wf(),
            valid_ts(ts),
        ensures
            final(self).wf(),
            !has_id(old(self)@, id) ==> r is Ok && r->Ok_0@ == fresh_rv(id, text@, ts)
                && final(self)@ == old(self)@.push(fresh_rv(id, text@, ts)),
            has_id(old(self)@, id) ==> r == Err::<TodoRecord, TodoError>(TodoError::StoreError)
                && final(self)@ == old(self)@,
    {
        let rec = TodoRecord { id, text, done: false, date: ts, archival: Archival::Active };
        let ret = rec.clone();
        match self.insert(rec) {
            Ok(()) => Ok(ret),
            Err(_) => Err(TodoError::StoreError),
        }
    }

    /// The "new" command of the versioning engine: a record with a freshly
    /// drawn identifier and the current instant. When the drawn identifier
    /// happens to collide with a taken one, the creation fails with
    /// `StoreError` and changes nothing — on an empty store no collision is
    /// possible, so there the creation succeeds; a returned record is
    /// persisted, active, not done, and carries an identifier no earlier
    /// record has.
    pub fn create(&mut self, text: String) -> (r: Result<TodoRecord, TodoError>)
        requires
            old(self).wf(),
        ensures
            final(self).wf(),
            old(self)@.len() == 0 ==> r is Ok,
            r is Ok ==> !has_id(old(self)@, r->Ok_0@.id) && r->Ok_0@ == fresh_rv(
                r->Ok_0@.id,
                text@,
                r->Ok_0@.date,
            ) && valid_ts(r->Ok_0@.date) && final(self)@ == old(self)@.push(r->Ok_0@),
            r is Err ==> r == Err::<TodoRecord, TodoError>(TodoError::StoreError) && final(self)@
                == old(self)@,
    {
        let id = fresh_id();
        let ts = now_ts();
        self.create_with(id, ts, text)
    }

    /// Edits from caller-supplied successor identifier and instant: the
    /// record carrying `id` is marked `ReplacedBy(new_id)` and a fresh
    /// active record with the new text is appended — both steps or
    /// neither. Fails with `NotFound` when no record carries `id`, with
    /// `StoreError` when `new_id` is already taken; either failure changes
    /// nothing. Only a record that is still active can be edited: the
    /// lineage state machine never leaves `Archived` or `ReplacedBy`, so
    /// the caller checks the record's marker first.
    pub fn edit_with(&mut self, id: u128, new_id: u128, ts: i64, text: String) -> (r: Result<
        TodoRecord,
        TodoError,
    >)
        requires
            old(self).wf(),
            valid_ts(ts),
            active_if_present(old(self)@, id),
        ensures
            final(self).wf(),
            !has_id(old(self)@, id) ==> r == Err::<TodoRecord, TodoError>(TodoError::NotFound)
                && final(self)@ == old(self)@,
            has_id(old(self)@, id) && has_id(old(self)@, new_id) ==> r == Err::<
                TodoRecord,
                TodoError,
            >(TodoError::StoreError) && final(self)@ == old(self)@,
            has_id(old(self)@, id) && !has_id(old(self)@, new_id) ==> r is Ok && r->Ok_0@
                == fresh_rv(new_id, text@, ts) && final(self)@ == edit_post(
                old(self)@,
                id,
                new_id,
                ts,
                text@,
            ),
    {
        let i = match self.find_index(id) {
            None => {
                return Err(TodoError::NotFound);
            },
            Some(i) => i,
        };
        proof {
            lemma_idx_of(self@, id, i as int);
        }
        match self.find_index(new_id) {
            Some(_) => {
                return Err(TodoError::StoreError);
            },
            None => {},
        }
        let old_rec = &self.records[i];
        let marked = TodoRecord {
            id: old_rec.id,
            text: old_rec.text.clone(),
            done: old_rec.done,
            date: old_rec.date,
            archival: Archival::ReplacedBy(new_id),
        };
        let new_rec = TodoRecord { id: new_id, text, done: false, date: ts, archival: Archival::Active };
        let ret = new_rec.clone();
        proof {
            lemma_views_update(self.records@, i as int, marked);
        }
        self.records.set(i, marked);
        proof {
            lemma_views_push(self.records@, new_rec);
            lemma_wf_edit(old(self)@, id, new_id, ts, text@);
        }
        self.records.push(new_rec);
        Ok(ret)
    }

    /// The "edit" command of the versioning engine: retire the record
    /// carrying `id` in favour of a successor with a freshly drawn
    /// identifier, the current instant and the new text — both steps or
    /// neither. Fails with `NotFound` when no record carries `id`, with
    /// `StoreError` when the drawn identifier collides; either failure
    /// changes nothing, so no orphaned successor is ever left behind.
    /// Only a record that is still active can be edited: the caller checks
    /// the record's marker first.
    pub fn edit(&mut self, id: u128, text: String) -> (r: Result<TodoRecord, TodoError>)
        requires
            old(self).wf(),
            active_if_present(old(self)@, id),
        ensures
            final(self).wf(),
            !has_id(old(self)@, id) ==> r == Err::<TodoRecord, TodoError>(TodoError::NotFound)
                && final(self)@ == old(self)@,
            r is Ok ==> has_id(old(self)@, id) && !has_id(old(self)@, r->Ok_0@.id) && r->Ok_0@
                == fresh_rv(r->Ok_0@.id, text@, r->Ok_0@.date) && valid_ts(r->Ok_0@.date)
                && final(self)@ == edit_post(old(self)@, id, r->Ok_0@.id, r->Ok_0@.date, text@),
            has_id(old(self)@, id) && r is Err ==> r == Err::<TodoRecord, TodoError>(
                TodoError::StoreError,
            ) && final(self)@ == old(self)@,
    {
        let new_id = fresh_id();
        let ts = now_ts();
        self.edit_with(id, new_id, ts, text)
    }

    /// Rebuilds a store from rows read back from persistent storage,
    /// checking every invariant the store maintains; rows that violate one
    /// are corrupt data. Succeeds exactly when the rows are well formed,
    /// keeping them in the given order.
    pub fn from_records(rows: Vec<TodoRecord>) -> (r: Result<TodoStore, TodoError>)
        ensures
            r is Ok ==> r->Ok_0@ == views_of(rows@) && r->Ok_0.wf(),
            r is Err ==> r == Err::<TodoStore, TodoError>(TodoError::DeserializationError)
                && !wf_seq(views_of(rows@)),
    {
        if check_ids_distinct(&rows) && check_dates(&rows) && check_targets_forward(&rows)
            && check_targets_unique(&rows) {
            Ok(TodoStore { records: rows })
        } else {
            Err(TodoError::DeserializationError)
        }
    }
}

/// Law (uniqueness): in a well-formed store the identifiers are pairwise
/// distinct. Every mutation keeps the store well formed and a creation
/// appends only an identifier no record carries, so the records any
/// sequence of `create` calls leaves behind carry pairwise distinct ids.
pub proof fn lemma_ids_pairwise_distinct(s: Seq<RecordView>)
    requires
        wf_seq(s),
    ensures
        forall|i: int, j: int|
            0 <= i < j < s.len() ==> (#[trigger] s[i]).id != (#[trigger] s[j]).id,
{
}

/// Law (chain integrity): after an edit of an existing active record,
/// exactly one record points at the successor; the successor exists, is
/// active, not done, and carries the new text; and the whole store stays
/// well formed — every replacement pointer keeps pointing at a strictly
/// later record, so no chain can ever loop.
pub proof fn lemma_edit_chain_integrity(
    s: Seq<RecordView>,
    id: u128,
    new_id: u128,
    ts: i64,
    text: Seq<char>,
)
    requires
        wf_seq(s),
        has_id(s, id),
        !has_id(s, new_id),
        s[idx_of(s, id)].archival is Active,
        valid_ts(ts),
    ensures
        wf_seq(edit_post(s, id, new_id, ts, text)),
        edit_post(s, id, new_id, ts, text)[idx_of(s, id)].archival == Archival::ReplacedBy(new_id),
        forall|k: int|
            0 <= k < edit_post(s, id, new_id, ts, text).len() && k != idx_of(s, id) ==> (
            #[trigger] edit_post(s, id, new_id, ts, text)[k]).archival != Archival::ReplacedBy(
                new_id,
            ),
        edit_post(s, id, new_id, ts, text)[s.len() as int] == fresh_rv(new_id, text, ts),
        fresh_rv(new_id, text, ts).id == new_id && fresh_rv(new_id, text, ts).archival
            is Active && fresh_rv(new_id, text, ts).text == text && !fresh_rv(
            new_id,
            text,
            ts,
        ).done,
{
    lemma_wf_edit(s, id, new_id, ts, text);
    let i = idx_of(s, id);
    let n = s.len() as int;
    let post = edit_post(s, id, new_id, ts, text);
    assert(0 <= i < n && s[i].id == id);
    assert forall|k: int|
        0 <= k < post.len() && k != i implies (#[trigger] post[k]).archival
        != Archival::ReplacedBy(new_id) by {
        if k < n {
            assert(post[k] == s[k]);
            if s[k].archival == Archival::ReplacedBy(new_id) {
                let j = choose|j: int|
                    k < j < s.len() && (#[trigger] s[j]).id == succ_id(s[k].archival);
                assert(s[j].id == new_id);
            }
        }
    }
}

/// Law (idempotent completion): completing a record twice leaves the flag
/// set both times, and un-completing it afterwards clears it — over the
/// exact transition `update_done`/`complete` promise.
pub proof fn lemma_complete_idempotent(s: Seq<RecordView>, id: u128)
    requires
        ids_distinct(s),
        has_id(s, id),
    ensures
        set_done(s, id, true)[idx_of(s, id)].done == true,
        set_done(set_done(s, id, true), id, true) == set_done(s, id, true),
        set_done(set_done(s, id, true), id, true)[idx_of(s, id)].done == true,
        set_done(set_done(s, id, true), id, false)[idx_of(s, id)].done == false,
{
    let i = idx_of(s, id);
    assert(0 <= i < s.len() && s[i].id == id);
    let s1 = set_done(s, id, true);
    assert forall|p: int, q: int| 0 <= p < q < s1.len() implies (#[trigger] s1[p]).id != (
    #[trigger] s1[q]).id by {
        assert(s1[p].id == s[p].id && s1[q].id == s[q].id);
    }
    assert(s1[i].id == id);
    lemma_idx_of(s1, id, i);
    assert(set_done(s1, id, true) =~= s1);
}

/// Whether the rows carry pairwise distinct identifiers.
fn check_ids_distinct(rows: &Vec<TodoRecord>) -> (r: bool)
    ensures
        r == ids_distinct(views_of(rows@)),
{
    let ghost s = views_of(rows@);
    let n = rows.len();
    let mut i: usize = 0;
    while i < n
        invariant
            n == rows@.len(),
            s == views_of(rows@),
            i <= n,
            forall|p: int, q: int| 0 <= p < q < n && p < i ==> (#[trigger] s[p]).id != (
            #[trigger] s[q]).id,
        decreases n - i,
    {
        let mut j: usize = i + 1;
        while j < n
            invariant
                n == rows@.len(),
                s == views_of(rows@),
                i < j <= n || (i + 1 == j && j > n),
                i < n,
                forall|q: int| i < q < j ==> (#[trigger] s[q]).id != s[i as int].id,
            decreases n - j,
        {
            if rows[i].id == rows[j].id {
                assert(s[i as int].id == s[j as int].id);
                return false;
            }
            j += 1;
        }
        i += 1;
    }
    true
}

/// Whether every row's creation instant lies in the valid range.
fn check_dates(rows: &Vec<TodoRecord>) -> (r: bool)
    ensures
        r == dates_valid(views_of(rows@)),
{
    let ghost s = views_of(rows@);
    let n = rows.len();
    let mut i: usize = 0;
    while i < n
        invariant
            n == rows@.len(),
            s == views_of(rows@),
            i <= n,
            forall|p: int| 0 <= p < i ==> valid_ts((#[trigger] s[p]).date),
        decreases n - i,
    {
        let d = rows[i].date;
        if !(0 <= d && d <= 8210266876799) {
            assert(!valid_ts(s[i as int].date));
            return false;
        }
        i += 1;
    }
    true
}

/// Whether every replacement pointer names a record that stands later.
fn check_targets_forward(rows: &Vec<TodoRecord>) -> (r: bool)
    ensures
        r == targets_forward(views_of(rows@)),
{
    let ghost s = views_of(rows@);
    let n = rows.len();
    let mut i: usize = 0;
    while i < n
        invariant
            n == rows@.len(),
            s == views_of(rows@),
            i <= n,
            forall|p: int|
                0 <= p < i && (#[trigger] s[p]).archival is ReplacedBy ==> exists|j: int|
                    p < j < n && (#[trigger] s[j]).id == succ_id(s[p].archival),
        decreases n - i,
    {
        let x = match rows[i].archival {
            Archival::ReplacedBy(x) => x,
            _ => {
                i += 1;
                continue ;
            },
        };
        let mut j: usize = i + 1;
        let mut found = false;
        while j < n
            invariant
                n == rows@.len(),
                s == views_of(rows@),
                i < n,
                i < j <= n,
                s[i as int].archival == Archival::ReplacedBy(x),
                found ==> exists|k: int| i < k < n && (#[trigger] s[k]).id == x,
                !found ==> forall|k: int| i < k < j ==> (#[trigger] s[k]).id != x,
            decreases n - j,
        {
            if rows[j].id == x {
                proof {
                    assert(s[j as int].id == x);
                }
                found = true;
            }
            j += 1;
        }
        if !found {
            assert(s[i as int].archival is ReplacedBy);
            assert(forall|k: int|
                i < k < n ==> (#[trigger] s[k]).id != succ_id(s[i as int].archival));
            return false;
        }
        i += 1;
    }
    true
}

/// Whether no two rows point at the same successor.
fn check_targets_unique(rows: &Vec<TodoRecord>) -> (r: bool)
    ensures
        r == targets_unique(views_of(rows@)),
{
    let ghost s = views_of(rows@);
    let n = rows.len();
    let mut i: usize = 0;
    while i < n
        invariant
            n == rows@.len(),
            s == views_of(rows@),
            i <= n,
            forall|p: int, q: int|
                0 <= p < s.len() && 0 <= q < s.len() && p != q && p < i && (
                #[trigger] s[p]).archival is ReplacedBy && (#[trigger] s[q]).archival
                    is ReplacedBy ==> succ_id(s[p].archival) != succ_id(s[q].archival),
        decreases n - i,
    {
        let x = match rows[i].archival {
            Archival::ReplacedBy(x) => x,
            _ => {
                i += 1;
                continue ;
            },
        };
        let mut j: usize = i + 1;
        while j < n
            invariant
                n == rows@.len(),
                s == views_of(rows@),
                i < n,
                i < j <= n,
                s[i as int].archival == Archival::ReplacedBy(x),
                forall|q: int|
                    i < q < j && (#[trigger] s[q]).archival is ReplacedBy ==> succ_id(
                        s[q].archival,
                    ) != x,
            decreases n - j,
        {
            match rows[j].archival {
                Archival::ReplacedBy(y) => {
                    if x == y {
                        assert(s[i as int].archival is ReplacedBy && s[j as int].archival
                            is ReplacedBy && succ_id(s[i as int].archival) == succ_id(
                            s[j as int].archival,
                        ));
                        return false;
                    }
                },
                _ => {},
            }
            j += 1;
        }
        i += 1;
    }
    true
}

} // verus!
