use vstd::prelude::*;

verus! {

/// The tri-state archival marker of a record.
///
/// `Active`: the record is the current head of its lineage chain.
/// `Archived`: the record was retired with no replacement reference retained.
/// `ReplacedBy(id)`: the record was superseded by the record with that id.
#[derive(Clone, Copy, Debug, PartialEq, Eq, Structural)]
pub enum Archival {
    Active,
    Archived,
    ReplacedBy(u128),
}

/// One persisted todo record. `id` and `text` and `date` are immutable after
/// creation: an edit never rewrites `text` in place, it creates a successor
/// record and points the old record at it through `archival`.
#[derive(Debug)]
pub struct TodoRecord {
    /// Globally unique identifier, assigned at creation, never reused.
    pub id: u128,
    /// UTF-8 content of the note.
    pub text: String,
    /// Completion flag; the one field that is mutated in place.
    pub done: bool,
    /// Creation instant as whole seconds since the Unix epoch, UTC.
    pub date: i64,
    /// Where this record stands in its lineage chain.
    pub archival: Archival,
}

/// The mathematical value of a record: every field as a plain value.
pub ghost struct RecordView {
    pub id: u128,
    pub text: Seq<char>,
    pub done: bool,
    pub date: i64,
    pub archival: Archival,
}

impl View for TodoRecord {
    type V = RecordView;

    open spec fn view(&self) -> RecordView {
        RecordView {
            id: self.id,
            text: self.text@,
            done: self.done,
            date: self.date,
            archival: self.archival,
        }
    }
}

impl Clone for TodoRecord {
    fn clone(&self) -> (r: Self)
        ensures
            r@ == self@,
    {
        TodoRecord {
            id: self.id,
            text: self.text.clone(),
            done: self.done,
            date: self.date,
            archival: self.archival,
        }
    }
}

/// The record values of a sequence of records.
pub open spec fn views_of(s: Seq<TodoRecord>) -> Seq<RecordView> {
    s.map_values(|r: TodoRecord| r@)
}

/// Taking views commutes with appending a record.
pub proof fn lemma_views_push(s: Seq<TodoRecord>, r: TodoRecord)
    ensures
        views_of(s.push(r)) == views_of(s).push(r@),
{
    assert(views_of(s.push(r)) =~= views_of(s).push(r@));
}

/// Taking views commutes with replacing one record.
pub proof fn lemma_views_update(s: Seq<TodoRecord>, i: int, r: TodoRecord)
    requires
        0 <= i < s.len(),
    ensures
        views_of(s.update(i, r)) == views_of(s).update(i, r@),
{
    assert(views_of(s.update(i, r)) =~= views_of(s).update(i, r@));
}

/// Taking views commutes with inserting a record at a position.
pub proof fn lemma_views_insert(s: Seq<TodoRecord>, i: int, r: TodoRecord)
    requires
        0 <= i <= s.len(),
    ensures
        views_of(s.insert(i, r)) == views_of(s).insert(i, r@),
{
    assert(views_of(s.insert(i, r)) =~= views_of(s).insert(i, r@));
}

} // verus!
