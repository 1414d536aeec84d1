use vstd::prelude::*;
use vstd::multiset::Multiset;
use crate::clock::{valid_ts, date_text_of, date_text};
use crate::ids::{id_seq, format_id};
use crate::record::{Archival, RecordView, TodoRecord, views_of, lemma_views_insert};
use crate::store::{succ_id, dates_valid};

verus! {

/// The display group of a record: current records first, then records
/// retired without successor, then superseded records.
pub open spec fn arch_rank(a: Archival) -> int {
    match a {
        Archival::Active => 0,
        Archival::Archived => 1,
        Archival::ReplacedBy(_) => 2,
    }
}

/// The display order: by archival group, within the superseded group by
/// successor identifier, and within equal groups by creation instant
/// ascending.
pub open spec fn key_lt(a: RecordView, b: RecordView) -> bool {
    ||| arch_rank(a.archival) < arch_rank(b.archival)
    ||| (arch_rank(a.archival) == arch_rank(b.archival) && succ_id(a.archival) < succ_id(
        b.archival,
    ))
    ||| (arch_rank(a.archival) == arch_rank(b.archival) && succ_id(a.archival) == succ_id(
        b.archival,
    ) && a.date < b.date)
}

/// The first position of `t` whose record sorts strictly after `x`; the
/// length of `t` when none does. Inserting there keeps earlier-inserted
/// records of equal key in front: the sort is stable.
pub open spec fn insert_pos(t: Seq<RecordView>, x: RecordView) -> int
    decreases t.len(),
{
    if t.len() == 0 {
        0
    } else if key_lt(x, t[0]) {
        0
    } else {
        1 + insert_pos(t.drop_first(), x)
    }
}

/// `t` with `x` inserted at its insertion position.
pub open spec fn insert_into(t: Seq<RecordView>, x: RecordView) -> Seq<RecordView> {
    t.insert(insert_pos(t, x), x)
}

/// The display order of a record sequence: each record inserted in turn at
/// its insertion position (an insertion sort, processing left to right).
pub open spec fn sort_spec(s: Seq<RecordView>) -> Seq<RecordView>
    decreases s.len(),
{
    if s.len() == 0 {
        Seq::empty()
    } else {
        insert_into(sort_spec(s.drop_last()), s.last())
    }
}

/// The insertion position lies in bounds, everything before it does not
/// sort after `x`, and the record at it (when there is one) does.
pub proof fn lemma_insert_pos_bounds(t: Seq<RecordView>, x: RecordView)
    ensures
        0 <= insert_pos(t, x) <= t.len(),
        forall|j: int| 0 <= j < insert_pos(t, x) ==> !key_lt(x, #[trigger] t[j]),
        insert_pos(t, x) < t.len() ==> key_lt(x, t[insert_pos(t, x)]),
    decreases t.len(),
{
    if t.len() > 0 && !key_lt(x, t[0]) {
        lemma_insert_pos_bounds(t.drop_first(), x);
        assert forall|j: int| 0 <= j < insert_pos(t, x) implies !key_lt(x, #[trigger] t[j]) by {
            if j > 0 {
                assert(t[j] == t.drop_first()[j - 1]);
            }
        }
        if insert_pos(t, x) < t.len() {
            assert(t[insert_pos(t, x)] == t.drop_first()[insert_pos(t.drop_first(), x)]);
        }
    }
}

/// A position with the properties of the insertion position is the
/// insertion position: the scan that finds it is exact.
pub proof fn lemma_insert_pos_unique(t: Seq<RecordView>, x: RecordView, p: int)
    requires
        0 <= p <= t.len(),
        forall|j: int| 0 <= j < p ==> !key_lt(x, #[trigger] t[j]),
        p < t.len() ==> key_lt(x, t[p]),
    ensures
        p == insert_pos(t, x),
    decreases t.len(),
{
    if t.len() == 0 {
    } else if key_lt(x, t[0]) {
        if p > 0 {
            assert(!key_lt(x, t[0]));
        }
    } else {
        assert(p >= 1) by {
            if p == 0 {
                assert(key_lt(x, t[0]));
            }
        }
        assert forall|j: int| 0 <= j < p - 1 implies !key_lt(x, #[trigger] t.drop_first()[j]) by {
            assert(t.drop_first()[j] == t[j + 1]);
        }
        if p - 1 < t.drop_first().len() {
            assert(t.drop_first()[p - 1] == t[p]);
        }
        lemma_insert_pos_unique(t.drop_first(), x, p - 1);
    }
}

/// Inserting a record with a valid instant into a sequence of records with
/// valid instants yields only valid instants.
pub proof fn lemma_insert_into_dates(t: Seq<RecordView>, x: RecordView)
    requires
        dates_valid(t),
        valid_ts(x.date),
    ensures
        dates_valid(insert_into(t, x)),
{
    lemma_insert_pos_bounds(t, x);
    let p = insert_pos(t, x);
    let t2 = insert_into(t, x);
    assert forall|i: int| 0 <= i < t2.len() implies valid_ts((#[trigger] t2[i]).date) by {
        if i < p {
            assert(t2[i] == t[i]);
        } else if i == p {
            assert(t2[i] == x);
        } else {
            assert(t2[i] == t[i - 1]);
        }
    }
}

/// Sorting keeps every creation instant valid.
pub proof fn lemma_sort_dates(s: Seq<RecordView>)
    requires
        dates_valid(s),
    ensures
        dates_valid(sort_spec(s)),
    decreases s.len(),
{
    if s.len() > 0 {
        assert(dates_valid(s.drop_last())) by {
            assert forall|i: int|
                0 <= i < s.drop_last().len() implies valid_ts(
                (#[trigger] s.drop_last()[i]).date,
            ) by {
                assert(s.drop_last()[i] == s[i]);
            }
        }
        lemma_sort_dates(s.drop_last());
        lemma_insert_into_dates(sort_spec(s.drop_last()), s.last());
    }
}

/// A sequence stands in display order: no record sorts strictly after an
/// earlier one.
pub open spec fn sorted_by_key(t: Seq<RecordView>) -> bool {
    forall|i: int, j: int| 0 <= i <= j < t.len() ==> !key_lt(#[trigger] t[j], #[trigger] t[i])
}

/// Inserting at the insertion position keeps a sequence in display order.
proof fn lemma_insert_into_sorted(t: Seq<RecordView>, x: RecordView)
    requires
        sorted_by_key(t),
    ensures
        sorted_by_key(insert_into(t, x)),
{
    lemma_insert_pos_bounds(t, x);
    let p = insert_pos(t, x);
    let t2 = insert_into(t, x);
    assert forall|i: int, j: int| 0 <= i <= j < t2.len() implies !key_lt(
        #[trigger] t2[j],
        #[trigger] t2[i],
    ) by {
        if i < p && j == p {
            assert(t2[i] == t[i] && t2[j] == x);
        } else if i == p && j > p {
            assert(t2[i] == x && t2[j] == t[j - 1]);
            assert(key_lt(x, t[p]));
            assert(!key_lt(t[j - 1], t[p]));
        } else if i < p && j > p {
            assert(t2[i] == t[i] && t2[j] == t[j - 1]);
        } else if i > p && j > p {
            assert(t2[i] == t[i - 1] && t2[j] == t[j - 1]);
        } else if i < p && j < p {
            assert(t2[i] == t[i] && t2[j] == t[j]);
        }
    }
}

/// Law (display order): the sorted sequence stands in display order —
/// current records first, then retired ones, then superseded ones by
/// successor, ties broken by creation instant ascending.
pub proof fn lemma_sort_spec_sorted(s: Seq<RecordView>)
    ensures
        sorted_by_key(sort_spec(s)),
    decreases s.len(),
{
    if s.len() > 0 {
        lemma_sort_spec_sorted(s.drop_last());
        lemma_insert_into_sorted(sort_spec(s.drop_last()), s.last());
    }
}

/// Inserting at the insertion position adds exactly one occurrence of the
/// inserted record.
proof fn lemma_insert_into_multiset(t: Seq<RecordView>, x: RecordView)
    ensures
        insert_into(t, x).to_multiset() == t.to_multiset().insert(x),
{
    broadcast use vstd::seq_lib::group_to_multiset_ensures;

    lemma_insert_pos_bounds(t, x);
    let p = insert_pos(t, x);
    assert(insert_into(t, x) =~= t.take(p) + (seq![x] + t.skip(p)));
    vstd::seq_lib::lemma_multiset_commutative(t.take(p), seq![x] + t.skip(p));
    vstd::seq_lib::lemma_multiset_commutative(seq![x], t.skip(p));
    assert(Seq::<RecordView>::empty().push(x) =~= seq![x]);
    assert(seq![x].to_multiset() =~= Multiset::<RecordView>::empty().insert(x));
    assert(t =~= t.take(p) + t.skip(p));
    vstd::seq_lib::lemma_multiset_commutative(t.take(p), t.skip(p));
    assert(insert_into(t, x).to_multiset() =~= t.to_multiset().insert(x));
}

/// Law (display completeness): the display order is a permutation of the
/// records handed in — the formatter shows every record exactly once and
/// invents none.
pub proof fn lemma_sort_spec_permutes(s: Seq<RecordView>)
    ensures
        sort_spec(s).to_multiset() == s.to_multiset(),
    decreases s.len(),
{
    broadcast use vstd::seq_lib::group_to_multiset_ensures;

    if s.len() > 0 {
        lemma_sort_spec_permutes(s.drop_last());
        lemma_insert_into_multiset(sort_spec(s.drop_last()), s.last());
        assert(s.drop_last().push(s.last()) =~= s);
    }
}

/// Whether `a` sorts strictly after `b` — the executable display order.
fn rec_key_lt(a: &TodoRecord, b: &TodoRecord) -> (r: bool)
    ensures
        r == key_lt(a@, b@),
{
    let ra: u8 = match a.archival {
        Archival::Active => 0,
        Archival::Archived => 1,
        Archival::ReplacedBy(_) => 2,
    };
    let rb: u8 = match b.archival {
        Archival::Active => 0,
        Archival::Archived => 1,
        Archival::ReplacedBy(_) => 2,
    };
    if ra != rb {
        return ra < rb;
    }
    let sa: u128 = match a.archival {
        Archival::ReplacedBy(x) => x,
        _ => 0,
    };
    let sb: u128 = match b.archival {
        Archival::ReplacedBy(x) => x,
        _ => 0,
    };
    if sa != sb {
        return sa < sb;
    }
    a.date < b.date
}

/// Sorts records into display order: an insertion sort, so records of
/// equal key keep their fetch order.
pub fn sort_records(rows: &Vec<TodoRecord>) -> (r: Vec<TodoRecord>)
    ensures
        views_of(r@) == sort_spec(views_of(rows@)),
{
    let n = rows.len();
    let mut out: Vec<TodoRecord> = Vec::new();
    proof {
        assert(views_of(out@) =~= sort_spec(views_of(rows@).subrange(0, 0)));
    }
    let mut i: usize = 0;
    while i < n
        invariant
            n == rows@.len(),
            i <= n,
            views_of(out@) == sort_spec(views_of(rows@).subrange(0, i as int)),
        decreases n - i,
    {
        let x = rows[i].clone();
        let m = out.len();
        let mut p: usize = 0;
        while p < m
            invariant_except_break
                m == out@.len(),
                p <= m,
                forall|j: int| 0 <= j < p ==> !key_lt(x@, (#[trigger] views_of(out@)[j])),
            ensures
                m == out@.len(),
                p <= m,
                forall|j: int| 0 <= j < p ==> !key_lt(x@, (#[trigger] views_of(out@)[j])),
                p < m ==> key_lt(x@, views_of(out@)[p as int]),
            decreases m - p,
        {
            if rec_key_lt(&x, &out[p]) {
                break ;
            }
            p += 1;
        }
        proof {
            lemma_insert_pos_unique(views_of(out@), x@, p as int);
            lemma_views_insert(out@, p as int, x);
            assert(views_of(rows@).subrange(0, i + 1).drop_last() =~= views_of(rows@).subrange(
                0,
                i as int,
            ));
            assert(views_of(rows@).subrange(0, i + 1).last() == x@);
        }
        out.insert(p, x);
        i += 1;
    }
    proof {
        assert(views_of(rows@).subrange(0, n as int) =~= views_of(rows@));
    }
    out
}

/// The display text of a completion flag.
pub open spec fn done_seq(b: bool) -> Seq<char> {
    if b {
        "[X]"@
    } else {
        "[ ]"@
    }
}

/// The note text as displayed: cut to the display width of thirty-two
/// characters (the stored text is never shortened, only its display).
pub open spec fn trunc_seq(t: Seq<char>) -> Seq<char> {
    if t.len() <= 32 {
        t
    } else {
        t.subrange(0, 32)
    }
}

/// The display text of an archival marker: the sentinel `No` for a current
/// record, `Yes` for one retired without successor, and the successor's
/// identifier for a superseded one.
pub open spec fn arch_cell_seq(a: Archival) -> Seq<char> {
    match a {
        Archival::Active => "No"@,
        Archival::Archived => "Yes"@,
        Archival::ReplacedBy(x) => id_seq(x),
    }
}

/// The five display cells of one record.
pub open spec fn row_of(rv: RecordView) -> Seq<Seq<char>> {
    seq![
        id_seq(rv.id),
        done_seq(rv.done),
        trunc_seq(rv.text),
        date_text_of(rv.date as int),
        arch_cell_seq(rv.archival),
    ]
}

/// The title row of the table.
pub open spec fn titles_spec() -> Seq<Seq<char>> {
    seq!["id"@, "done"@, "text"@, "date"@, "archived"@]
}

/// The texts of a sequence of strings.
pub open spec fn str_views(s: Seq<String>) -> Seq<Seq<char>> {
    s.map_values(|x: String| x@)
}

/// The texts of a sequence of rows of strings.
pub open spec fn row_views(s: Seq<Vec<String>>) -> Seq<Seq<Seq<char>>> {
    s.map_values(|v: Vec<String>| str_views(v@))
}

/// The display cells of a sequence of records, one row each.
pub open spec fn rows_spec(s: Seq<RecordView>) -> Seq<Seq<Seq<char>>> {
    s.map_values(|rv: RecordView| row_of(rv))
}

/// The full table text of a record sequence: the records in display order,
/// one row of display cells each, laid out with the fixed title row. The
/// text is a function of the record values alone — rendering the same
/// records twice gives byte-identical output.
pub open spec fn render_spec(s: Seq<RecordView>) -> Seq<char> {
    table_text_of(titles_spec(), rows_spec(sort_spec(s)))
}

/// The text a table of the given titles and cell rows is laid out as, by
/// the outside table formatter. It is a pure function of the cells, so it
/// carries a name rather than a definition.
pub uninterp spec fn table_text_of(titles: Seq<Seq<char>>, rows: Seq<Seq<Seq<char>>>) -> Seq<
    char,
>;

/// Relies on prettytable's `Table`: `Table::init`, `set_format` with the
/// borderless line-separator format, `set_titles`, and the `Display`
/// rendering, which lays the table out into a string from the cells and
/// the fixed format alone.
#[verifier::external_body]
fn table_string(titles: &Vec<String>, rows: &Vec<Vec<String>>) -> (r: String)
    ensures
        r@ == table_text_of(str_views(titles@), row_views(rows@)),
{
    let title_row = prettytable::Row::new(titles.iter().map(|c| prettytable::Cell::new(c)).collect());
    let body = rows
        .iter()
        .map(|row| prettytable::Row::new(row.iter().map(|c| prettytable::Cell::new(c)).collect()))
        .collect();
    let mut table = prettytable::Table::init(body);
    table.set_format(*prettytable::format::consts::FORMAT_NO_BORDER_LINE_SEPARATOR);
    table.set_titles(title_row);
    table.to_string()
}

/// The display cells of one record.
fn row_strings(r: &TodoRecord) -> (v: Vec<String>)
    requires
        valid_ts(r@.date),
    ensures
        str_views(v@) == row_of(r@),
{
    let id_cell = format_id(r.id);
    let done_cell = if r.done {
        "[X]".to_owned()
    } else {
        "[ ]".to_owned()
    };
    let t = r.text.as_str();
    let tlen = t.unicode_len();
    let text_cell = if tlen <= 32 {
        t.to_owned()
    } else {
        t.substring_char(0, 32).to_owned()
    };
    let date_cell = date_text(r.date);
    let arch_cell = match r.archival {
        Archival::Active => "No".to_owned(),
        Archival::Archived => "Yes".to_owned(),
        Archival::ReplacedBy(x) => format_id(x),
    };
    let mut v: Vec<String> = Vec::new();
    v.push(id_cell);
    v.push(done_cell);
    v.push(text_cell);
    v.push(date_cell);
    v.push(arch_cell);
    proof {
        assert(str_views(v@) =~= row_of(r@));
    }
    v
}

/// Renders records as a fixed-width table: sorted into display order, the
/// note text cut to thirty-two characters, the completion flag as a
/// two-glyph marker, the instant as a calendar date, the archival marker
/// as a sentinel or the successor id. The input is only read; the output
/// text is a function of the record values alone, so rendering twice
/// produces byte-identical output.
pub fn render(records: &Vec<TodoRecord>) -> (out: String)
    requires
        dates_valid(views_of(records@)),
    ensures
        out@ == render_spec(views_of(records@)),
{
    let sorted = sort_records(records);
    proof {
        lemma_sort_dates(views_of(records@));
    }
    let mut titles: Vec<String> = Vec::new();
    titles.push("id".to_owned());
    titles.push("done".to_owned());
    titles.push("text".to_owned());
    titles.push("date".to_owned());
    titles.push("archived".to_owned());
    proof {
        assert(str_views(titles@) =~= titles_spec());
    }
    let n = sorted.len();
    let ghost sv = views_of(sorted@);
    let mut rows: Vec<Vec<String>> = Vec::new();
    let mut i: usize = 0;
    proof {
        assert(row_views(rows@) =~~= rows_spec(sv.subrange(0, 0)));
    }
    while i < n
        invariant
            n == sorted@.len(),
            i <= n,
            sv == views_of(sorted@),
            dates_valid(sv),
            row_views(rows@) == rows_spec(sv.subrange(0, i as int)),
        decreases n - i,
    {
        proof {
            assert(valid_ts(sv[i as int].date));
        }
        let row = row_strings(&sorted[i]);
        let ghost prev = rows@;
        let ghost rowsnap = row@;
        rows.push(row);
        proof {
            assert(row_views(prev).len() == prev.len());
            assert(rows_spec(sv.subrange(0, i as int)).len() == i as int);
            assert(prev.len() == i as int);
            assert(rows@.len() == i + 1);
            assert(sv.subrange(0, i + 1) =~= sv.subrange(0, i as int).push(sv[i as int]));
            assert forall|k: int| 0 <= k < rows@.len() implies row_views(rows@)[k] == rows_spec(
                sv.subrange(0, i + 1),
            )[k] by {
                if k < i as int {
                    assert(rows@[k] == prev[k]);
                    assert(row_views(prev)[k] == rows_spec(sv.subrange(0, i as int))[k]);
                    assert(rows_spec(sv.subrange(0, i as int))[k] == row_of(
                        sv.subrange(0, i as int)[k],
                    ));
                    assert(sv.subrange(0, i + 1)[k] == sv[k]);
                } else {
                    assert(row_views(rows@)[k] == str_views(rowsnap));
                    assert(sv.subrange(0, i + 1)[k] == sv[i as int]);
                }
            }
            assert(row_views(rows@) =~= rows_spec(sv.subrange(0, i + 1)));
        }
        i += 1;
    }
    proof {
        assert(sv.subrange(0, n as int) =~= sv);
    }
    table_string(&titles, &rows)
}

} // verus!
