use vstd::prelude::*;
use crate::codec::{canon_seq, canon_string};
use crate::record::{RecordView, TodoRecord, views_of, lemma_views_push};
use crate::store::TodoStore;
use crate::text::{contains_seq, contains_sub};

verus! {

/// A record matches a search text when the text occurs in the record's
/// canonical representation — any field, not just the note text.
pub open spec fn rec_matches(rv: RecordView, needle: Seq<char>) -> bool {
    contains_seq(canon_seq(rv), needle)
}

/// The records of `s` that match `needle`, in the order of `s`.
pub open spec fn filtered(s: Seq<RecordView>, needle: Seq<char>) -> Seq<RecordView> {
    s.filter(|rv: RecordView| rec_matches(rv, needle))
}

/// What a search returns: every matching record in fetch order, cut to the
/// first `n` when a cap `Some(n)` is given.
pub open spec fn search_spec(s: Seq<RecordView>, needle: Seq<char>, max: Option<usize>) -> Seq<
    RecordView,
> {
    match max {
        Option::None => filtered(s, needle),
        Option::Some(n) => {
            let f = filtered(s, needle);
            if n as int <= f.len() {
                f.take(n as int)
            } else {
                f
            }
        },
    }
}

/// Filtering one more record appends it exactly when it matches.
proof fn lemma_filtered_step(s: Seq<RecordView>, needle: Seq<char>, i: int)
    requires
        0 <= i < s.len(),
    ensures
        filtered(s.subrange(0, i + 1), needle) == if rec_matches(s[i], needle) {
            filtered(s.subrange(0, i), needle).push(s[i])
        } else {
            filtered(s.subrange(0, i), needle)
        },
{
    let pred = |rv: RecordView| rec_matches(rv, needle);
    let one = seq![s[i]];
    assert(s.subrange(0, i + 1) =~= s.subrange(0, i) + one);
    Seq::filter_distributes_over_add(s.subrange(0, i), one, pred);
    reveal_with_fuel(Seq::filter, 2);
    assert(one.drop_last() =~= Seq::<RecordView>::empty());
    if pred(s[i]) {
        assert(one.filter(pred) =~= seq![s[i]]);
        assert(filtered(s.subrange(0, i), needle) + seq![s[i]] =~= filtered(
            s.subrange(0, i),
            needle,
        ).push(s[i]));
    } else {
        assert(one.filter(pred) =~= Seq::<RecordView>::empty());
        assert(filtered(s.subrange(0, i), needle) + one.filter(pred) =~= filtered(
            s.subrange(0, i),
            needle,
        ));
    }
}

/// The matches of a prefix are a prefix of the matches of the whole: what
/// a capped scan has collected when it stops is exactly the front of what
/// the full scan would collect.
proof fn lemma_filtered_prefix(s: Seq<RecordView>, needle: Seq<char>, i: int, j: int)
    requires
        0 <= i <= j <= s.len(),
    ensures
        filtered(s.subrange(0, i), needle).len() <= filtered(s.subrange(0, j), needle).len(),
        filtered(s.subrange(0, j), needle).take(
            filtered(s.subrange(0, i), needle).len() as int,
        ) == filtered(s.subrange(0, i), needle),
    decreases j - i,
{
    if i == j {
        assert(filtered(s.subrange(0, j), needle).take(
            filtered(s.subrange(0, i), needle).len() as int,
        ) =~= filtered(s.subrange(0, i), needle));
    } else {
        lemma_filtered_prefix(s, needle, i, j - 1);
        lemma_filtered_step(s, needle, j - 1);
        assert(filtered(s.subrange(0, j), needle).take(
            filtered(s.subrange(0, i), needle).len() as int,
        ) =~= filtered(s.subrange(0, i), needle));
    }
}

impl TodoStore {
    /// Scans the store in fetch order and collects the records whose
    /// canonical text contains `needle`, stopping as soon as `max` matches
    /// stand collected when a cap is given. The empty needle matches every
    /// record.
    pub fn search(&self, needle: &str, max: Option<usize>) -> (r: Vec<TodoRecord>)
        ensures
            views_of(r@) == search_spec(self@, needle@, max),
    {
        let rows = self.fetch_all();
        let n = rows.len();
        let mut out: Vec<TodoRecord> = Vec::new();
        let mut i: usize = 0;
        proof {
            assert(views_of(out@) =~= filtered(self@.subrange(0, 0), needle@));
        }
        while i < n
            invariant
                views_of(rows@) == self@,
                n == self@.len(),
                i <= n,
                views_of(out@) == filtered(self@.subrange(0, i as int), needle@),
                max matches Some(m) ==> out@.len() <= m as int,
            decreases n - i,
        {
            match max {
                Some(m) => {
                    if out.len() == m {
                        proof {
                            lemma_filtered_prefix(self@, needle@, i as int, self@.len() as int);
                            assert(self@.subrange(0, self@.len() as int) =~= self@);
                        }
                        return out;
                    }
                },
                None => {},
            }
            let c = canon_string(&rows[i]);
            proof {
                lemma_filtered_step(self@, needle@, i as int);
            }
            if contains_sub(c.as_str(), needle) {
                let picked = rows[i].clone();
                proof {
                    lemma_views_push(out@, picked);
                }
                out.push(picked);
            }
            i += 1;
        }
        proof {
            assert(self@.subrange(0, n as int) =~= self@);
            match max {
                Some(m) => {
                    if out@.len() == m as int {
                        assert(filtered(self@, needle@).take(m as int) =~= filtered(
                            self@,
                            needle@,
                        ));
                    }
                },
                None => {},
            }
        }
        out
    }
}

/// Law (search totality): a search for the empty text with no cap returns
/// every record in the store, in fetch order.
pub proof fn lemma_search_empty_returns_all(s: Seq<RecordView>, needle: Seq<char>)
    requires
        needle.len() == 0,
    ensures
        search_spec(s, needle, None) == s,
    decreases s.len(),
{
    reveal_with_fuel(Seq::filter, 2);
    if s.len() == 0 {
        assert(filtered(s, needle) =~= s);
    } else {
        lemma_search_empty_returns_all(s.drop_last(), needle);
        assert(canon_seq(s.last()).subrange(0, 0 + needle.len() as int) =~= needle);
        assert(rec_matches(s.last(), needle));
        assert(filtered(s, needle) =~= filtered(s.drop_last(), needle).push(s.last()));
        assert(filtered(s, needle) =~= s);
    }
}

/// Law (capped search): a capped search returns at most `n` records, each
/// of which matches, and what it returns is a prefix of what the uncapped
/// search returns.
pub proof fn lemma_search_cap_prefix(s: Seq<RecordView>, needle: Seq<char>, n: usize)
    ensures
        search_spec(s, needle, Some(n)).len() <= n as int,
        search_spec(s, needle, None).take(search_spec(s, needle, Some(n)).len() as int)
            == search_spec(s, needle, Some(n)),
        forall|k: int|
            0 <= k < search_spec(s, needle, Some(n)).len() ==> rec_matches(
                #[trigger] search_spec(s, needle, Some(n))[k],
                needle,
            ),
{
    broadcast use vstd::seq_lib::group_filter_ensures;

    let f = filtered(s, needle);
    if n as int <= f.len() {
        assert(f.take(n as int).take(n as int) =~= f.take(n as int));
    } else {
        assert(f.take(f.len() as int) =~= f);
    }
}

} // verus!
