use vstd::prelude::*;
use crate::records::{FetchResult, PageRecord};

verus! {

// ---------------------------------------------------------------------------
// The scheduler's fan-in: as concurrent page fetches complete (in arbitrary
// order), their outcomes are classified — a success contributes its records,
// a failure contributes nothing — and the accumulated records are stably
// sorted by their index so that the final order does not depend on
// completion timing.
// ---------------------------------------------------------------------------

/// The predicate "this record's ordering key is `k`".
pub open spec fn with_key(k: usize) -> spec_fn(PageRecord) -> bool {
    |r: PageRecord| r.0 == k
}

/// Keys never decrease from left to right.
pub open spec fn sorted_by_key(s: Seq<PageRecord>) -> bool {
    forall|i: int, j: int| 0 <= i <= j < s.len() ==> (#[trigger] s[i]).0 <= (#[trigger] s[j]).0
}

/// The records the completed outcomes contribute, in completion order:
/// a successful page appends all of its records, a failed page none.
pub open spec fn gathered(outcomes: Seq<FetchResult>) -> Seq<PageRecord>
    decreases outcomes.len(),
{
    if outcomes.len() == 0 {
        Seq::empty()
    } else {
        (match outcomes[0] {
            Ok(records) => records@,
            Err(_) => Seq::empty(),
        }) + gathered(outcomes.drop_first())
    }
}

/// Insert `x` behind every record whose key is less than or equal to `x`'s
/// key — the insertion step of a stable insertion sort.
pub open spec fn insert_stable(x: PageRecord, s: Seq<PageRecord>) -> Seq<PageRecord>
    decreases s.len(),
{
    if s.len() == 0 {
        seq![x]
    } else if x.0 < s[0].0 {
        seq![x] + s
    } else {
        seq![s[0]] + insert_stable(x, s.drop_first())
    }
}

/// Stable insertion sort by record key: records are taken in arrival order,
/// and each goes behind all earlier records with a key less than or equal to
/// its own, so records with equal keys keep their arrival order.
pub open spec fn sort_records(s: Seq<PageRecord>) -> Seq<PageRecord>
    decreases s.len(),
{
    if s.len() == 0 {
        Seq::empty()
    } else {
        insert_stable(s.last(), sort_records(s.drop_last()))
    }
}

/// What the scheduler hands back for a given completion sequence.
pub open spec fn scheduled_output(outcomes: Seq<FetchResult>) -> Seq<PageRecord> {
    sort_records(gathered(outcomes))
}

// ---------------------------------------------------------------------------
// Executable fan-in.
// ---------------------------------------------------------------------------

/// Insert one record into an already key-sorted vector, behind all records
/// with a key less than or equal to its own.
fn insert_record(sorted: &mut Vec<PageRecord>, x: PageRecord)
    ensures
        final(sorted)@ == insert_stable(x, old(sorted)@),
{
    let mut j: usize = 0;
    while j < sorted.len() && sorted[j].0 <= x.0
        invariant
            j <= sorted@.len(),
            forall|k: int| 0 <= k < j ==> (#[trigger] sorted@[k]).0 <= x.0,
        decreases sorted@.len() - j,
    {
        j = j + 1;
    }
    proof {
        lemma_insert_stable_at(x, sorted@, j as int);
    }
    sorted.insert(j, x);
    proof {
        assert(final(sorted)@ =~= insert_stable(x, old(sorted)@));
    }
}

/// The scheduler's fan-in. Takes the per-page outcomes in the order the
/// concurrent units completed, drops every failed page, and returns all
/// records of the successful pages stably sorted by their index.
pub fn aggregate_outcomes(outcomes: Vec<FetchResult>) -> (result: Vec<PageRecord>)
    ensures
        result@ == scheduled_output(outcomes@),
{
    let ghost all = outcomes@;
    let mut outcomes = outcomes;
    let mut acc: Vec<PageRecord> = Vec::new();
    while outcomes.len() > 0
        invariant
            gathered(all) == acc@ + gathered(outcomes@),
        decreases outcomes@.len(),
    {
        let ghost before = outcomes@;
        let outcome = outcomes.remove(0);
        proof {
            assert(outcomes@ =~= before.drop_first());
        }
        match outcome {
            Ok(mut records) => {
                acc.append(&mut records);
                proof {
                    assert(acc@ + gathered(outcomes@) =~= gathered(all));
                }
            },
            Err(_) => {
                proof {
                    assert(acc@ + gathered(outcomes@) =~= gathered(all));
                }
            },
        }
    }
    proof {
        assert(acc@ =~= gathered(all));
    }

    let ghost flat = acc@;
    let mut acc = acc;
    let mut sorted: Vec<PageRecord> = Vec::new();
    let ghost mut done: int = 0;
    while acc.len() > 0
        invariant
            0 <= done <= flat.len(),
            acc@ =~= flat.skip(done),
            sorted@ == sort_records(flat.take(done)),
        decreases acc@.len(),
    {
        let ghost before = acc@;
        let x = acc.remove(0);
        proof {
            assert(acc@ =~= before.drop_first());
            assert(x == flat[done]);
            assert(acc@ =~= flat.skip(done + 1));
        }
        insert_record(&mut sorted, x);
        proof {
            let taken = flat.take(done + 1);
            assert(taken.last() == x);
            assert(taken.drop_last() =~= flat.take(done));
            assert(sorted@ == sort_records(flat.take(done + 1)));
        }
        proof {
            done = done + 1;
        }
    }
    proof {
        assert(flat.take(done) =~= flat);
    }
    sorted
}

// ---------------------------------------------------------------------------
// Supporting lemmas.
// ---------------------------------------------------------------------------

/// Positional characterisation of `insert_stable`: if the first `j` records
/// of `s` have keys at most `x`'s and the record at `j` (if any) has a
/// strictly greater key, then `x` lands exactly at position `j`.
proof fn lemma_insert_stable_at(x: PageRecord, s: Seq<PageRecord>, j: int)
    requires
        0 <= j <= s.len(),
        forall|k: int| 0 <= k < j ==> (#[trigger] s[k]).0 <= x.0,
        j < s.len() ==> x.0 < s[j].0,
    ensures
        insert_stable(x, s) =~= s.insert(j, x),
    decreases j,
{
    if j == 0 {
        if s.len() == 0 {
            assert(insert_stable(x, s) =~= s.insert(0, x));
        } else {
            assert(x.0 < s[0].0);
            assert(insert_stable(x, s) =~= s.insert(0, x));
        }
    } else {
        assert(s[0].0 <= x.0);
        lemma_insert_stable_at(x, s.drop_first(), j - 1);
        assert(insert_stable(x, s) =~= seq![s[0]] + s.drop_first().insert(j - 1, x));
        assert(seq![s[0]] + s.drop_first().insert(j - 1, x) =~= s.insert(j, x));
    }
}

/// Every record of `insert_stable(x, s)` is `x` itself or a record of `s`.
proof fn lemma_insert_stable_contains(x: PageRecord, s: Seq<PageRecord>)
    ensures
        insert_stable(x, s).len() == s.len() + 1,
        forall|i: int|
            0 <= i < insert_stable(x, s).len() ==> (#[trigger] insert_stable(x, s)[i] == x
                || s.contains(insert_stable(x, s)[i])),
    decreases s.len(),
{
    if s.len() == 0 {
    } else if x.0 < s[0].0 {
        assert forall|i: int| 0 <= i < insert_stable(x, s).len() implies (#[trigger] insert_stable(
            x,
            s,
        )[i] == x || s.contains(insert_stable(x, s)[i])) by {
            if i > 0 {
                assert(insert_stable(x, s)[i] == s[i - 1]);
            }
        }
    } else {
        lemma_insert_stable_contains(x, s.drop_first());
        assert forall|i: int| 0 <= i < insert_stable(x, s).len() implies (#[trigger] insert_stable(
            x,
            s,
        )[i] == x || s.contains(insert_stable(x, s)[i])) by {
            if i > 0 {
                let t = insert_stable(x, s.drop_first());
                assert(insert_stable(x, s)[i] == t[i - 1]);
                if t[i - 1] != x {
                    let y = t[i - 1];
                    let w = choose|w: int| 0 <= w < s.drop_first().len() && s.drop_first()[w] == y;
                    assert(s[w + 1] == y);
                }
            } else {
                assert(insert_stable(x, s)[0] == s[0]);
                assert(s.contains(s[0]));
            }
        }
    }
}

/// Inserting into a key-sorted sequence keeps it key-sorted.
proof fn lemma_insert_stable_sorted(x: PageRecord, s: Seq<PageRecord>)
    requires
        sorted_by_key(s),
    ensures
        sorted_by_key(insert_stable(x, s)),
    decreases s.len(),
{
    if s.len() == 0 {
    } else if x.0 < s[0].0 {
        assert forall|i: int, j: int|
            0 <= i <= j < insert_stable(x, s).len() implies (#[trigger] insert_stable(x, s)[i]).0
            <= (#[trigger] insert_stable(x, s)[j]).0 by {
            if i > 0 {
                assert(insert_stable(x, s)[i] == s[i - 1]);
            }
            if j > 0 {
                assert(insert_stable(x, s)[j] == s[j - 1]);
            }
        }
    } else {
        assert(sorted_by_key(s.drop_first()));
        lemma_insert_stable_sorted(x, s.drop_first());
        lemma_insert_stable_contains(x, s.drop_first());
        let t = insert_stable(x, s.drop_first());
        assert forall|i: int, j: int|
            0 <= i <= j < insert_stable(x, s).len() implies (#[trigger] insert_stable(x, s)[i]).0
            <= (#[trigger] insert_stable(x, s)[j]).0 by {
            if i > 0 {
                assert(insert_stable(x, s)[i] == t[i - 1]);
                assert(insert_stable(x, s)[j] == t[j - 1]);
            } else if j > 0 {
                assert(insert_stable(x, s)[j] == t[j - 1]);
                if t[j - 1] == x {
                    assert(s[0].0 <= x.0);
                } else {
                    let y = t[j - 1];
                    let w = choose|w: int| 0 <= w < s.drop_first().len() && s.drop_first()[w] == y;
                    assert(s[w + 1] == y);
                    assert(s[0].0 <= s[w + 1].0);
                }
            }
        }
    }
}

/// The sort's output is key-sorted.
pub proof fn lemma_sort_records_sorted(s: Seq<PageRecord>)
    ensures
        sorted_by_key(sort_records(s)),
    decreases s.len(),
{
    if s.len() == 0 {
    } else {
        lemma_sort_records_sorted(s.drop_last());
        lemma_insert_stable_sorted(s.last(), sort_records(s.drop_last()));
    }
}

/// Filtering a singleton.
proof fn lemma_filter_singleton(x: PageRecord, p: spec_fn(PageRecord) -> bool)
    ensures
        p(x) ==> seq![x].filter(p) =~= seq![x],
        !p(x) ==> seq![x].filter(p) =~= Seq::<PageRecord>::empty(),
{
    reveal_with_fuel(Seq::filter, 2);
    assert(seq![x].drop_last() =~= Seq::<PageRecord>::empty());
}

/// In a key-sorted sequence whose head has a key strictly above `x`'s, no
/// record has `x`'s key.
proof fn lemma_sorted_above_has_no_key(x: PageRecord, s: Seq<PageRecord>)
    requires
        sorted_by_key(s),
        s.len() > 0 ==> x.0 < s[0].0,
    ensures
        s.filter(with_key(x.0)) =~= Seq::<PageRecord>::empty(),
{
    assert forall|i: int| 0 <= i < s.len() implies !(with_key(x.0)(#[trigger] s[i])) by {
        assert(s[0].0 <= s[i].0);
    }
    s.lemma_all_neg_filter_empty(with_key(x.0));
}

/// How the stable insertion behaves under key-filtering: it appends `x` to
/// the records with `x`'s key and leaves every other key's records alone.
proof fn lemma_insert_stable_filter(x: PageRecord, s: Seq<PageRecord>, k: usize)
    requires
        sorted_by_key(s),
    ensures
        k == x.0 ==> insert_stable(x, s).filter(with_key(k)) =~= s.filter(with_key(k)) + seq![x],
        k != x.0 ==> insert_stable(x, s).filter(with_key(k)) =~= s.filter(with_key(k)),
    decreases s.len(),
{
    broadcast use vstd::seq_lib::group_filter_ensures;

    let p = with_key(k);
    lemma_filter_singleton(x, p);
    if s.len() == 0 {
        assert(insert_stable(x, s) =~= seq![x]);
    } else if x.0 < s[0].0 {
        Seq::filter_distributes_over_add(seq![x], s, p);
        assert(insert_stable(x, s) == seq![x] + s);
        if k == x.0 {
            lemma_sorted_above_has_no_key(x, s);
            assert(s.filter(p) =~= Seq::<PageRecord>::empty());
            assert(insert_stable(x, s).filter(p) =~= seq![x]);
            assert(s.filter(p) + seq![x] =~= seq![x]);
        }
    } else {
        assert(sorted_by_key(s.drop_first()));
        lemma_insert_stable_filter(x, s.drop_first(), k);
        lemma_filter_singleton(s[0], p);
        Seq::filter_distributes_over_add(seq![s[0]], insert_stable(x, s.drop_first()), p);
        Seq::filter_distributes_over_add(seq![s[0]], s.drop_first(), p);
        assert(insert_stable(x, s) == seq![s[0]] + insert_stable(x, s.drop_first()));
        assert(s =~= seq![s[0]] + s.drop_first());
        assert(s.filter(p) == (seq![s[0]] + s.drop_first()).filter(p));
        if k == x.0 {
            assert(insert_stable(x, s).filter(p) =~= seq![s[0]].filter(p) + (s.drop_first().filter(
                p,
            ) + seq![x]));
            assert(seq![s[0]].filter(p) + (s.drop_first().filter(p) + seq![x]) =~= (
            seq![s[0]].filter(p) + s.drop_first().filter(p)) + seq![x]);
        }
    }
}

/// Stability of the sort: for every key, the records carrying that key come
/// out exactly as they went in — same records, same relative order.
pub proof fn lemma_sort_records_stable(s: Seq<PageRecord>, k: usize)
    ensures
        sort_records(s).filter(with_key(k)) == s.filter(with_key(k)),
    decreases s.len(),
{
    broadcast use vstd::seq_lib::group_filter_ensures;

    let p = with_key(k);
    if s.len() == 0 {
        assert(sort_records(s).filter(p) =~= s.filter(p));
    } else {
        let x = s.last();
        let prefix = s.drop_last();
        lemma_sort_records_stable(prefix, k);
        lemma_sort_records_sorted(prefix);
        lemma_insert_stable_filter(x, sort_records(prefix), k);
        lemma_filter_singleton(x, p);
        Seq::filter_distributes_over_add(prefix, seq![x], p);
        assert(s =~= prefix + seq![x]);
        assert(s.filter(p) == (prefix + seq![x]).filter(p));
        if k == x.0 {
            assert(sort_records(s).filter(p) =~= prefix.filter(p) + seq![x]);
            assert(s.filter(p) =~= prefix.filter(p) + seq![x]);
        } else {
            assert(sort_records(s).filter(p) =~= prefix.filter(p));
            assert(s.filter(p) =~= prefix.filter(p));
        }
        assert(sort_records(s).filter(p) =~= s.filter(p));
    }
}

/// Two key-sorted sequences that agree, key by key, on which records carry
/// each key — and in what relative order — are the same sequence.
proof fn lemma_sorted_filter_unique(s: Seq<PageRecord>, t: Seq<PageRecord>)
    requires
        sorted_by_key(s),
        sorted_by_key(t),
        forall|k: usize| #[trigger] s.filter(with_key(k)) == t.filter(with_key(k)),
    ensures
        s =~= t,
    decreases s.len(),
{
    broadcast use vstd::seq_lib::group_filter_ensures;

    if s.len() == 0 && t.len() == 0 {
    } else if s.len() == 0 {
        let k0 = t[0].0;
        assert(with_key(k0)(t[0]));
        t.lemma_filter_contains(with_key(k0), 0);
        assert(s.filter(with_key(k0)) == t.filter(with_key(k0)));
        s.lemma_filter_len(with_key(k0));
        assert(false);
    } else if t.len() == 0 {
        let k0 = s[0].0;
        assert(with_key(k0)(s[0]));
        s.lemma_filter_contains(with_key(k0), 0);
        t.lemma_filter_len(with_key(k0));
        assert(false);
    } else {
        let ks = s[0].0;
        let kt = t[0].0;
        lemma_filter_singleton(s[0], with_key(ks));
        lemma_filter_singleton(t[0], with_key(kt));
        Seq::filter_distributes_over_add(seq![s[0]], s.drop_first(), with_key(ks));
        Seq::filter_distributes_over_add(seq![t[0]], t.drop_first(), with_key(kt));
        assert(s =~= seq![s[0]] + s.drop_first());
        assert(t =~= seq![t[0]] + t.drop_first());
        // the head of a key-sorted sequence heads its own key's filter
        assert(s.filter(with_key(ks))[0] == s[0]);
        assert(t.filter(with_key(kt))[0] == t[0]);
        // each head's key occurs in the other sequence, so the minimal keys agree
        assert(t.filter(with_key(ks)).len() > 0);
        t.lemma_filter_contains_rev(with_key(ks), s.filter(with_key(ks))[0]);
        let ws = choose|ws: int| 0 <= ws < t.len() && t[ws] == s.filter(with_key(ks))[0];
        assert(kt <= ks);
        assert(s.filter(with_key(kt)).len() > 0);
        s.lemma_filter_contains_rev(with_key(kt), t.filter(with_key(kt))[0]);
        let wt = choose|wt: int| 0 <= wt < s.len() && s[wt] == t.filter(with_key(kt))[0];
        assert(ks <= kt);
        assert(ks == kt);
        assert(s[0] == t[0]);
        // strip the equal heads and recurse
        let s1 = s.drop_first();
        let t1 = t.drop_first();
        assert(sorted_by_key(s1));
        assert(sorted_by_key(t1));
        assert forall|k: usize| #[trigger] s1.filter(with_key(k)) == t1.filter(with_key(k)) by {
            lemma_filter_singleton(s[0], with_key(k));
            Seq::filter_distributes_over_add(seq![s[0]], s1, with_key(k));
            Seq::filter_distributes_over_add(seq![t[0]], t1, with_key(k));
            assert(s.filter(with_key(k)) == seq![s[0]].filter(with_key(k)) + s1.filter(with_key(k)));
            assert(t.filter(with_key(k)) == seq![t[0]].filter(with_key(k)) + t1.filter(with_key(k)));
            if k == ks {
                assert(seq![s[0]] + s1.filter(with_key(k)) =~= seq![t[0]] + t1.filter(with_key(k)));
                assert(s1.filter(with_key(k)) =~= (seq![s[0]] + s1.filter(with_key(k))).drop_first());
                assert(t1.filter(with_key(k)) =~= (seq![t[0]] + t1.filter(with_key(k))).drop_first());
            } else {
                assert(seq![s[0]].filter(with_key(k)) =~= Seq::<PageRecord>::empty());
                assert(s1.filter(with_key(k)) =~= s.filter(with_key(k)));
                assert(t1.filter(with_key(k)) =~= t.filter(with_key(k)));
            }
        }
        lemma_sorted_filter_unique(s1, t1);
    }
}

// ---------------------------------------------------------------------------
// The scheduler's laws.
// ---------------------------------------------------------------------------

/// The scheduler's output is ordered: record keys are monotonically
/// non-decreasing, whatever the per-page outcomes were.
pub proof fn lemma_scheduler_output_sorted(outcomes: Seq<FetchResult>)
    ensures
        sorted_by_key(scheduled_output(outcomes)),
{
    lemma_sort_records_sorted(gathered(outcomes));
}

/// If every page fetch failed, the scheduler returns an empty sequence —
/// not an error.
pub proof fn lemma_all_failures_yield_empty(outcomes: Seq<FetchResult>)
    requires
        forall|i: int| 0 <= i < outcomes.len() ==> (#[trigger] outcomes[i]) is Err,
    ensures
        scheduled_output(outcomes) == Seq::<PageRecord>::empty(),
    decreases outcomes.len(),
{
    if outcomes.len() == 0 {
        assert(gathered(outcomes) =~= Seq::<PageRecord>::empty());
    } else {
        lemma_all_failures_yield_empty(outcomes.drop_first());
        assert(gathered(outcomes) =~= gathered(outcomes.drop_first()));
    }
    assert(sort_records(Seq::<PageRecord>::empty()) =~= Seq::<PageRecord>::empty());
}

/// Stability of the whole fan-in: for every key, the scheduler's output
/// lists exactly the gathered records of that key, in the relative order
/// their pages emitted them. Records of a lower page index therefore all
/// precede records of a higher one, however the pages completed.
pub proof fn lemma_scheduler_stable(outcomes: Seq<FetchResult>, k: usize)
    ensures
        scheduled_output(outcomes).filter(with_key(k)) == gathered(outcomes).filter(with_key(k)),
{
    lemma_sort_records_stable(gathered(outcomes), k);
}

/// Completion order does not matter: two completion sequences whose
/// gathered records agree key by key — as they do when the same pages
/// succeed with the same records, in whatever interleaving — produce the
/// same output.
pub proof fn lemma_completion_order_irrelevant(o1: Seq<FetchResult>, o2: Seq<FetchResult>)
    requires
        forall|k: usize| #[trigger] gathered(o1).filter(with_key(k)) == gathered(o2).filter(
            with_key(k),
        ),
    ensures
        scheduled_output(o1) == scheduled_output(o2),
{
    lemma_sort_records_sorted(gathered(o1));
    lemma_sort_records_sorted(gathered(o2));
    assert forall|k: usize| #[trigger] scheduled_output(o1).filter(with_key(k))
        == scheduled_output(o2).filter(with_key(k)) by {
        lemma_sort_records_stable(gathered(o1), k);
        lemma_sort_records_stable(gathered(o2), k);
    }
    lemma_sorted_filter_unique(scheduled_output(o1), scheduled_output(o2));
    assert(scheduled_output(o1) =~= scheduled_output(o2));
}

/// What one completed outcome contributes: its records on success, nothing
/// on failure.
pub open spec fn outcome_records(outcome: FetchResult) -> Seq<PageRecord> {
    match outcome {
        Ok(records) => records@,
        Err(_) => Seq::empty(),
    }
}

/// No record key is produced by two different completions — as holds when
/// every page's records carry keys of that page alone.
pub open spec fn keys_confined_to_one_outcome(outcomes: Seq<FetchResult>) -> bool {
    forall|i: int, j: int, k: usize|
        0 <= i < j < outcomes.len() ==> !((#[trigger] outcome_records(outcomes[i]).filter(
            with_key(k),
        )).len() > 0 && (#[trigger] outcome_records(outcomes[j]).filter(with_key(k))).len() > 0)
}

/// Under `keys_confined_to_one_outcome`, each key's gathered records are
/// exactly the one contributing outcome's records of that key — wherever
/// in the completion sequence that outcome stands.
proof fn lemma_gathered_filter_from_one_outcome(outcomes: Seq<FetchResult>, k: usize)
    requires
        keys_confined_to_one_outcome(outcomes),
    ensures
        (forall|i: int|
            0 <= i < outcomes.len() ==> (#[trigger] outcome_records(outcomes[i]).filter(
                with_key(k),
            )).len() == 0) ==> gathered(outcomes).filter(with_key(k)) == Seq::<
            PageRecord,
        >::empty(),
        forall|i: int|
            0 <= i < outcomes.len() && (#[trigger] outcome_records(outcomes[i]).filter(
                with_key(k),
            )).len() > 0 ==> gathered(outcomes).filter(with_key(k)) == outcome_records(
                outcomes[i],
            ).filter(with_key(k)),
    decreases outcomes.len(),
{
    broadcast use vstd::seq_lib::group_filter_ensures;

    let p = with_key(k);
    if outcomes.len() == 0 {
        assert(gathered(outcomes) =~= Seq::<PageRecord>::empty());
        assert(Seq::<PageRecord>::empty().filter(p) =~= Seq::<PageRecord>::empty());
    } else {
        let head = outcome_records(outcomes[0]);
        let rest = outcomes.drop_first();
        assert(gathered(outcomes) == head + gathered(rest));
        Seq::filter_distributes_over_add(head, gathered(rest), p);
        assert forall|i: int, j: int, kk: usize|
            0 <= i < j < rest.len() implies !((#[trigger] outcome_records(rest[i]).filter(
            with_key(kk),
        )).len() > 0 && (#[trigger] outcome_records(rest[j]).filter(with_key(kk))).len() > 0) by {
            assert(rest[i] == outcomes[i + 1]);
            assert(rest[j] == outcomes[j + 1]);
            assert(!(outcome_records(outcomes[i + 1]).filter(with_key(kk)).len() > 0
                && outcome_records(outcomes[j + 1]).filter(with_key(kk)).len() > 0));
        }
        lemma_gathered_filter_from_one_outcome(rest, k);
        if forall|i: int|
            0 <= i < outcomes.len() ==> (#[trigger] outcome_records(outcomes[i]).filter(p)).len()
                == 0 {
            assert forall|i: int|
                0 <= i < rest.len() implies (#[trigger] outcome_records(rest[i]).filter(p)).len()
                == 0 by {
                assert(rest[i] == outcomes[i + 1]);
            }
            assert(gathered(rest).filter(p) == Seq::<PageRecord>::empty());
            assert(gathered(outcomes).filter(p) =~= Seq::<PageRecord>::empty());
        } else {
            assert forall|i: int|
                0 <= i < outcomes.len() && (#[trigger] outcome_records(outcomes[i]).filter(
                    p,
                )).len() > 0 implies gathered(outcomes).filter(p) == outcome_records(
                outcomes[i],
            ).filter(p) by {
                if i == 0 {
                    assert forall|j: int|
                        0 <= j < rest.len() implies (#[trigger] outcome_records(rest[j]).filter(
                        p,
                    )).len() == 0 by {
                        assert(rest[j] == outcomes[j + 1]);
                        assert(!(outcome_records(outcomes[0]).filter(with_key(k)).len() > 0
                            && outcome_records(outcomes[j + 1]).filter(with_key(k)).len() > 0));
                    }
                    assert(gathered(rest).filter(p) == Seq::<PageRecord>::empty());
                    assert(gathered(outcomes).filter(p) =~= head.filter(p));
                } else {
                    assert(rest[i - 1] == outcomes[i]);
                    assert(gathered(rest).filter(p) == outcome_records(outcomes[i]).filter(p));
                    assert(!(outcome_records(outcomes[0]).filter(with_key(k)).len() > 0
                        && outcome_records(outcomes[i]).filter(with_key(k)).len() > 0));
                    assert(head.filter(p).len() == 0);
                    assert(head.filter(p) =~= Seq::<PageRecord>::empty());
                    assert(gathered(outcomes).filter(p) =~= outcome_records(outcomes[i]).filter(
                        p,
                    ));
                }
            }
        }
    }
}

/// Reordering the completions changes nothing: when the same per-page
/// outcomes arrive in two different orders, and no record key is produced
/// by two different completions, the scheduler's output is identical.
pub proof fn lemma_reordered_completions_same_output(o1: Seq<FetchResult>, o2: Seq<FetchResult>)
    requires
        o1.to_multiset() == o2.to_multiset(),
        keys_confined_to_one_outcome(o1),
        keys_confined_to_one_outcome(o2),
    ensures
        scheduled_output(o1) == scheduled_output(o2),
{
    broadcast use vstd::seq_lib::group_to_multiset_ensures;

    assert forall|k: usize| #[trigger] gathered(o1).filter(with_key(k)) == gathered(o2).filter(
        with_key(k),
    ) by {
        let p = with_key(k);
        lemma_gathered_filter_from_one_outcome(o1, k);
        lemma_gathered_filter_from_one_outcome(o2, k);
        if exists|i: int|
            0 <= i < o1.len() && (#[trigger] outcome_records(o1[i]).filter(p)).len() > 0 {
            let i = choose|i: int|
                0 <= i < o1.len() && (#[trigger] outcome_records(o1[i]).filter(p)).len() > 0;
            assert(o1.contains(o1[i]));
            assert(o1.to_multiset().contains(o1[i]));
            assert(o2.contains(o1[i]));
            let j = choose|j: int| 0 <= j < o2.len() && o2[j] == o1[i];
            assert(outcome_records(o2[j]).filter(p).len() > 0);
            assert(gathered(o1).filter(p) == outcome_records(o1[i]).filter(p));
            assert(gathered(o2).filter(p) == outcome_records(o2[j]).filter(p));
        } else {
            assert forall|i: int|
                0 <= i < o1.len() implies (#[trigger] outcome_records(o1[i]).filter(p)).len()
                == 0 by {}
            assert forall|j: int|
                0 <= j < o2.len() implies (#[trigger] outcome_records(o2[j]).filter(p)).len()
                == 0 by {
                assert(o2.contains(o2[j]));
                assert(o2.to_multiset().contains(o2[j]));
                assert(o1.contains(o2[j]));
                let i = choose|i: int| 0 <= i < o1.len() && o1[i] == o2[j];
                assert(outcome_records(o1[i]).filter(p).len() == 0);
            }
            assert(gathered(o1).filter(p) == Seq::<PageRecord>::empty());
            assert(gathered(o2).filter(p) == Seq::<PageRecord>::empty());
        }
    }
    lemma_completion_order_irrelevant(o1, o2);
}

/// The scheduler is a function of its inputs: identical outcome sequences
/// give identical output, so a second identical invocation repeats the
/// first exactly.
pub proof fn lemma_scheduler_deterministic(o1: Seq<FetchResult>, o2: Seq<FetchResult>)
    requires
        o1 == o2,
    ensures
        scheduled_output(o1) == scheduled_output(o2),
{
}

} // verus!
