//! Properties of the merge that span its parts: how calls are paired with
//! the other edition's runs, that a merge changes runs and keeps anchors,
//! that it applies exactly the other edition's changes to the original
//! text, that merging again changes nothing, and that a script merged with
//! itself comes back unchanged.

use vstd::prelude::*;
use crate::anchor::AnchorKeyV;
use crate::ast::{BodyV, CalledV, FunctionV, find_fn_from};
use crate::voice::sat_nat;
use crate::swap::{
    BucketV, CounterV, StatsV, SwapStateV, SwapVisitor, counter_get, counter_set, find_bucket,
    find_bucket_from, find_counter_from, function_occs, index_fold, index_of_function,
    lemma_find_bucket_from, lemma_find_counter_from, swap_scena_spec, lookup_nonempty, sat_inc, stats_zero,
    substitute_spec, swap_function_spec, swap_visit_spec, merge_spec, rewrite_spec,
};
use crate::voice::calls_have_voice_spec;
use crate::verify::{
    ReportV, RunV, check_bucket, check_buckets, check_matched, report_zero, resolve_spec, verify_fold, verify_function_spec,
    verify_scena_spec,
};
use crate::rewriting::{
    all_fit, answer_occ, answered, fit_along, lemma_all_fit_append, lemma_answered_append, lemma_answered_small,
    lemma_calls_fit, lemma_rw_calls_occ, lemma_rw_calls_voice, lemma_rw_stmts_occ, lemma_stmts_fit,
};
use crate::stability::fits;
use crate::walker::{
    Occ, Site, law_rewrite_body_visits, law_rewrite_called_visits, lemma_visit_fold_append,
    lemma_visit_fold_small, occ_calls, occ_stmts, quiet_along, visit_fold, rw_stmts,
};

verus! {

// ---------------------------------------------------------------- counters

proof fn lemma_find_counter_update(cs: Seq<CounterV>, i: int, c: CounterV, j: int, s2: Site, k2: AnchorKeyV)
    requires
        0 <= i < cs.len(),
        cs[i].site == c.site,
        cs[i].key == c.key,
    ensures
        find_counter_from(cs.update(i, c), j, s2, k2) == find_counter_from(cs, j, s2, k2),
    decreases cs.len() - j,
{
    if 0 <= j < cs.len() {
        if !(cs[j].site == s2 && cs[j].key == k2) {
            lemma_find_counter_update(cs, i, c, j + 1, s2, k2);
        }
    }
}

proof fn lemma_find_counter_push(cs: Seq<CounterV>, c: CounterV, j: int, s2: Site, k2: AnchorKeyV)
    requires
        0 <= j <= cs.len(),
    ensures
        find_counter_from(cs.push(c), j, s2, k2) == match find_counter_from(cs, j, s2, k2) {
            Some(x) => Some(x),
            None => if c.site == s2 && c.key == k2 {
                Some(cs.len() as int)
            } else {
                None
            },
        },
    decreases cs.len() - j,
{
    if j < cs.len() {
        if !(cs[j].site == s2 && cs[j].key == k2) {
            lemma_find_counter_push(cs, c, j + 1, s2, k2);
        }
    } else {
        assert(cs.push(c)[j] == c);
        assert(find_counter_from(cs.push(c), j + 1, s2, k2) is None);
    }
}

/// A counter reads back what was last set for its bucket; the other
/// counters are unaffected.
pub proof fn lemma_counter_set_get(cs: Seq<CounterV>, s: Site, k: AnchorKeyV, n: usize, s2: Site, k2: AnchorKeyV)
    ensures
        counter_get(counter_set(cs, s, k, n), s2, k2) == if s2 == s && k2 == k {
            n
        } else {
            counter_get(cs, s2, k2)
        },
{
    let c = CounterV { site: s, key: k, n };
    lemma_find_counter_from(cs, 0, s, k);
    lemma_find_counter_from(cs, 0, s2, k2);
    match find_counter_from(cs, 0, s, k) {
        Some(i) => {
            lemma_find_counter_update(cs, i, c, 0, s2, k2);
        },
        None => {
            lemma_find_counter_push(cs, c, 0, s2, k2);
        },
    }
}

// ---------------------------------------------------------------- positional matching

/// The bucket whose position counter a call advances: its own, when the
/// call finds runs there (or, in the call table, in the body bucket of the
/// same key); the letter bucket of its site for a voiced call that falls
/// back to it; none for a call that finds nothing.
pub open spec fn counter_key(idx: Seq<BucketV>, o: Occ) -> Option<(Site, AnchorKeyV)> {
    if lookup_nonempty(idx, o.site, o.key) is Some || (o.site == Site::Called && lookup_nonempty(
        idx,
        Site::Body,
        o.key,
    ) is Some) {
        Some((o.site, o.key))
    } else if o.key is Voiced && lookup_nonempty(idx, o.site, AnchorKeyV::Letter) is Some {
        Some((o.site, AnchorKeyV::Letter))
    } else {
        None
    }
}

/// The runs a call is matched against (see [`counter_key`]).
pub open spec fn matched_runs(idx: Seq<BucketV>, o: Occ) -> Seq<Seq<Seq<char>>> {
    if lookup_nonempty(idx, o.site, o.key) is Some {
        lookup_nonempty(idx, o.site, o.key)->0
    } else if o.site == Site::Called && lookup_nonempty(idx, Site::Body, o.key) is Some {
        lookup_nonempty(idx, Site::Body, o.key)->0
    } else {
        lookup_nonempty(idx, o.site, AnchorKeyV::Letter)->0
    }
}

/// How many of `occs` advance the counter of bucket `(s, k)`.
pub open spec fn count_key(idx: Seq<BucketV>, occs: Seq<Occ>, s: Site, k: AnchorKeyV) -> nat
    decreases occs.len(),
{
    if occs.len() == 0 {
        0
    } else {
        count_key(idx, occs.drop_last(), s, k) + if counter_key(idx, occs[occs.len() - 1]) == Some((s, k)) {
            1nat
        } else {
            0nat
        }
    }
}

proof fn lemma_count_key_bound(idx: Seq<BucketV>, occs: Seq<Occ>, s: Site, k: AnchorKeyV)
    ensures
        count_key(idx, occs, s, k) <= occs.len(),
    decreases occs.len(),
{
    if occs.len() > 0 {
        lemma_count_key_bound(idx, occs.drop_last(), s, k);
    }
}

/// The run the `n`-th matched call receives: the `n`-th, or the last once
/// the runs are used up.
pub open spec fn nth_or_last(runs: Seq<Seq<Seq<char>>>, n: nat) -> Seq<Seq<char>> {
    if n < runs.len() {
        runs[n as int]
    } else {
        runs[runs.len() - 1]
    }
}

/// Visiting calls from a fresh set of counters keeps the index and the
/// function, and leaves each bucket's counter at the number of calls that
/// advanced it.
proof fn lemma_swap_counters(st0: SwapStateV, occs: Seq<Occ>)
    requires
        st0.counters == Seq::<CounterV>::empty(),
        occs.len() < usize::MAX,
    ensures
        visit_fold::<SwapVisitor>(st0, occs).index == st0.index,
        visit_fold::<SwapVisitor>(st0, occs).function == st0.function,
        forall|s: Site, k: AnchorKeyV|
            #[trigger] counter_get(visit_fold::<SwapVisitor>(st0, occs).counters, s, k) == count_key(
                st0.index,
                occs,
                s,
                k,
            ),
    decreases occs.len(),
{
    let idx = st0.index;
    if occs.len() == 0 {
        assert forall|s: Site, k: AnchorKeyV| #[trigger]
            counter_get(visit_fold::<SwapVisitor>(st0, occs).counters, s, k) == count_key(idx, occs, s, k) by {
            assert(find_counter_from(Seq::<CounterV>::empty(), 0, s, k) is None);
        }
    } else {
        let p0 = occs.drop_last();
        let o = occs[occs.len() - 1];
        lemma_swap_counters(st0, p0);
        let st = visit_fold::<SwapVisitor>(st0, p0);
        let st2 = visit_fold::<SwapVisitor>(st0, occs);
        assert(st2 == swap_visit_spec(st, o.site, o.line, o.key, o.run).0);
        match counter_key(idx, o) {
            Some((cs, ck)) => {
                lemma_count_key_bound(idx, p0, cs, ck);
                let n = counter_get(st.counters, cs, ck);
                assert(n == count_key(idx, p0, cs, ck));
                assert(st2.counters == counter_set(st.counters, cs, ck, sat_inc(n)));
                assert forall|s: Site, k: AnchorKeyV| #[trigger]
                    counter_get(st2.counters, s, k) == count_key(idx, occs, s, k) by {
                    lemma_counter_set_get(st.counters, cs, ck, sat_inc(n), s, k);
                    assert(counter_get(st.counters, s, k) == count_key(idx, p0, s, k));
                }
            },
            None => {
                assert(st2.counters == st.counters);
                assert forall|s: Site, k: AnchorKeyV| #[trigger]
                    counter_get(st2.counters, s, k) == count_key(idx, occs, s, k) by {
                    assert(counter_get(st.counters, s, k) == count_key(idx, p0, s, k));
                }
            },
        }
    }
}

/// Calls are matched positionally within their bucket. Visiting a
/// function's localizable calls in order from fresh counters, the `p`-th
/// call gets the run of its matched bucket at the position given by the
/// number of earlier calls that advanced that bucket, or the bucket's last
/// run once the bucket is used up; that run is the answer unless it equals
/// the call's own run. A call that matches no bucket gets no answer.
pub proof fn law_positional_match(st0: SwapStateV, occs: Seq<Occ>, p: int)
    requires
        st0.counters == Seq::<CounterV>::empty(),
        occs.len() < usize::MAX,
        0 <= p < occs.len(),
    ensures
        ({
            let o = occs[p];
            let ans = swap_visit_spec(visit_fold::<SwapVisitor>(st0, occs.take(p)), o.site, o.line, o.key, o.run).1;
            match counter_key(st0.index, o) {
                None => ans is None,
                Some((cs, ck)) => {
                    let run = nth_or_last(matched_runs(st0.index, o), count_key(st0.index, occs.take(p), cs, ck));
                    ans == if run == o.run {
                        None
                    } else {
                        Some(run)
                    }
                },
            }
        }),
{
    let pre = occs.take(p);
    lemma_swap_counters(st0, pre);
    let st = visit_fold::<SwapVisitor>(st0, pre);
    let o = occs[p];
    if let Some((cs, ck)) = counter_key(st0.index, o) {
        assert(counter_get(st.counters, cs, ck) == count_key(st0.index, pre, cs, ck));
    }
}

// ---------------------------------------------------------------- one visit at a time

/// What one visit answers. A change is never the call's own run. A call
/// that matches a bucket is answered with the run chosen for it (its
/// bucket's run at the bucket's counter, the last once the bucket is used
/// up), and with no change exactly when that run is its own; a call that
/// matches none gets no answer.
pub proof fn law_visit_answer(st: SwapStateV, site: Site, line: Option<u16>, key: AnchorKeyV, run: Seq<Seq<char>>)
    ensures
        ({
            let o = Occ { site, line, key, run, tight: false };
            let ans = swap_visit_spec(st, site, line, key, run).1;
            &&& (ans matches Some(r) ==> r != run)
            &&& match counter_key(st.index, o) {
                None => ans is None,
                Some((cs, ck)) => {
                    let chosen = nth_or_last(matched_runs(st.index, o), counter_get(st.counters, cs, ck) as nat);
                    &&& (ans is None <==> chosen == run)
                    &&& (ans matches Some(r) ==> r == chosen)
                },
            }
        }),
{
}

/// What a visitor's statistics count. Starting from empty statistics,
/// after any sequence of visits (fewer than `usize::MAX`), every visit was
/// counted exactly once as a swap, a no-op or an unmatched call; each list
/// of entries is as long as its count; and no more runs were reused than
/// calls visited.
pub proof fn law_visits_counted(st0: SwapStateV, occs: Seq<Occ>)
    requires
        st0.stats == stats_zero(),
        occs.len() < usize::MAX,
    ensures
        ({
            let s = visit_fold::<SwapVisitor>(st0, occs).stats;
            &&& s.swaps_applied + s.no_ops_equal + s.unmatched_evo_calls == occs.len()
            &&& s.unmatched.len() == s.unmatched_evo_calls
            &&& s.overflows.len() == s.overflow_reuses
            &&& s.overflow_reuses <= occs.len()
        }),
    decreases occs.len(),
{
    if occs.len() > 0 {
        let pre = occs.drop_last();
        law_visits_counted(st0, pre);
        let o = occs[occs.len() - 1];
        let st = visit_fold::<SwapVisitor>(st0, pre);
        assert(st.stats.swaps_applied < usize::MAX);
        assert(st.stats.no_ops_equal < usize::MAX);
        assert(st.stats.unmatched_evo_calls < usize::MAX);
        assert(st.stats.overflow_reuses < usize::MAX);
        assert(visit_fold::<SwapVisitor>(st0, occs) == swap_visit_spec(st, o.site, o.line, o.key, o.run).0);
    }
}

// ---------------------------------------------------------------- the index

/// The runs of `occs` at site `s` under key `k`, in order.
pub open spec fn runs_of(occs: Seq<Occ>, s: Site, k: AnchorKeyV) -> Seq<Seq<Seq<char>>>
    decreases occs.len(),
{
    if occs.len() == 0 {
        Seq::empty()
    } else {
        let o = occs[occs.len() - 1];
        if o.site == s && o.key == k {
            runs_of(occs.drop_last(), s, k).push(o.run)
        } else {
            runs_of(occs.drop_last(), s, k)
        }
    }
}

proof fn lemma_runs_of_append(a: Seq<Occ>, b: Seq<Occ>, s: Site, k: AnchorKeyV)
    ensures
        runs_of(a + b, s, k) == runs_of(a, s, k) + runs_of(b, s, k),
    decreases b.len(),
{
    if b.len() == 0 {
        assert(a + b =~= a);
        assert(runs_of(a, s, k) + Seq::<Seq<Seq<char>>>::empty() =~= runs_of(a, s, k));
    } else {
        lemma_runs_of_append(a, b.drop_last(), s, k);
        assert((a + b).drop_last() =~= a + b.drop_last());
        assert((a + b)[(a + b).len() - 1] == b[b.len() - 1]);
        let o = b[b.len() - 1];
        if o.site == s && o.key == k {
            assert(runs_of(a, s, k) + runs_of(b.drop_last(), s, k).push(o.run) =~= (runs_of(a, s, k)
                + runs_of(b.drop_last(), s, k)).push(o.run));
        }
    }
}

proof fn lemma_find_bucket_update(idx: Seq<BucketV>, i: int, b: BucketV, j: int, s2: Site, k2: AnchorKeyV)
    requires
        0 <= i < idx.len(),
        idx[i].site == b.site,
        idx[i].key == b.key,
    ensures
        find_bucket_from(idx.update(i, b), j, s2, k2) == find_bucket_from(idx, j, s2, k2),
    decreases idx.len() - j,
{
    if 0 <= j < idx.len() {
        if !(idx[j].site == s2 && idx[j].key == k2) {
            lemma_find_bucket_update(idx, i, b, j + 1, s2, k2);
        }
    }
}

proof fn lemma_find_bucket_push(idx: Seq<BucketV>, b: BucketV, j: int, s2: Site, k2: AnchorKeyV)
    requires
        0 <= j <= idx.len(),
    ensures
        find_bucket_from(idx.push(b), j, s2, k2) == match find_bucket_from(idx, j, s2, k2) {
            Some(x) => Some(x),
            None => if b.site == s2 && b.key == k2 {
                Some(idx.len() as int)
            } else {
                None
            },
        },
    decreases idx.len() - j,
{
    if j < idx.len() {
        if !(idx[j].site == s2 && idx[j].key == k2) {
            lemma_find_bucket_push(idx, b, j + 1, s2, k2);
        }
    } else {
        assert(idx.push(b)[j] == b);
        assert(find_bucket_from(idx.push(b), j + 1, s2, k2) is None);
    }
}

/// The index of `occs` holds, for each site and key, exactly the runs of
/// `occs` there, in order; a bucket exists only where there are runs.
pub proof fn lemma_index_fold_lookup(occs: Seq<Occ>, s: Site, k: AnchorKeyV)
    ensures
        match find_bucket(index_fold(Seq::empty(), occs), s, k) {
            Some(i) => 0 <= i < index_fold(Seq::empty(), occs).len() && index_fold(Seq::empty(), occs)[i].runs
                == runs_of(occs, s, k) && runs_of(occs, s, k).len() > 0,
            None => runs_of(occs, s, k).len() == 0,
        },
        lookup_nonempty(index_fold(Seq::empty(), occs), s, k) == if runs_of(occs, s, k).len() > 0 {
            Some(runs_of(occs, s, k))
        } else {
            None
        },
    decreases occs.len(),
{
    let i0 = Seq::<BucketV>::empty();
    if occs.len() == 0 {
        assert(find_bucket_from(i0, 0, s, k) is None);
    } else {
        let pre = occs.drop_last();
        let o = occs[occs.len() - 1];
        lemma_index_fold_lookup(pre, s, k);
        lemma_index_fold_lookup(pre, o.site, o.key);
        let idx = index_fold(i0, pre);
        let nb = match find_bucket(idx, o.site, o.key) {
            Some(i) => BucketV { site: o.site, key: o.key, runs: idx[i].runs.push(o.run) },
            None => BucketV { site: o.site, key: o.key, runs: seq![o.run] },
        };
        lemma_find_bucket_from(idx, 0, s, k);
        lemma_find_bucket_from(idx, 0, o.site, o.key);
        match find_bucket(idx, o.site, o.key) {
            Some(i) => {
                lemma_find_bucket_update(idx, i, nb, 0, s, k);
            },
            None => {
                lemma_find_bucket_push(idx, nb, 0, s, k);
                assert(runs_of(pre, o.site, o.key).push(o.run) =~= seq![o.run]);
            },
        }
    }
}

// ---------------------------------------------------------------- self-merge

proof fn lemma_runs_of_at(occs: Seq<Occ>, p: int)
    requires
        0 <= p < occs.len(),
    ensures
        runs_of(occs.take(p), occs[p].site, occs[p].key).len() < runs_of(occs, occs[p].site, occs[p].key).len(),
        runs_of(occs, occs[p].site, occs[p].key)[runs_of(occs.take(p), occs[p].site, occs[p].key).len() as int]
            == occs[p].run,
{
    let o = occs[p];
    let a = occs.take(p + 1);
    let b = occs.skip(p + 1);
    assert(occs =~= a + b);
    lemma_runs_of_append(a, b, o.site, o.key);
    assert(a.drop_last() =~= occs.take(p));
    assert(a[a.len() - 1] == o);
}

proof fn lemma_self_counter_key(occs: Seq<Occ>, p: int)
    requires
        0 <= p < occs.len(),
    ensures
        counter_key(index_fold(Seq::empty(), occs), occs[p]) == Some((occs[p].site, occs[p].key)),
        matched_runs(index_fold(Seq::empty(), occs), occs[p]) == runs_of(occs, occs[p].site, occs[p].key),
{
    lemma_runs_of_at(occs, p);
    lemma_index_fold_lookup(occs, occs[p].site, occs[p].key);
}

proof fn lemma_self_count_key(occs: Seq<Occ>, p: int, s: Site, k: AnchorKeyV)
    requires
        0 <= p <= occs.len(),
    ensures
        count_key(index_fold(Seq::empty(), occs), occs.take(p), s, k) == runs_of(occs.take(p), s, k).len(),
    decreases p,
{
    if p > 0 {
        lemma_self_count_key(occs, p - 1, s, k);
        lemma_self_counter_key(occs, p - 1);
        assert(occs.take(p).drop_last() =~= occs.take(p - 1));
        assert(occs.take(p)[p - 1] == occs[p - 1]);
    }
}

proof fn lemma_self_visits(st0: SwapStateV, occs: Seq<Occ>, p: int)
    requires
        st0.index == index_fold(Seq::empty(), occs),
        st0.counters == Seq::<CounterV>::empty(),
        st0.stats == stats_zero(),
        occs.len() < usize::MAX,
        0 <= p <= occs.len(),
    ensures
        quiet_along::<SwapVisitor>(st0, occs.take(p)),
        visit_fold::<SwapVisitor>(st0, occs.take(p)).stats == (StatsV { no_ops_equal: p as usize, ..stats_zero() }),
    decreases p,
{
    if p == 0 {
        assert(occs.take(0) =~= Seq::<Occ>::empty());
    } else {
        let q = p - 1;
        lemma_self_visits(st0, occs, q);
        let o = occs[q];
        let pre = occs.take(q);
        assert(occs.take(p).drop_last() =~= pre);
        assert(occs.take(p)[q] == o);
        law_positional_match(st0, occs, q);
        lemma_self_counter_key(occs, q);
        lemma_self_count_key(occs, q, o.site, o.key);
        lemma_runs_of_at(occs, q);
        lemma_swap_counters(st0, pre);
        let st = visit_fold::<SwapVisitor>(st0, pre);
        assert(counter_get(st.counters, o.site, o.key) == count_key(st0.index, pre, o.site, o.key));
        lemma_index_fold_lookup(occs, o.site, o.key);
    }
}

/// Merging a function with itself changes nothing: every localizable call
/// finds its own text, so each is a no-op and nothing is swapped,
/// unmatched, reused or substituted.
pub proof fn law_self_merge_function(name: Seq<char>, f: FunctionV)
    requires
        function_occs(f).len() < usize::MAX,
    ensures
        swap_function_spec(name, f, f, index_of_function(f)).0 == f,
        swap_function_spec(name, f, f, index_of_function(f)).1 == (StatsV {
            no_ops_equal: function_occs(f).len() as usize,
            ..stats_zero()
        }),
{
    let occs = function_occs(f);
    let idx = index_of_function(f);
    let st0 = SwapStateV { function: name, index: idx, counters: Seq::empty(), stats: stats_zero() };
    assert(substitute_spec(name, f, f, stats_zero()) == (f, stats_zero()));
    lemma_self_visits(st0, occs, occs.len() as int);
    assert(occs.take(occs.len() as int) =~= occs);
    let body_occs = match f.body {
        BodyV::Tree(s) => occ_stmts(s),
        _ => Seq::empty(),
    };
    let call_occs = match f.called {
        CalledV::Raw(c) => occ_calls(c),
        _ => Seq::empty(),
    };
    assert(occs == body_occs + call_occs);
    lemma_visit_fold_append::<SwapVisitor>(st0, body_occs, call_occs);
    let st1 = visit_fold::<SwapVisitor>(st0, body_occs);
    lemma_visit_fold_small::<SwapVisitor>(st0, Occ { site: Site::Body, line: None, key: AnchorKeyV::Letter, run: Seq::empty(), tight: false });
    lemma_visit_fold_small::<SwapVisitor>(st1, Occ { site: Site::Body, line: None, key: AnchorKeyV::Letter, run: Seq::empty(), tight: false });
    match f.body {
        BodyV::Tree(s) => {
            law_rewrite_body_visits::<SwapVisitor>(s, st0);
        },
        _ => {},
    }
    match f.called {
        CalledV::Raw(c) => {
            law_rewrite_called_visits::<SwapVisitor>(c, st1);
        },
        _ => {},
    }
}

/// No function of the script shares its name with another.
pub open spec fn names_distinct(fs: Seq<(Seq<char>, FunctionV)>) -> bool {
    forall|i: int, j: int| 0 <= i < j < fs.len() ==> fs[i].0 != fs[j].0
}

/// A merge that swapped nothing, left nothing unmatched, reused no run and
/// substituted no body.
pub open spec fn changed_nothing(s: StatsV) -> bool {
    &&& s.swaps_applied == 0
    &&& s.unmatched_evo_calls == 0
    &&& s.overflow_reuses == 0
    &&& s.voiced_to_letter_fallback == 0
    &&& s.body_substitutions == 0
    &&& s.voice_ids_reinjected == 0
    &&& s.unmatched.len() == 0
    &&& s.overflows.len() == 0
    &&& s.body_subs.len() == 0
}

proof fn lemma_find_fn_at(fs: Seq<(Seq<char>, FunctionV)>, j: int, k: int)
    requires
        0 <= j <= k < fs.len(),
        forall|i: int| j <= i < k ==> fs[i].0 != fs[k].0,
    ensures
        find_fn_from(fs, j, fs[k].0) == Some(k),
    decreases k - j,
{
    if j < k {
        lemma_find_fn_at(fs, j + 1, k);
    }
}

proof fn lemma_self_merge_prefix(fs: Seq<(Seq<char>, FunctionV)>, n: int)
    requires
        names_distinct(fs),
        forall|k: int| 0 <= k < fs.len() ==> #[trigger] function_occs(fs[k].1).len() < usize::MAX,
        0 <= n <= fs.len(),
    ensures
        swap_scena_spec(fs.take(n), fs).0 == fs.take(n),
        changed_nothing(swap_scena_spec(fs.take(n), fs).1),
    decreases n,
{
    if n == 0 {
        assert(fs.take(0) =~= Seq::<(Seq<char>, FunctionV)>::empty());
    } else {
        let k = n - 1;
        lemma_self_merge_prefix(fs, k);
        assert(fs.take(n).drop_last() =~= fs.take(k));
        assert(fs.take(n)[k] == fs[k]);
        lemma_find_fn_at(fs, 0, k);
        assert(function_occs(fs[k].1).len() < usize::MAX);
        law_self_merge_function(fs[k].0, fs[k].1);
        assert(fs.take(k).push(fs[k]) =~= fs.take(n));
        let s = swap_scena_spec(fs.take(n), fs).1;
        assert(s.unmatched.len() == 0);
    }
}

/// Merging a script with itself changes nothing: every function comes back
/// as it was, and nothing is swapped, unmatched, reused or substituted.
pub proof fn law_self_merge_scena(fs: Seq<(Seq<char>, FunctionV)>)
    requires
        names_distinct(fs),
        forall|k: int| 0 <= k < fs.len() ==> #[trigger] function_occs(fs[k].1).len() < usize::MAX,
    ensures
        swap_scena_spec(fs, fs).0 == fs,
        changed_nothing(swap_scena_spec(fs, fs).1),
{
    lemma_self_merge_prefix(fs, fs.len() as int);
    assert(fs.take(fs.len() as int) =~= fs);
}

// ---------------------------------------------------------------- statistics

/// Each count of the statistics is the length of its list of entries (held
/// at `usize::MAX`).
pub open spec fn stats_consistent(s: StatsV) -> bool {
    &&& s.unmatched_evo_calls == sat_nat(s.unmatched.len())
    &&& s.overflow_reuses == sat_nat(s.overflows.len())
    &&& s.body_substitutions == sat_nat(s.body_subs.len())
}

proof fn lemma_sat_nat_inc(n: nat)
    ensures
        sat_inc(sat_nat(n)) == sat_nat(n + 1),
{
}

/// Adding up two merges' statistics keeps each count equal to the length
/// of its list.
pub proof fn law_merge_keeps_consistent(a: StatsV, b: StatsV)
    requires
        stats_consistent(a),
        stats_consistent(b),
    ensures
        stats_consistent(merge_spec(a, b)),
{
    assert(merge_spec(a, b).unmatched.len() == a.unmatched.len() + b.unmatched.len());
    assert(merge_spec(a, b).overflows.len() == a.overflows.len() + b.overflows.len());
    assert(merge_spec(a, b).body_subs.len() == a.body_subs.len() + b.body_subs.len());
}

proof fn lemma_visit_keeps_consistent(st: SwapStateV, occs: Seq<Occ>)
    requires
        stats_consistent(st.stats),
    ensures
        stats_consistent(visit_fold::<SwapVisitor>(st, occs).stats),
    decreases occs.len(),
{
    if occs.len() > 0 {
        let pre = occs.drop_last();
        let o = occs[occs.len() - 1];
        lemma_visit_keeps_consistent(st, pre);
        let s0 = visit_fold::<SwapVisitor>(st, pre).stats;
        lemma_sat_nat_inc(s0.unmatched.len());
        lemma_sat_nat_inc(s0.overflows.len());
    }
}

proof fn lemma_function_keeps_consistent(name: Seq<char>, f: FunctionV, xf: FunctionV, idx: Seq<BucketV>)
    ensures
        stats_consistent(swap_function_spec(name, f, xf, idx).1),
{
    let (f1, s1) = substitute_spec(name, f, xf, stats_zero());
    lemma_sat_nat_inc(0);
    assert(stats_consistent(s1));
    let st0 = SwapStateV { function: name, index: idx, counters: Seq::empty(), stats: s1 };
    let st1 = match f1.body {
        BodyV::Tree(s) => {
            law_rewrite_body_visits::<SwapVisitor>(s, st0);
            lemma_visit_keeps_consistent(st0, occ_stmts(s));
            rw_stmts::<SwapVisitor>(s, st0).1
        },
        _ => st0,
    };
    match f1.called {
        CalledV::Raw(c) => {
            law_rewrite_called_visits::<SwapVisitor>(c, st1);
            lemma_visit_keeps_consistent(st1, occ_calls(c));
        },
        _ => {},
    }
}

/// In the statistics of any merge, the number of unmatched calls, of
/// reused runs and of substituted bodies is the length of the matching
/// list of entries (held at `usize::MAX`).
pub proof fn law_stats_consistent(evo: Seq<(Seq<char>, FunctionV)>, xs: Seq<(Seq<char>, FunctionV)>)
    ensures
        stats_consistent(swap_scena_spec(evo, xs).1),
    decreases evo.len(),
{
    if evo.len() > 0 {
        law_stats_consistent(evo.drop_last(), xs);
        let (n, f) = evo[evo.len() - 1];
        if let Some(j) = find_fn_from(xs, 0, n) {
            let xf = xs[j].1;
            lemma_function_keeps_consistent(n, f, xf, index_of_function(xf));
            law_merge_keeps_consistent(
                swap_scena_spec(evo.drop_last(), xs).1,
                swap_function_spec(n, f, xf, index_of_function(xf)).1,
            );
        }
    }
}

// ---------------------------------------------------------------- shape of a merge

/// A merge keeps the script's functions, names and order: each function
/// the other edition also has is replaced by its merge, and every other
/// function is left exactly as it was.
pub proof fn law_merge_per_function(evo: Seq<(Seq<char>, FunctionV)>, xs: Seq<(Seq<char>, FunctionV)>)
    ensures
        swap_scena_spec(evo, xs).0.len() == evo.len(),
        forall|k: int|
            0 <= k < evo.len() ==> #[trigger] swap_scena_spec(evo, xs).0[k] == (evo[k].0, match find_fn_from(
                xs,
                0,
                evo[k].0,
            ) {
                Some(j) => swap_function_spec(evo[k].0, evo[k].1, xs[j].1, index_of_function(xs[j].1)).0,
                None => evo[k].1,
            }),
    decreases evo.len(),
{
    if evo.len() > 0 {
        let pre = evo.drop_last();
        law_merge_per_function(pre, xs);
        assert forall|k: int| 0 <= k < evo.len() implies #[trigger] swap_scena_spec(evo, xs).0[k] == (
        evo[k].0, match find_fn_from(xs, 0, evo[k].0) {
            Some(j) => swap_function_spec(evo[k].0, evo[k].1, xs[j].1, index_of_function(xs[j].1)).0,
            None => evo[k].1,
        }) by {
            if k < evo.len() - 1 {
                assert(pre[k] == evo[k]);
                assert(swap_scena_spec(pre, xs).0[k] == swap_scena_spec(evo, xs).0[k]);
            }
        }
    }
}

/// A merged function keeps its argument declarations and prelude flag.
pub proof fn law_merge_keeps_signature(name: Seq<char>, f: FunctionV, xf: FunctionV, idx: Seq<BucketV>)
    ensures
        swap_function_spec(name, f, xf, idx).0.args == f.args,
        swap_function_spec(name, f, xf, idx).0.is_prelude == f.is_prelude,
{
}

/// A function whose body is a tree is never substituted: its body and call
/// table stay its own, and the statistics are untouched.
pub proof fn law_tree_body_not_substituted(name: Seq<char>, f: FunctionV, xf: FunctionV, s: StatsV)
    requires
        f.body is Tree,
    ensures
        substitute_spec(name, f, xf, s) == (f, s),
{
}

/// A call table left for the compiler to infer is never rewritten: a
/// function with a tree body and such a table keeps the table through a
/// merge.
pub proof fn law_merged_table_left_alone(name: Seq<char>, f: FunctionV, xf: FunctionV, idx: Seq<BucketV>)
    requires
        f.body is Tree,
        f.called is Merged,
    ensures
        swap_function_spec(name, f, xf, idx).0.called == f.called,
{
}

// ---------------------------------------------------------------- index invariant

/// An index never holds two buckets for one site and key, nor an empty
/// bucket.
pub open spec fn index_wf(idx: Seq<BucketV>) -> bool {
    &&& forall|i: int, j: int|
        0 <= i < j < idx.len() ==> !(#[trigger] idx[i].site == #[trigger] idx[j].site && idx[i].key == idx[j].key)
    &&& forall|i: int| 0 <= i < idx.len() ==> #[trigger] idx[i].runs.len() > 0
}

proof fn lemma_find_bucket_none(idx: Seq<BucketV>, j: int, s: Site, k: AnchorKeyV)
    requires
        0 <= j,
        find_bucket_from(idx, j, s, k) is None,
    ensures
        forall|i: int| j <= i < idx.len() ==> !(idx[i].site == s && idx[i].key == k),
    decreases idx.len() - j,
{
    if j < idx.len() {
        lemma_find_bucket_none(idx, j + 1, s, k);
    }
}

/// Building an index run by run keeps it well formed: one bucket per site
/// and key, none empty.
pub proof fn law_index_wf(occs: Seq<Occ>)
    ensures
        index_wf(index_fold(Seq::empty(), occs)),
    decreases occs.len(),
{
    if occs.len() > 0 {
        let pre = occs.drop_last();
        let o = occs[occs.len() - 1];
        law_index_wf(pre);
        let idx = index_fold(Seq::<BucketV>::empty(), pre);
        lemma_find_bucket_from(idx, 0, o.site, o.key);
        if find_bucket(idx, o.site, o.key) is None {
            lemma_find_bucket_none(idx, 0, o.site, o.key);
        }
        let r = index_fold(Seq::<BucketV>::empty(), occs);
        assert forall|i: int, j: int| 0 <= i < j < r.len() implies !(#[trigger] r[i].site == #[trigger] r[j].site
            && r[i].key == r[j].key) by {
            if j < idx.len() {
                assert(idx[i].site == r[i].site && idx[i].key == r[i].key);
                assert(idx[j].site == r[j].site && idx[j].key == r[j].key);
            }
        }
    }
}

// ---------------------------------------------------------------- a second merge

/// Every run with text that the index hands out for a site and key fits
/// that key.
pub open spec fn lookups_fit(idx: Seq<BucketV>) -> bool {
    forall|s: Site, k: AnchorKeyV, j: int|
        #![trigger lookup_nonempty(idx, s, k), fits(k, lookup_nonempty(idx, s, k)->0[j])]
        lookup_nonempty(idx, s, k) is Some && 0 <= j < lookup_nonempty(idx, s, k)->0.len()
            && lookup_nonempty(idx, s, k)->0[j].len() > 0 ==> fits(k, lookup_nonempty(idx, s, k)->0[j])
}

/// No call of `occs` is left without text where that would take it out of
/// the next merge: each run the merge gives a call holds text, or is the
/// call's own, or goes to a call that keeps its place without text (a
/// portrait call whose text starts right after the tag; with anything
/// between tag and text, such as a voice pair, an emptied call is no longer
/// a localizable call, and the calls after it would shift).
pub open spec fn receives_text(idx: Seq<BucketV>, occs: Seq<Occ>) -> bool {
    forall|i: int|
        0 <= i < occs.len() ==> (#[trigger] merged_run(idx, occs, i)).len() > 0 || merged_run(idx, occs, i)
            == occs[i].run || occs[i].tight
}

proof fn lemma_runs_of_fit(occs: Seq<Occ>, s: Site, k: AnchorKeyV)
    requires
        all_fit(occs),
    ensures
        forall|j: int|
            0 <= j < runs_of(occs, s, k).len() && (#[trigger] runs_of(occs, s, k)[j]).len() > 0 ==> fits(
                k,
                runs_of(occs, s, k)[j],
            ),
    decreases occs.len(),
{
    if occs.len() > 0 {
        let pre = occs.drop_last();
        let o = occs[occs.len() - 1];
        assert(all_fit(pre)) by {
            assert forall|i: int| 0 <= i < pre.len() && (#[trigger] pre[i]).run.len() > 0 implies fits(
                pre[i].key,
                pre[i].run,
            ) by {
                assert(pre[i] == occs[i]);
            }
        }
        lemma_runs_of_fit(pre, s, k);
        let r = runs_of(occs, s, k);
        let rp = runs_of(pre, s, k);
        assert forall|j: int| 0 <= j < r.len() && (#[trigger] r[j]).len() > 0 implies fits(k, r[j]) by {
            if j < rp.len() {
                assert(r[j] == rp[j]);
            } else {
                assert(r[j] == o.run);
                assert(fits(o.key, o.run));
            }
        }
    }
}

proof fn lemma_lookups_fit(occs: Seq<Occ>)
    requires
        all_fit(occs),
    ensures
        lookups_fit(index_fold(Seq::empty(), occs)),
{
    let idx = index_fold(Seq::<BucketV>::empty(), occs);
    assert forall|s: Site, k: AnchorKeyV, j: int|
        lookup_nonempty(idx, s, k) is Some && 0 <= j < lookup_nonempty(idx, s, k)->0.len()
            && lookup_nonempty(idx, s, k)->0[j].len() > 0 implies fits(
        k,
        #[trigger] lookup_nonempty(idx, s, k)->0[j],
    ) by {
        lemma_index_fold_lookup(occs, s, k);
        lemma_runs_of_fit(occs, s, k);
        assert(runs_of(occs, s, k)[j].len() > 0);
    }
}

proof fn lemma_first_pass_fits(st0: SwapStateV, occs: Seq<Occ>, p: int)
    requires
        st0.counters == Seq::<CounterV>::empty(),
        occs.len() < usize::MAX,
        lookups_fit(st0.index),
        receives_text(st0.index, occs),
        0 <= p <= occs.len(),
    ensures
        fit_along::<SwapVisitor>(st0, occs.take(p)),
    decreases p,
{
    if p == 0 {
        assert(occs.take(0) =~= Seq::<Occ>::empty());
    } else {
        let q = p - 1;
        lemma_first_pass_fits(st0, occs, q);
        assert(occs.take(p).drop_last() =~= occs.take(q));
        assert(occs.take(p)[q] == occs[q]);
        law_positional_match(st0, occs, q);
        let o = occs[q];
        let idx = st0.index;
        if let Some((cs, ck)) = counter_key(idx, o) {
            let runs = matched_runs(idx, o);
            let n = count_key(idx, occs.take(q), cs, ck);
            let j = if n < runs.len() {
                n as int
            } else {
                runs.len() - 1
            };
            assert(nth_or_last(runs, n) == runs[j]);
            assert(merged_run(idx, occs, q) == runs[j]);
            if runs[j] != o.run && runs[j].len() > 0 {
                if lookup_nonempty(idx, o.site, o.key) is Some {
                    assert(fits(o.key, lookup_nonempty(idx, o.site, o.key)->0[j]));
                } else if o.site == Site::Called && lookup_nonempty(idx, Site::Body, o.key) is Some {
                    assert(fits(o.key, lookup_nonempty(idx, Site::Body, o.key)->0[j]));
                } else {
                    assert(fits(AnchorKeyV::Letter, lookup_nonempty(idx, o.site, AnchorKeyV::Letter)->0[j]));
                }
            }
        }
    }
}

proof fn lemma_answered_len<V: crate::walker::Visitor>(st: V::V, occs: Seq<Occ>)
    ensures
        answered::<V>(st, occs).len() == occs.len(),
        forall|i: int| 0 <= i < occs.len() ==> (#[trigger] answered::<V>(st, occs)[i]).site == occs[i].site
            && answered::<V>(st, occs)[i].key == occs[i].key,
    decreases occs.len(),
{
    if occs.len() > 0 {
        lemma_answered_len::<V>(st, occs.drop_last());
        assert forall|i: int| 0 <= i < occs.len() implies (#[trigger] answered::<V>(st, occs)[i]).site
            == occs[i].site && answered::<V>(st, occs)[i].key == occs[i].key by {
            if i < occs.len() - 1 {
                assert(occs.drop_last()[i] == occs[i]);
            }
        }
    }
}

proof fn lemma_answered_at<V: crate::walker::Visitor>(st: V::V, occs: Seq<Occ>, p: int)
    requires
        0 <= p <= occs.len(),
    ensures
        answered::<V>(st, occs).take(p) == answered::<V>(st, occs.take(p)),
        p < occs.len() ==> answered::<V>(st, occs)[p] == answer_occ::<V>(visit_fold::<V>(st, occs.take(p)), occs[p]),
{
    let a = occs.take(p);
    let b = occs.skip(p);
    assert(occs =~= a + b);
    lemma_answered_append::<V>(st, a, b);
    lemma_answered_len::<V>(st, a);
    lemma_answered_len::<V>(visit_fold::<V>(st, a), b);
    assert(answered::<V>(st, occs).take(p) =~= answered::<V>(st, a));
    if p < occs.len() {
        let a1 = occs.take(p + 1);
        let b1 = occs.skip(p + 1);
        assert(occs =~= a1 + b1);
        lemma_answered_append::<V>(st, a1, b1);
        lemma_answered_len::<V>(st, a1);
        assert(a1.drop_last() =~= a);
        assert(a1[p] == occs[p]);
        assert(answered::<V>(st, occs)[p] == answered::<V>(st, a1)[p]);
    }
}

proof fn lemma_count_key_same(idx: Seq<BucketV>, x: Seq<Occ>, y: Seq<Occ>, s: Site, k: AnchorKeyV)
    requires
        x.len() == y.len(),
        forall|i: int| 0 <= i < x.len() ==> #[trigger] counter_key(idx, x[i]) == counter_key(idx, y[i]),
    ensures
        count_key(idx, x, s, k) == count_key(idx, y, s, k),
    decreases x.len(),
{
    if x.len() > 0 {
        assert forall|i: int| 0 <= i < x.drop_last().len() implies #[trigger] counter_key(idx, x.drop_last()[i])
            == counter_key(idx, y.drop_last()[i]) by {
            assert(x.drop_last()[i] == x[i]);
            assert(y.drop_last()[i] == y[i]);
        }
        lemma_count_key_same(idx, x.drop_last(), y.drop_last(), s, k);
        assert(counter_key(idx, x[x.len() - 1]) == counter_key(idx, y[y.len() - 1]));
    }
}

proof fn lemma_quiet_step(st0: SwapStateV, occs: Seq<Occ>, q: int)
    requires
        st0.counters == Seq::<CounterV>::empty(),
        occs.len() < usize::MAX,
        0 <= q < occs.len(),
    ensures
        ({
            let a = answered::<SwapVisitor>(st0, occs);
            swap_visit_spec(visit_fold::<SwapVisitor>(st0, a.take(q)), a[q].site, a[q].line, a[q].key, a[q].run).1
                is None
        }),
{
    let a = answered::<SwapVisitor>(st0, occs);
    lemma_answered_len::<SwapVisitor>(st0, occs);
    lemma_answered_at::<SwapVisitor>(st0, occs, q);
    law_positional_match(st0, occs, q);
    law_positional_match(st0, a, q);
    let idx = st0.index;
    let o = occs[q];
    let ao = a[q];
    assert(ao.site == o.site && ao.key == o.key);
    assert(counter_key(idx, ao) == counter_key(idx, o));
    assert(matched_runs(idx, ao) == matched_runs(idx, o));
    if let Some((cs, ck)) = counter_key(idx, o) {
        assert forall|i: int| 0 <= i < a.take(q).len() implies #[trigger] counter_key(idx, a.take(q)[i])
            == counter_key(idx, occs.take(q)[i]) by {
            assert(a.take(q)[i] == a[i]);
            assert(occs.take(q)[i] == occs[i]);
        }
        lemma_count_key_same(idx, a.take(q), occs.take(q), cs, ck);
    }
}

proof fn lemma_second_pass_quiet(st0: SwapStateV, occs: Seq<Occ>, p: int)
    requires
        st0.counters == Seq::<CounterV>::empty(),
        occs.len() < usize::MAX,
        0 <= p <= occs.len(),
    ensures
        quiet_along::<SwapVisitor>(st0, answered::<SwapVisitor>(st0, occs).take(p)),
        visit_fold::<SwapVisitor>(st0, answered::<SwapVisitor>(st0, occs).take(p)).stats.swaps_applied
            == st0.stats.swaps_applied,
    decreases p,
{
    let a = answered::<SwapVisitor>(st0, occs);
    lemma_answered_len::<SwapVisitor>(st0, occs);
    if p == 0 {
        assert(a.take(0) =~= Seq::<Occ>::empty());
    } else {
        let q = p - 1;
        lemma_second_pass_quiet(st0, occs, q);
        assert(a.take(p).drop_last() =~= a.take(q));
        assert(a.take(p)[q] == a[q]);
        lemma_quiet_step(st0, occs, q);
    }
}

/// The other edition's calls, read back from its own function, all fit
/// their keys.
proof fn lemma_function_fit(f: FunctionV)
    ensures
        all_fit(function_occs(f)),
{
    let b = match f.body {
        BodyV::Tree(s) => occ_stmts(s),
        _ => Seq::empty(),
    };
    let c = match f.called {
        CalledV::Raw(c) => occ_calls(c),
        _ => Seq::empty(),
    };
    match f.body {
        BodyV::Tree(s) => lemma_stmts_fit(s),
        _ => {},
    }
    match f.called {
        CalledV::Raw(cs) => lemma_calls_fit(cs),
        _ => {},
    }
    lemma_all_fit_append(b, c);
}

/// The visitor's answers and its index and counters do not depend on the
/// statistics it starts with.
proof fn lemma_stats_irrelevant(st: SwapStateV, st2: SwapStateV, occs: Seq<Occ>)
    requires
        st.index == st2.index,
        st.counters == st2.counters,
    ensures
        visit_fold::<SwapVisitor>(st, occs).index == visit_fold::<SwapVisitor>(st2, occs).index,
        visit_fold::<SwapVisitor>(st, occs).counters == visit_fold::<SwapVisitor>(st2, occs).counters,
        answered::<SwapVisitor>(st, occs) == answered::<SwapVisitor>(st2, occs),
    decreases occs.len(),
{
    if occs.len() > 0 {
        let pre = occs.drop_last();
        let o = occs[occs.len() - 1];
        lemma_stats_irrelevant(st, st2, pre);
        let a = visit_fold::<SwapVisitor>(st, pre);
        let b = visit_fold::<SwapVisitor>(st2, pre);
        assert(swap_visit_spec(a, o.site, o.line, o.key, o.run).1 == swap_visit_spec(b, o.site, o.line, o.key, o.run).1);
        assert(answer_occ::<SwapVisitor>(a, o) == answer_occ::<SwapVisitor>(b, o));
    }
}

/// Rewriting a function from fresh counters, against an index whose runs
/// fit their keys: its calls come back with the visitor's answers in place
/// of their runs, a body that is no tree is left alone, and the call table
/// keeps its voice IDs.
proof fn lemma_rewrite_occs(g: FunctionV, st0: SwapStateV)
    requires
        st0.counters == Seq::<CounterV>::empty(),
        function_occs(g).len() < usize::MAX,
        lookups_fit(st0.index),
        receives_text(st0.index, function_occs(g)),
    ensures
        function_occs(rewrite_spec(g, st0).0) == answered::<SwapVisitor>(st0, function_occs(g)),
        rewrite_spec(g, st0).0.body is Tree == g.body is Tree,
        !(g.body is Tree) ==> rewrite_spec(g, st0).0.body == g.body,
        calls_have_voice_spec(rewrite_spec(g, st0).0.called) == calls_have_voice_spec(g.called),
{
    let occs = function_occs(g);
    lemma_first_pass_fits(st0, occs, occs.len() as int);
    assert(occs.take(occs.len() as int) =~= occs);
    let body_occs = match g.body {
        BodyV::Tree(s) => occ_stmts(s),
        _ => Seq::empty(),
    };
    let call_occs = match g.called {
        CalledV::Raw(c) => occ_calls(c),
        _ => Seq::empty(),
    };
    assert(occs == body_occs + call_occs);
    lemma_answered_append::<SwapVisitor>(st0, body_occs, call_occs);
    lemma_visit_fold_append::<SwapVisitor>(st0, body_occs, call_occs);
    let dummy = Occ { site: Site::Body, line: None, key: AnchorKeyV::Letter, run: Seq::empty(), tight: false };
    let st1 = visit_fold::<SwapVisitor>(st0, body_occs);
    lemma_answered_small::<SwapVisitor>(st0, dummy);
    lemma_answered_small::<SwapVisitor>(st1, dummy);
    lemma_visit_fold_small::<SwapVisitor>(st0, dummy);
    match g.body {
        BodyV::Tree(s) => {
            law_rewrite_body_visits::<SwapVisitor>(s, st0);
            lemma_rw_stmts_occ::<SwapVisitor>(s, st0);
        },
        _ => {},
    }
    match g.called {
        CalledV::Raw(c) => {
            law_rewrite_called_visits::<SwapVisitor>(c, st1);
            lemma_rw_calls_occ::<SwapVisitor>(c, st1);
            lemma_rw_calls_voice::<SwapVisitor>(c, st1);
        },
        _ => {},
    }
}

/// Rewriting a function a second time, from fresh counters and against the
/// same index, answers every call with no change.
proof fn lemma_rewrite_twice(g: FunctionV, st0: SwapStateV, st0b: SwapStateV)
    requires
        st0.counters == Seq::<CounterV>::empty(),
        st0b.counters == Seq::<CounterV>::empty(),
        st0.index == st0b.index,
        function_occs(g).len() < usize::MAX,
        lookups_fit(st0.index),
        receives_text(st0.index, function_occs(g)),
    ensures
        rewrite_spec(rewrite_spec(g, st0).0, st0b).0 == rewrite_spec(g, st0).0,
        rewrite_spec(rewrite_spec(g, st0).0, st0b).1.stats.swaps_applied == st0b.stats.swaps_applied,
{
    let occs = function_occs(g);
    lemma_rewrite_occs(g, st0);
    lemma_stats_irrelevant(st0, st0b, occs);
    let m = rewrite_spec(g, st0).0;
    let ans = answered::<SwapVisitor>(st0b, occs);
    let body2 = match m.body {
        BodyV::Tree(s) => occ_stmts(s),
        _ => Seq::empty(),
    };
    let call2 = match m.called {
        CalledV::Raw(c) => occ_calls(c),
        _ => Seq::empty(),
    };
    assert(ans == body2 + call2);
    lemma_answered_len::<SwapVisitor>(st0b, occs);
    lemma_second_pass_quiet(st0b, occs, occs.len() as int);
    assert(ans.take(ans.len() as int) =~= ans);
    lemma_visit_fold_append::<SwapVisitor>(st0b, body2, call2);
    let dummy = Occ { site: Site::Body, line: None, key: AnchorKeyV::Letter, run: Seq::empty(), tight: false };
    lemma_visit_fold_small::<SwapVisitor>(st0b, dummy);
    let t1 = visit_fold::<SwapVisitor>(st0b, body2);
    lemma_visit_fold_small::<SwapVisitor>(t1, dummy);
    match m.body {
        BodyV::Tree(s) => {
            law_rewrite_body_visits::<SwapVisitor>(s, st0b);
        },
        _ => {},
    }
    match m.called {
        CalledV::Raw(c) => {
            law_rewrite_called_visits::<SwapVisitor>(c, t1);
        },
        _ => {},
    }
}

/// The calls of the merged function are those of the function handed in,
/// with the visitor's answers in place of their runs.
proof fn lemma_first_merge_occs(name: Seq<char>, f: FunctionV, xf: FunctionV)
    requires
        f.body is Tree || !(xf.body is Tree),
        function_occs(f).len() < usize::MAX,
        receives_text(index_of_function(xf), function_occs(f)),
    ensures
        ({
            let idx = index_of_function(xf);
            let st0 = SwapStateV { function: name, index: idx, counters: Seq::empty(), stats: stats_zero() };
            function_occs(swap_function_spec(name, f, xf, idx).0) == answered::<SwapVisitor>(st0, function_occs(f))
        }),
{
    let idx = index_of_function(xf);
    let st0 = SwapStateV { function: name, index: idx, counters: Seq::empty(), stats: stats_zero() };
    lemma_function_fit(xf);
    lemma_lookups_fit(function_occs(xf));
    assert(substitute_spec(name, f, xf, stats_zero()) == (f, stats_zero()));
    lemma_rewrite_occs(f, st0);
}

/// The run a merge gives the `i`-th localizable call of a function: where
/// the call matches a bucket of the other edition, that bucket's run at
/// the call's position (the last once the bucket is used up), else its own.
pub open spec fn merged_run(idx: Seq<BucketV>, occs: Seq<Occ>, i: int) -> Seq<Seq<char>> {
    match counter_key(idx, occs[i]) {
        Some((cs, ck)) => nth_or_last(matched_runs(idx, occs[i]), count_key(idx, occs.take(i), cs, ck)),
        None => occs[i].run,
    }
}

/// A merge replaces whole text runs and nothing else a localizable call is
/// anchored by: the merged function has the same localizable calls, in the
/// same order, at the same sites and lines and under the same anchor keys
/// (voice IDs, character IDs and portrait tags included); each carries the
/// run the positional match gives it. This holds where no body is
/// substituted and no call is left without text where that takes it out
/// of the merge (see [`receives_text`]).
pub proof fn law_merge_keeps_anchors(name: Seq<char>, f: FunctionV, xf: FunctionV)
    requires
        f.body is Tree || !(xf.body is Tree),
        function_occs(f).len() < usize::MAX,
        receives_text(index_of_function(xf), function_occs(f)),
    ensures
        ({
            let idx = index_of_function(xf);
            let occs = function_occs(f);
            let after = function_occs(swap_function_spec(name, f, xf, idx).0);
            &&& after.len() == occs.len()
            &&& forall|i: int| 0 <= i < occs.len() ==> {
                &&& (#[trigger] after[i]).site == occs[i].site
                &&& after[i].line == occs[i].line
                &&& after[i].key == occs[i].key
                &&& after[i].run == merged_run(idx, occs, i)
            }
        }),
{
    let idx = index_of_function(xf);
    let occs = function_occs(f);
    let st0 = SwapStateV { function: name, index: idx, counters: Seq::empty(), stats: stats_zero() };
    lemma_first_merge_occs(name, f, xf);
    let after = answered::<SwapVisitor>(st0, occs);
    lemma_answered_len::<SwapVisitor>(st0, occs);
    assert forall|i: int| 0 <= i < occs.len() implies {
        &&& (#[trigger] after[i]).site == occs[i].site
        &&& after[i].line == occs[i].line
        &&& after[i].key == occs[i].key
        &&& after[i].run == merged_run(idx, occs, i)
    } by {
        lemma_answered_at::<SwapVisitor>(st0, occs, i);
        law_positional_match(st0, occs, i);
    }
}

// ---------------------------------------------------------------- the localization delta

/// Where the `i`-th call of `occs` stands among the calls of its bucket.
pub open spec fn pos_in_bucket(occs: Seq<Occ>, i: int) -> int {
    runs_of(occs.take(i), occs[i].site, occs[i].key).len() as int
}

/// The run of the `i`-th call of `occs` is its bucket's run at its place.
proof fn lemma_run_at_place(occs: Seq<Occ>, i: int)
    requires
        0 <= i < occs.len(),
    ensures
        ({
            let o = occs[i];
            let n = pos_in_bucket(occs, i);
            &&& 0 <= n < runs_of(occs, o.site, o.key).len()
            &&& runs_of(occs, o.site, o.key)[n] == o.run
        }),
{
    let o = occs[i];
    let a = occs.take(i + 1);
    let b = occs.skip(i + 1);
    assert(occs =~= a + b);
    lemma_runs_of_append(a, b, o.site, o.key);
    assert(a.drop_last() =~= occs.take(i));
    assert(a[i] == o);
}

/// With a direct bucket for every call, the counter of a bucket has
/// advanced once per earlier call of that bucket.
proof fn lemma_count_direct(idx: Seq<BucketV>, occs: Seq<Occ>, s: Site, k: AnchorKeyV)
    requires
        forall|j: int| 0 <= j < occs.len() ==> (#[trigger] lookup_nonempty(idx, occs[j].site, occs[j].key)) is Some,
    ensures
        count_key(idx, occs, s, k) == runs_of(occs, s, k).len(),
    decreases occs.len(),
{
    if occs.len() > 0 {
        let pre = occs.drop_last();
        assert forall|j: int| 0 <= j < pre.len() implies (#[trigger] lookup_nonempty(idx, pre[j].site, pre[j].key))
            is Some by {
            assert(pre[j] == occs[j]);
            assert(lookup_nonempty(idx, occs[j].site, occs[j].key) is Some);
        }
        lemma_count_direct(idx, pre, s, k);
        let o = occs[occs.len() - 1];
        assert(lookup_nonempty(idx, o.site, o.key) is Some);
    }
}

/// The localization delta. Where this edition carries the original's text
/// verbatim (bucket by bucket, the same runs), and the other edition has as
/// many runs as the original in each bucket, the merge gives every
/// localizable call the other edition's run at the same place in its
/// bucket; so a call's text changes exactly where the other edition's text
/// differs from the original's. This holds where no body is substituted
/// and no call is left without text where that takes it out of the merge
/// (see [`receives_text`]).
pub proof fn law_merge_applies_delta(name: Seq<char>, f: FunctionV, xf: FunctionV, of: FunctionV)
    requires
        f.body is Tree || !(xf.body is Tree),
        function_occs(f).len() < usize::MAX,
        receives_text(index_of_function(xf), function_occs(f)),
        forall|s: Site, k: AnchorKeyV| #[trigger] runs_of(function_occs(of), s, k) == runs_of(function_occs(f), s, k),
        forall|s: Site, k: AnchorKeyV|
            (#[trigger] runs_of(function_occs(xf), s, k)).len() == runs_of(function_occs(of), s, k).len(),
    ensures
        ({
            let occs = function_occs(f);
            let after = function_occs(swap_function_spec(name, f, xf, index_of_function(xf)).0);
            &&& after.len() == occs.len()
            &&& forall|i: int| 0 <= i < occs.len() ==> {
                let o = #[trigger] occs[i];
                let n = pos_in_bucket(occs, i);
                let x = runs_of(function_occs(xf), o.site, o.key);
                let orig = runs_of(function_occs(of), o.site, o.key);
                &&& 0 <= n < x.len()
                &&& n < orig.len()
                &&& after[i].run == x[n]
                &&& (after[i].run != o.run <==> x[n] != orig[n])
            }
        }),
{
    let occs = function_occs(f);
    let xocc = function_occs(xf);
    let idx = index_of_function(xf);
    let after = function_occs(swap_function_spec(name, f, xf, idx).0);
    law_merge_keeps_anchors(name, f, xf);
    assert forall|j: int| 0 <= j < occs.len() implies (#[trigger] lookup_nonempty(idx, occs[j].site, occs[j].key))
        is Some by {
        let o = occs[j];
        lemma_run_at_place(occs, j);
        assert(runs_of(function_occs(of), o.site, o.key) == runs_of(occs, o.site, o.key));
        assert(runs_of(xocc, o.site, o.key).len() == runs_of(function_occs(of), o.site, o.key).len());
        lemma_index_fold_lookup(xocc, o.site, o.key);
    }
    assert forall|i: int| 0 <= i < occs.len() implies {
        let o = #[trigger] occs[i];
        let n = pos_in_bucket(occs, i);
        let x = runs_of(function_occs(xf), o.site, o.key);
        let orig = runs_of(function_occs(of), o.site, o.key);
        &&& 0 <= n < x.len()
        &&& n < orig.len()
        &&& after[i].run == x[n]
        &&& (after[i].run != o.run <==> x[n] != orig[n])
    } by {
        let o = occs[i];
        lemma_run_at_place(occs, i);
        assert(runs_of(function_occs(of), o.site, o.key) == runs_of(occs, o.site, o.key));
        assert(runs_of(xocc, o.site, o.key).len() == runs_of(function_occs(of), o.site, o.key).len());
        lemma_index_fold_lookup(xocc, o.site, o.key);
        assert(lookup_nonempty(idx, o.site, o.key) is Some);
        assert forall|j: int| 0 <= j < occs.take(i).len() implies (#[trigger] lookup_nonempty(
            idx,
            occs.take(i)[j].site,
            occs.take(i)[j].key,
        )) is Some by {
            assert(occs.take(i)[j] == occs[j]);
            assert(lookup_nonempty(idx, occs[j].site, occs[j].key) is Some);
        }
        lemma_count_direct(idx, occs.take(i), o.site, o.key);
        assert(counter_key(idx, o) == Some((o.site, o.key)));
        assert(matched_runs(idx, o) == runs_of(xocc, o.site, o.key));
        assert(after[i].run == merged_run(idx, occs, i));
    }
}

/// Some bucket at or after `j` is for `(s, k)` when the one at `n` is.
proof fn lemma_find_bucket_some(idx: Seq<BucketV>, j: int, n: int)
    requires
        0 <= j <= n < idx.len(),
    ensures
        find_bucket_from(idx, j, idx[n].site, idx[n].key) is Some,
    decreases n - j,
{
    if j < n && !(idx[j].site == idx[n].site && idx[j].key == idx[n].key) {
        lemma_find_bucket_some(idx, j + 1, n);
    }
}

/// The `n`-th bucket of a function's index is the one found for its site
/// and key, and holds the runs of the calls under them.
proof fn lemma_bucket_runs(occs: Seq<Occ>, n: int)
    requires
        0 <= n < index_fold(Seq::empty(), occs).len(),
    ensures
        ({
            let ei = index_fold(Seq::<BucketV>::empty(), occs);
            &&& find_bucket(ei, ei[n].site, ei[n].key) == Some(n)
            &&& ei[n].runs == runs_of(occs, ei[n].site, ei[n].key)
            &&& ei[n].runs.len() > 0
        }),
{
    let ei = index_fold(Seq::<BucketV>::empty(), occs);
    let (s, k) = (ei[n].site, ei[n].key);
    law_index_wf(occs);
    lemma_find_bucket_some(ei, 0, n);
    lemma_find_bucket_from(ei, 0, s, k);
    lemma_index_fold_lookup(occs, s, k);
    let i = find_bucket(ei, s, k)->0;
    if i != n {
        if i < n {
            assert(!(ei[i].site == ei[n].site && ei[i].key == ei[n].key));
        } else {
            assert(!(ei[n].site == ei[i].site && ei[n].key == ei[i].key));
        }
    }
}

/// The runs of a bucket after the calls are answered, where each call of
/// the bucket got the bucket's run of `x` at its place.
proof fn lemma_runs_of_answers(occs: Seq<Occ>, after: Seq<Occ>, x: Seq<RunV>, s: Site, k: AnchorKeyV, p: int)
    requires
        after.len() == occs.len(),
        0 <= p <= occs.len(),
        forall|i: int| 0 <= i < occs.len() ==> (#[trigger] after[i]).site == occs[i].site && after[i].key == occs[i].key,
        forall|i: int|
            0 <= i < occs.len() && (#[trigger] occs[i]).site == s && occs[i].key == k ==> pos_in_bucket(occs, i) < x.len()
                && after[i].run == x[pos_in_bucket(occs, i)],
    ensures
        runs_of(occs.take(p), s, k).len() <= x.len(),
        runs_of(after.take(p), s, k) == x.take(runs_of(occs.take(p), s, k).len() as int),
    decreases p,
{
    if p == 0 {
        assert(occs.take(0) =~= Seq::<Occ>::empty());
        assert(after.take(0) =~= Seq::<Occ>::empty());
        assert(x.take(0) =~= Seq::<RunV>::empty());
    } else {
        let q = p - 1;
        lemma_runs_of_answers(occs, after, x, s, k, q);
        assert(occs.take(p).drop_last() =~= occs.take(q));
        assert(after.take(p).drop_last() =~= after.take(q));
        assert(occs.take(p)[q] == occs[q]);
        assert(after.take(p)[q] == after[q]);
        if occs[q].site == s && occs[q].key == k {
            let n = runs_of(occs.take(q), s, k).len() as int;
            assert(pos_in_bucket(occs, q) == n);
            assert(x.take(n + 1) =~= x.take(n).push(x[n]));
        }
    }
}

/// A bucket whose merged runs are the other edition's, which has as many
/// runs as this edition and the original, where this edition carries the
/// original's runs, passes the check with no violation.
proof fn lemma_check_matched_clean(
    r: ReportV,
    name: Seq<char>,
    site: Site,
    key: AnchorKeyV,
    evo: Seq<RunV>,
    xr: Seq<RunV>,
    n: int,
)
    requires
        evo.len() == xr.len(),
        0 <= n <= evo.len(),
    ensures
        check_matched(r, name, site, key, evo, xr, xr, Some(evo), n).violations == r.violations,
    decreases n,
{
    if n > 0 {
        lemma_check_matched_clean(r, name, site, key, evo, xr, n - 1);
    }
}

/// The delta check of a merged function. Where this edition carries the
/// original's text verbatim (bucket by bucket, the same runs), and the
/// other edition has as many runs as the original in each bucket, checking
/// the merge against the original reports no violation. This holds where
/// no body is substituted and no call is left without text where that
/// takes it out of the merge (see [`receives_text`]).
pub proof fn law_delta_check_clean(r: ReportV, name: Seq<char>, f: FunctionV, xf: FunctionV, of: FunctionV)
    requires
        f.body is Tree || !(xf.body is Tree),
        function_occs(f).len() < usize::MAX,
        receives_text(index_of_function(xf), function_occs(f)),
        forall|s: Site, k: AnchorKeyV| #[trigger] runs_of(function_occs(of), s, k) == runs_of(function_occs(f), s, k),
        forall|s: Site, k: AnchorKeyV|
            (#[trigger] runs_of(function_occs(xf), s, k)).len() == runs_of(function_occs(of), s, k).len(),
    ensures
        verify_function_spec(r, name, f, swap_function_spec(name, f, xf, index_of_function(xf)).0, xf, of).violations
            == r.violations,
{
    lemma_check_buckets_clean(r, name, f, xf, of, index_of_function(f).len() as int);
}

proof fn lemma_check_buckets_clean(r: ReportV, name: Seq<char>, f: FunctionV, xf: FunctionV, of: FunctionV, n: int)
    requires
        f.body is Tree || !(xf.body is Tree),
        function_occs(f).len() < usize::MAX,
        receives_text(index_of_function(xf), function_occs(f)),
        forall|s: Site, k: AnchorKeyV| #[trigger] runs_of(function_occs(of), s, k) == runs_of(function_occs(f), s, k),
        forall|s: Site, k: AnchorKeyV|
            (#[trigger] runs_of(function_occs(xf), s, k)).len() == runs_of(function_occs(of), s, k).len(),
        0 <= n <= index_of_function(f).len(),
    ensures
        check_buckets(
            r,
            name,
            index_of_function(f),
            index_of_function(swap_function_spec(name, f, xf, index_of_function(xf)).0),
            index_of_function(xf),
            index_of_function(of),
            n,
        ).violations == r.violations,
    decreases n,
{
    let occs = function_occs(f);
    let xocc = function_occs(xf);
    let oocc = function_occs(of);
    let m = swap_function_spec(name, f, xf, index_of_function(xf)).0;
    let after = function_occs(m);
    let ei = index_of_function(f);
    let mi = index_of_function(m);
    let xi = index_of_function(xf);
    let oi = index_of_function(of);
    if n > 0 {
        lemma_check_buckets_clean(r, name, f, xf, of, n - 1);
        let r0 = check_buckets(r, name, ei, mi, xi, oi, n - 1);
        let b = ei[n - 1];
        let (s, k) = (b.site, b.key);
        lemma_bucket_runs(occs, n - 1);
        let x = runs_of(xocc, s, k);
        law_merge_keeps_anchors(name, f, xf);
        law_merge_applies_delta(name, f, xf, of);
        lemma_runs_of_answers(occs, after, x, s, k, occs.len() as int);
        assert(occs.take(occs.len() as int) =~= occs);
        assert(after.take(after.len() as int) =~= after);
        assert(x.take(x.len() as int) =~= x);
        assert(runs_of(after, s, k) == x);
        lemma_index_fold_lookup(after, s, k);
        lemma_find_bucket_from(mi, 0, s, k);
        lemma_index_fold_lookup(xocc, s, k);
        lemma_index_fold_lookup(oocc, s, k);
        lemma_find_bucket_from(oi, 0, s, k);
        assert(resolve_spec(xi, s, k) == Some((s, x)));
        let mb = find_bucket(mi, s, k)->0;
        assert(mi[mb].runs == x);
        let ob = find_bucket(oi, s, k)->0;
        assert(oi[ob].runs == b.runs);
        lemma_check_matched_clean(r0, name, s, k, b.runs, x, b.runs.len() as int);
        assert(check_bucket(r0, name, b, mi, xi, oi).violations == r0.violations);
    }
}

/// The premises of the delta for one function: it has fewer than
/// `usize::MAX` localizable calls, none of which is handed a run without
/// text in place of its own, this edition carries the original's runs
/// bucket by bucket, and the other edition has as many runs as the original
/// in each bucket.
pub open spec fn delta_premises(f: FunctionV, xf: FunctionV, of: FunctionV) -> bool {
    &&& function_occs(f).len() < usize::MAX
    &&& receives_text(index_of_function(xf), function_occs(f))
    &&& forall|s: Site, k: AnchorKeyV| #[trigger] runs_of(function_occs(of), s, k) == runs_of(function_occs(f), s, k)
    &&& forall|s: Site, k: AnchorKeyV|
        (#[trigger] runs_of(function_occs(xf), s, k)).len() == runs_of(function_occs(of), s, k).len()
}

/// Every function of `evo` with a tree body and counterparts in `xs` and
/// `os` meets the premises of the delta.
pub open spec fn delta_ready(
    evo: Seq<(Seq<char>, FunctionV)>,
    xs: Seq<(Seq<char>, FunctionV)>,
    os: Seq<(Seq<char>, FunctionV)>,
) -> bool {
    forall|k: int|
        0 <= k < evo.len() && evo[k].1.body is Tree ==> match (
            #[trigger] find_fn_from(xs, 0, evo[k].0),
            find_fn_from(os, 0, evo[k].0),
        ) {
            (Some(j), Some(o)) => delta_premises(evo[k].1, xs[j].1, os[o].1),
            _ => true,
        }
}

proof fn lemma_delta_fold(
    evo: Seq<(Seq<char>, FunctionV)>,
    xs: Seq<(Seq<char>, FunctionV)>,
    os: Seq<(Seq<char>, FunctionV)>,
    n: int,
)
    requires
        names_distinct(evo),
        delta_ready(evo, xs, os),
        0 <= n <= evo.len(),
    ensures
        verify_fold(report_zero(), evo, xs, swap_scena_spec(evo, xs).0, os, n).violations.len() == 0,
    decreases n,
{
    if n > 0 {
        lemma_delta_fold(evo, xs, os, n - 1);
        let ms = swap_scena_spec(evo, xs).0;
        let r = verify_fold(report_zero(), evo, xs, ms, os, n - 1);
        let k = n - 1;
        let (name, f) = evo[k];
        law_merge_per_function(evo, xs);
        assert forall|i: int| 0 <= i < k implies ms[i].0 != ms[k].0 by {
            assert(ms[i].0 == evo[i].0);
            assert(ms[k].0 == evo[k].0);
        }
        lemma_find_fn_at(ms, 0, k);
        assert(find_fn_from(ms, 0, name) == Some(k));
        assert(find_fn_from(xs, 0, evo[k].0) == find_fn_from(xs, 0, name));
        match (find_fn_from(xs, 0, name), find_fn_from(os, 0, name)) {
            (Some(j), Some(o)) => {
                if f.body is Tree {
                    assert(delta_premises(f, xs[j].1, os[o].1));
                    let r1 = ReportV { functions_checked: sat_inc(r.functions_checked), ..r };
                    law_delta_check_clean(r1, name, f, xs[j].1, os[o].1);
                }
            },
            _ => {},
        }
    }
}

/// The delta check of a merged script. Where each function this edition
/// shares with the other edition and the original has a tree body and
/// meets the premises of the delta (see [`delta_premises`]), and no two of
/// its functions share a name, checking the merge against the original
/// reports no violation.
pub proof fn law_delta_check_clean_scena(
    evo: Seq<(Seq<char>, FunctionV)>,
    xs: Seq<(Seq<char>, FunctionV)>,
    os: Seq<(Seq<char>, FunctionV)>,
)
    requires
        names_distinct(evo),
        delta_ready(evo, xs, os),
    ensures
        verify_scena_spec(evo, xs, os).violations.len() == 0,
{
    lemma_delta_fold(evo, xs, os, evo.len() as int);
}

/// Merging is idempotent: merge a function with the other edition's
/// function, then merge the result with that same function again, and the
/// second merge leaves it as the first left it and swaps nothing. This
/// holds unless a call of the function (after any body substitution) that
/// has arguments between its portrait tag and its text, such as a voice
/// pair, is handed a run without text (see [`receives_text`]): emptied,
/// such a call drops out of the next merge and the calls after it shift.
pub proof fn law_merge_idempotent_function(name: Seq<char>, f: FunctionV, xf: FunctionV)
    requires
        function_occs(substitute_spec(name, f, xf, stats_zero()).0).len() < usize::MAX,
        receives_text(index_of_function(xf), function_occs(substitute_spec(name, f, xf, stats_zero()).0)),
    ensures
        ({
            let idx = index_of_function(xf);
            let m = swap_function_spec(name, f, xf, idx).0;
            &&& swap_function_spec(name, m, xf, idx).0 == m
            &&& swap_function_spec(name, m, xf, idx).1.swaps_applied == 0
        }),
{
    let idx = index_of_function(xf);
    let (f1, s1) = substitute_spec(name, f, xf, stats_zero());
    let st0 = SwapStateV { function: name, index: idx, counters: Seq::empty(), stats: s1 };
    let st0b = SwapStateV { function: name, index: idx, counters: Seq::empty(), stats: stats_zero() };
    lemma_function_fit(xf);
    lemma_lookups_fit(function_occs(xf));
    lemma_rewrite_occs(f1, st0);
    lemma_rewrite_twice(f1, st0, st0b);
    let m = rewrite_spec(f1, st0).0;
    assert(m == swap_function_spec(name, f, xf, idx).0);
    if !(m.body is Tree) && xf.body is Tree {
        assert(f1 == f);
        assert(m.body == f.body);
    }
    assert(substitute_spec(name, m, xf, stats_zero()) == (m, stats_zero()));
}

/// For each function of `evo` that has a counterpart in `xs`, after any
/// body substitution, no localizable call is left without text where that
/// takes it out of the merge (see [`receives_text`]), and there are fewer
/// than `usize::MAX` such calls.
pub open spec fn remergeable(evo: Seq<(Seq<char>, FunctionV)>, xs: Seq<(Seq<char>, FunctionV)>) -> bool {
    forall|k: int|
        0 <= k < evo.len() ==> match #[trigger] find_fn_from(xs, 0, evo[k].0) {
            Some(j) => {
                &&& function_occs(substitute_spec(evo[k].0, evo[k].1, xs[j].1, stats_zero()).0).len() < usize::MAX
                &&& receives_text(
                    index_of_function(xs[j].1),
                    function_occs(substitute_spec(evo[k].0, evo[k].1, xs[j].1, stats_zero()).0),
                )
            },
            None => true,
        }
}

/// Merging a script is idempotent: merge `evo` with `xs`, then merge the
/// result with `xs` again, and the second merge leaves every function as
/// the first left it and swaps nothing. This holds unless a call with
/// arguments between its portrait tag and its text, such as a voice pair,
/// is handed a run without text (see [`remergeable`]).
pub proof fn law_merge_idempotent_scena(evo: Seq<(Seq<char>, FunctionV)>, xs: Seq<(Seq<char>, FunctionV)>)
    requires
        remergeable(evo, xs),
    ensures
        ({
            let m = swap_scena_spec(evo, xs).0;
            &&& swap_scena_spec(m, xs).0 == m
            &&& swap_scena_spec(m, xs).1.swaps_applied == 0
        }),
    decreases evo.len(),
{
    if evo.len() > 0 {
        let pre = evo.drop_last();
        assert(remergeable(pre, xs)) by {
            assert forall|k: int| 0 <= k < pre.len() implies match #[trigger] find_fn_from(xs, 0, pre[k].0) {
                Some(j) => {
                    &&& function_occs(substitute_spec(pre[k].0, pre[k].1, xs[j].1, stats_zero()).0).len() < usize::MAX
                    &&& receives_text(
                    index_of_function(xs[j].1),
                    function_occs(substitute_spec(evo[k].0, evo[k].1, xs[j].1, stats_zero()).0),
                )
                },
                None => true,
            } by {
                assert(pre[k] == evo[k]);
                assert(find_fn_from(xs, 0, evo[k].0) == find_fn_from(xs, 0, pre[k].0));
            }
        }
        law_merge_idempotent_scena(pre, xs);
        let k = evo.len() - 1;
        let (n, f) = evo[k];
        let init = swap_scena_spec(pre, xs).0;
        let m = swap_scena_spec(evo, xs).0;
        assert(m.drop_last() =~= init);
        assert(find_fn_from(xs, 0, evo[k].0) == find_fn_from(xs, 0, n));
        match find_fn_from(xs, 0, n) {
            Some(j) => {
                law_merge_idempotent_function(n, f, xs[j].1);
            },
            None => {},
        }
    }
}

} // verus!
