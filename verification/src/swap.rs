//! The merge: for each function both editions share, the other edition's
//! text runs are indexed per anchor and laid, in order, over this edition's
//! localizable calls; a body that could not be decompiled is replaced by the
//! other edition's tree with this edition's voice cues put back.

use vstd::prelude::*;
use crate::anchor::{AnchorKey, AnchorKeyV, copy_key, key_eq};
use crate::text_run::{TextRun, copy_run, run_opt_v, run_v};
use crate::walker::{
    Occ, Site, Visitor, rewrite_body, rewrite_called, rw_calls, rw_stmts, classify_call_spec, occ_arms, occ_calls, occ_expr, occ_exprs, occ_of_call,
    occ_stmt, occ_stmts, run_eq,
};
use crate::anchor::{
    Classification, ClassificationV, classify_named_spec, classify_spec, class_opt_v, classify_named_call_call, classify_named_call_expr, classify_syscall_call,
    classify_syscall_expr, shapes_of_args, shapes_of_exprs,
};
use crate::ast::{
    ArmV, Body, BodyV, OpV, Call, CallKind, CallV, Called, CalledV, Expr, ExprV, Function, FunctionV, Stmt, StmtV,
    SwitchArm, arms_v,
    call_args_v, call_v, calls_v, expr_v, exprs_v, function_v, stmt_v, stmts_v, Scena, scena_v,
    find_fn_exec,
};
use crate::ast::find_fn_from;
use crate::text_run::{extract_run_call_range, extract_run_expr_range};
use crate::ast::{copy_body, copy_called};
use crate::voice::{
    InjectState, VoiceInsert, body_kind, body_kind_spec, calls_have_voice_spec, cd_stmts,
    count_dialogue_syscalls, evo_calls_have_voice_ids, extract_body_voice_ids, inj_stmts,
    inject_voice_ids, sat_nat, voice_ids_upto,
};

verus! {

/// A localizable call that found no counterpart run.
#[derive(Debug, Clone)]
pub struct UnmatchedEntry {
    pub function: String,
    pub site: Site,
    pub line: Option<u16>,
    pub key: AnchorKey,
    pub evo_run: TextRun,
}

/// A localizable call matched past the end of its bucket, which reused the
/// bucket's last run.
#[derive(Debug, Clone)]
pub struct OverflowEntry {
    pub function: String,
    pub site: Site,
    pub line: Option<u16>,
    pub key: AnchorKey,
    pub evo_run: TextRun,
    pub reused_run: TextRun,
}

/// A body that could not be decompiled and was replaced by the other
/// edition's tree, with `voice_ids_reinjected` voice cues put back.
#[derive(Debug, Clone)]
pub struct BodySubstitutionEntry {
    pub function: String,
    pub evo_body_kind: &'static str,
    pub voice_ids_reinjected: usize,
}

/// What a merge did.
#[derive(Debug, Clone)]
pub struct SwapStats {
    pub swaps_applied: usize,
    pub no_ops_equal: usize,
    pub unmatched_evo_calls: usize,
    pub overflow_reuses: usize,
    pub voiced_to_letter_fallback: usize,
    pub body_substitutions: usize,
    pub voice_ids_reinjected: usize,
    pub unmatched: Vec<UnmatchedEntry>,
    pub overflows: Vec<OverflowEntry>,
    pub body_subs: Vec<BodySubstitutionEntry>,
}

pub struct UnmatchedV {
    pub function: Seq<char>,
    pub site: Site,
    pub line: Option<u16>,
    pub key: AnchorKeyV,
    pub evo_run: Seq<Seq<char>>,
}

pub struct OverflowV {
    pub function: Seq<char>,
    pub site: Site,
    pub line: Option<u16>,
    pub key: AnchorKeyV,
    pub evo_run: Seq<Seq<char>>,
    pub reused_run: Seq<Seq<char>>,
}

pub struct BodySubV {
    pub function: Seq<char>,
    pub evo_body_kind: Seq<char>,
    pub voice_ids_reinjected: usize,
}

pub struct StatsV {
    pub swaps_applied: usize,
    pub no_ops_equal: usize,
    pub unmatched_evo_calls: usize,
    pub overflow_reuses: usize,
    pub voiced_to_letter_fallback: usize,
    pub body_substitutions: usize,
    pub voice_ids_reinjected: usize,
    pub unmatched: Seq<UnmatchedV>,
    pub overflows: Seq<OverflowV>,
    pub body_subs: Seq<BodySubV>,
}

impl View for UnmatchedEntry {
    type V = UnmatchedV;

    open spec fn view(&self) -> UnmatchedV {
        UnmatchedV {
            function: self.function@,
            site: self.site,
            line: self.line,
            key: self.key@,
            evo_run: run_v(self.evo_run@),
        }
    }
}

impl View for OverflowEntry {
    type V = OverflowV;

    open spec fn view(&self) -> OverflowV {
        OverflowV {
            function: self.function@,
            site: self.site,
            line: self.line,
            key: self.key@,
            evo_run: run_v(self.evo_run@),
            reused_run: run_v(self.reused_run@),
        }
    }
}

impl View for BodySubstitutionEntry {
    type V = BodySubV;

    open spec fn view(&self) -> BodySubV {
        BodySubV {
            function: self.function@,
            evo_body_kind: self.evo_body_kind@,
            voice_ids_reinjected: self.voice_ids_reinjected,
        }
    }
}

impl View for SwapStats {
    type V = StatsV;

    open spec fn view(&self) -> StatsV {
        StatsV {
            swaps_applied: self.swaps_applied,
            no_ops_equal: self.no_ops_equal,
            unmatched_evo_calls: self.unmatched_evo_calls,
            overflow_reuses: self.overflow_reuses,
            voiced_to_letter_fallback: self.voiced_to_letter_fallback,
            body_substitutions: self.body_substitutions,
            voice_ids_reinjected: self.voice_ids_reinjected,
            unmatched: Seq::new(self.unmatched@.len(), |i: int| self.unmatched@[i]@),
            overflows: Seq::new(self.overflows@.len(), |i: int| self.overflows@[i]@),
            body_subs: Seq::new(self.body_subs@.len(), |i: int| self.body_subs@[i]@),
        }
    }
}

/// `x + 1`, held at `usize::MAX`.
pub open spec fn sat_inc(x: usize) -> usize {
    if x < usize::MAX {
        (x + 1) as usize
    } else {
        x
    }
}

/// `x + y`, held at `usize::MAX`.
pub open spec fn sat_add(x: usize, y: usize) -> usize {
    if x + y <= usize::MAX {
        (x + y) as usize
    } else {
        usize::MAX
    }
}

/// Statistics of a merge that did nothing.
pub open spec fn stats_zero() -> StatsV {
    StatsV {
        swaps_applied: 0,
        no_ops_equal: 0,
        unmatched_evo_calls: 0,
        overflow_reuses: 0,
        voiced_to_letter_fallback: 0,
        body_substitutions: 0,
        voice_ids_reinjected: 0,
        unmatched: Seq::empty(),
        overflows: Seq::empty(),
        body_subs: Seq::empty(),
    }
}

/// The statistics of two merges taken together: counts add, entries
/// concatenate in order.
pub open spec fn merge_spec(a: StatsV, b: StatsV) -> StatsV {
    StatsV {
        swaps_applied: sat_add(a.swaps_applied, b.swaps_applied),
        no_ops_equal: sat_add(a.no_ops_equal, b.no_ops_equal),
        unmatched_evo_calls: sat_add(a.unmatched_evo_calls, b.unmatched_evo_calls),
        overflow_reuses: sat_add(a.overflow_reuses, b.overflow_reuses),
        voiced_to_letter_fallback: sat_add(a.voiced_to_letter_fallback, b.voiced_to_letter_fallback),
        body_substitutions: sat_add(a.body_substitutions, b.body_substitutions),
        voice_ids_reinjected: sat_add(a.voice_ids_reinjected, b.voice_ids_reinjected),
        unmatched: a.unmatched + b.unmatched,
        overflows: a.overflows + b.overflows,
        body_subs: a.body_subs + b.body_subs,
    }
}

pub(crate) fn sat_add_exec(x: usize, y: usize) -> (r: usize)
    ensures
        r == sat_add(x, y),
{
    if x <= usize::MAX - y {
        x + y
    } else {
        usize::MAX
    }
}

pub(crate) fn sat_inc_exec(x: usize) -> (r: usize)
    ensures
        r == sat_inc(x),
{
    if x < usize::MAX {
        x + 1
    } else {
        x
    }
}

impl Default for SwapStats {
    fn default() -> (r: Self)
        ensures
            r@ == stats_zero(),
    {
        let r = SwapStats {
            swaps_applied: 0,
            no_ops_equal: 0,
            unmatched_evo_calls: 0,
            overflow_reuses: 0,
            voiced_to_letter_fallback: 0,
            body_substitutions: 0,
            voice_ids_reinjected: 0,
            unmatched: Vec::new(),
            overflows: Vec::new(),
            body_subs: Vec::new(),
        };
        assert(r@.unmatched =~= Seq::<UnmatchedV>::empty());
        assert(r@.overflows =~= Seq::<OverflowV>::empty());
        assert(r@.body_subs =~= Seq::<BodySubV>::empty());
        r
    }
}

impl SwapStats {
    /// Add another merge's statistics to these.
    pub fn merge(&mut self, other: SwapStats)
        ensures
            final(self)@ == merge_spec(old(self)@, other@),
    {
        let ghost ov = other@;
        let mut other = other;
        self.swaps_applied = sat_add_exec(self.swaps_applied, other.swaps_applied);
        self.no_ops_equal = sat_add_exec(self.no_ops_equal, other.no_ops_equal);
        self.unmatched_evo_calls = sat_add_exec(self.unmatched_evo_calls, other.unmatched_evo_calls);
        self.overflow_reuses = sat_add_exec(self.overflow_reuses, other.overflow_reuses);
        self.voiced_to_letter_fallback = sat_add_exec(
            self.voiced_to_letter_fallback,
            other.voiced_to_letter_fallback,
        );
        self.body_substitutions = sat_add_exec(self.body_substitutions, other.body_substitutions);
        self.voice_ids_reinjected = sat_add_exec(self.voice_ids_reinjected, other.voice_ids_reinjected);
        let ghost u0 = self.unmatched@;
        let ghost u1 = other.unmatched@;
        let ghost o0 = self.overflows@;
        let ghost o1 = other.overflows@;
        let ghost b0 = self.body_subs@;
        let ghost b1 = other.body_subs@;
        self.unmatched.append(&mut other.unmatched);
        self.overflows.append(&mut other.overflows);
        self.body_subs.append(&mut other.body_subs);
        assert(self@.unmatched =~= merge_spec(old(self)@, ov).unmatched) by {
            assert(self.unmatched@ == u0 + u1);
        }
        assert(self@.overflows =~= merge_spec(old(self)@, ov).overflows) by {
            assert(self.overflows@ == o0 + o1);
        }
        assert(self@.body_subs =~= merge_spec(old(self)@, ov).body_subs) by {
            assert(self.body_subs@ == b0 + b1);
        }
    }
}

// ---------------------------------------------------------------- index

/// The runs of one anchor bucket, in source order.
pub struct Bucket {
    pub site: Site,
    pub key: AnchorKey,
    pub runs: Vec<TextRun>,
}

/// The other edition's runs, bucketed by `(Site, AnchorKey)` in order of
/// each bucket's first occurrence.
pub type Index = Vec<Bucket>;

pub struct BucketV {
    pub site: Site,
    pub key: AnchorKeyV,
    pub runs: Seq<Seq<Seq<char>>>,
}

pub open spec fn runs_v(s: Seq<TextRun>) -> Seq<Seq<Seq<char>>> {
    Seq::new(s.len(), |j: int| run_v(s[j]@))
}

pub open spec fn bucket_v(b: Bucket) -> BucketV {
    BucketV { site: b.site, key: b.key@, runs: runs_v(b.runs@) }
}

pub open spec fn index_v(s: Seq<Bucket>) -> Seq<BucketV> {
    Seq::new(s.len(), |i: int| bucket_v(s[i]))
}

/// Position of the first bucket at or after `k` with this site and key.
pub open spec fn find_bucket_from(idx: Seq<BucketV>, k: int, site: Site, key: AnchorKeyV) -> Option<int>
    decreases idx.len() - k,
{
    if k < 0 || k >= idx.len() {
        None
    } else if idx[k].site == site && idx[k].key == key {
        Some(k)
    } else {
        find_bucket_from(idx, k + 1, site, key)
    }
}

pub open spec fn find_bucket(idx: Seq<BucketV>, site: Site, key: AnchorKeyV) -> Option<int> {
    find_bucket_from(idx, 0, site, key)
}

/// The runs of a bucket, when the bucket exists and holds any.
pub open spec fn lookup_nonempty(idx: Seq<BucketV>, site: Site, key: AnchorKeyV) -> Option<Seq<Seq<Seq<char>>>> {
    match find_bucket(idx, site, key) {
        Some(i) => if idx[i].runs.len() > 0 {
            Some(idx[i].runs)
        } else {
            None
        },
        None => None,
    }
}

/// The index after one more run of bucket `(site, key)`.
pub open spec fn index_add(idx: Seq<BucketV>, site: Site, key: AnchorKeyV, run: Seq<Seq<char>>) -> Seq<BucketV> {
    match find_bucket(idx, site, key) {
        Some(i) => idx.update(i, BucketV { site, key, runs: idx[i].runs.push(run) }),
        None => idx.push(BucketV { site, key, runs: seq![run] }),
    }
}

/// The index after the runs of `occs`, in order.
pub open spec fn index_fold(idx: Seq<BucketV>, occs: Seq<crate::walker::Occ>) -> Seq<BucketV>
    decreases occs.len(),
{
    if occs.len() == 0 {
        idx
    } else {
        let o = occs[occs.len() - 1];
        index_add(index_fold(idx, occs.drop_last()), o.site, o.key, o.run)
    }
}

pub proof fn lemma_index_fold_append(idx: Seq<BucketV>, a: Seq<crate::walker::Occ>, b: Seq<crate::walker::Occ>)
    ensures
        index_fold(idx, a + b) == index_fold(index_fold(idx, a), b),
    decreases b.len(),
{
    if b.len() == 0 {
        assert(a + b =~= a);
    } else {
        lemma_index_fold_append(idx, a, b.drop_last());
        assert((a + b).drop_last() =~= a + b.drop_last());
    }
}

pub proof fn lemma_index_fold_small(idx: Seq<BucketV>, o: Occ)
    ensures
        index_fold(idx, Seq::empty()) == idx,
        index_fold(idx, seq![o]) == index_add(idx, o.site, o.key, o.run),
{
    assert(seq![o].drop_last() =~= Seq::<Occ>::empty());
    assert(index_fold(idx, Seq::<Occ>::empty()) == idx);
    assert(seq![o][0] == o);
}

pub proof fn lemma_find_bucket_from(idx: Seq<BucketV>, k: int, site: Site, key: AnchorKeyV)
    ensures
        find_bucket_from(idx, k, site, key) matches Some(i) ==> k <= i < idx.len() && idx[i].site == site
            && idx[i].key == key,
    decreases idx.len() - k,
{
    if 0 <= k < idx.len() && !(idx[k].site == site && idx[k].key == key) {
        lemma_find_bucket_from(idx, k + 1, site, key);
    }
}

pub(crate) fn find_bucket_exec(idx: &Vec<Bucket>, site: Site, key: &AnchorKey) -> (r: Option<usize>)
    ensures
        match r {
            Some(i) => find_bucket(index_v(idx@), site, key@) == Some(i as int),
            None => find_bucket(index_v(idx@), site, key@) is None,
        },
        r matches Some(i) ==> i < idx@.len(),
{
    let ghost iv = index_v(idx@);
    let mut i: usize = 0;
    while i < idx.len()
        invariant
            0 <= i <= idx@.len(),
            iv == index_v(idx@),
            find_bucket_from(iv, 0, site, key@) == find_bucket_from(iv, i as int, site, key@),
        decreases idx@.len() - i,
    {
        if idx[i].site == site && key_eq(&idx[i].key, key) {
            return Some(i);
        }
        i += 1;
    }
    None
}

/// Collects runs into an index, all at one site.
pub struct IndexBuilder {
    pub idx: Index,
    pub site: Site,
}

impl IndexBuilder {
    /// Add `run` to bucket `(self.site, key)`.
    pub fn push(&mut self, key: AnchorKey, run: TextRun)
        ensures
            final(self).site == old(self).site,
            index_v(final(self).idx@) == index_add(index_v(old(self).idx@), old(self).site, key@, run_v(run@)),
    {
        let ghost before = index_v(self.idx@);
        match find_bucket_exec(&self.idx, self.site, &key) {
            Some(i) => {
                let ghost rv = run_v(run@);
                let ghost old_runs = self.idx@[i as int].runs@;
                self.idx[i].runs.push(run);
                proof {
                    lemma_find_bucket_from(before, 0, self.site, key@);
                    assert(runs_v(self.idx@[i as int].runs@) =~= runs_v(old_runs).push(rv));
                    assert(index_v(self.idx@) =~= index_add(before, self.site, key@, rv));
                }
            },
            None => {
                let ghost kv = key@;
                let ghost rv = run_v(run@);
                let mut runs: Vec<TextRun> = Vec::new();
                runs.push(run);
                self.idx.push(Bucket { site: self.site, key, runs });
                proof {
                    assert(runs_v(self.idx@[self.idx@.len() - 1].runs@) =~= seq![rv]);
                    assert(index_v(self.idx@) =~= index_add(before, self.site, kv, rv));
                }
            },
        }
    }
}

// ---------------------------------------------------------------- counters

/// How many calls of a bucket have been matched so far.
pub struct Counter {
    pub site: Site,
    pub key: AnchorKey,
    pub n: usize,
}

pub struct CounterV {
    pub site: Site,
    pub key: AnchorKeyV,
    pub n: usize,
}

pub open spec fn counters_v(s: Seq<Counter>) -> Seq<CounterV> {
    Seq::new(s.len(), |i: int| CounterV { site: s[i].site, key: s[i].key@, n: s[i].n })
}

pub open spec fn find_counter_from(cs: Seq<CounterV>, k: int, site: Site, key: AnchorKeyV) -> Option<int>
    decreases cs.len() - k,
{
    if k < 0 || k >= cs.len() {
        None
    } else if cs[k].site == site && cs[k].key == key {
        Some(k)
    } else {
        find_counter_from(cs, k + 1, site, key)
    }
}

pub open spec fn counter_get(cs: Seq<CounterV>, site: Site, key: AnchorKeyV) -> usize {
    match find_counter_from(cs, 0, site, key) {
        Some(i) => cs[i].n,
        None => 0,
    }
}

pub open spec fn counter_set(cs: Seq<CounterV>, site: Site, key: AnchorKeyV, n: usize) -> Seq<CounterV> {
    match find_counter_from(cs, 0, site, key) {
        Some(i) => cs.update(i, CounterV { site, key, n }),
        None => cs.push(CounterV { site, key, n }),
    }
}

pub proof fn lemma_find_counter_from(cs: Seq<CounterV>, k: int, site: Site, key: AnchorKeyV)
    ensures
        find_counter_from(cs, k, site, key) matches Some(i) ==> k <= i < cs.len() && cs[i].site == site
            && cs[i].key == key,
    decreases cs.len() - k,
{
    if 0 <= k < cs.len() && !(cs[k].site == site && cs[k].key == key) {
        lemma_find_counter_from(cs, k + 1, site, key);
    }
}

fn find_counter_exec(cs: &Vec<Counter>, site: Site, key: &AnchorKey) -> (r: Option<usize>)
    ensures
        match r {
            Some(i) => find_counter_from(counters_v(cs@), 0, site, key@) == Some(i as int),
            None => find_counter_from(counters_v(cs@), 0, site, key@) is None,
        },
        r matches Some(i) ==> i < cs@.len(),
{
    let ghost cv = counters_v(cs@);
    let mut i: usize = 0;
    while i < cs.len()
        invariant
            0 <= i <= cs@.len(),
            cv == counters_v(cs@),
            find_counter_from(cv, 0, site, key@) == find_counter_from(cv, i as int, site, key@),
        decreases cs@.len() - i,
    {
        if cs[i].site == site && key_eq(&cs[i].key, key) {
            return Some(i);
        }
        i += 1;
    }
    None
}

fn counter_get_exec(cs: &Vec<Counter>, site: Site, key: &AnchorKey) -> (r: usize)
    ensures
        r == counter_get(counters_v(cs@), site, key@),
{
    match find_counter_exec(cs, site, key) {
        Some(i) => cs[i].n,
        None => 0,
    }
}

fn counter_set_exec(cs: &mut Vec<Counter>, site: Site, key: AnchorKey, n: usize)
    ensures
        counters_v(final(cs)@) == counter_set(counters_v(old(cs)@), site, key@, n),
{
    let ghost before = counters_v(cs@);
    match find_counter_exec(cs, site, &key) {
        Some(i) => {
            cs[i].n = n;
            proof {
                lemma_find_counter_from(before, 0, site, key@);
                assert(counters_v(cs@) =~= counter_set(before, site, key@, n));
            }
        },
        None => {
            let ghost kv = key@;
            cs.push(Counter { site, key, n });
            assert(counters_v(cs@) =~= counter_set(before, site, kv, n));
        },
    }
}

// ---------------------------------------------------------------- visitor

/// Lays the indexed runs over one function's calls.
pub struct SwapVisitor {
    pub function: String,
    pub index: Index,
    pub counters: Vec<Counter>,
    pub stats: SwapStats,
}

pub struct SwapStateV {
    pub function: Seq<char>,
    pub index: Seq<BucketV>,
    pub counters: Seq<CounterV>,
    pub stats: StatsV,
}

impl View for SwapVisitor {
    type V = SwapStateV;

    open spec fn view(&self) -> SwapStateV {
        SwapStateV {
            function: self.function@,
            index: index_v(self.index@),
            counters: counters_v(self.counters@),
            stats: self.stats@,
        }
    }
}

/// Take the next run of `runs` for counter `(csite, ckey)`: the `n`-th run
/// for the `n`-th call, the last run once the bucket is used up (recorded as
/// an overflow). A run equal to the call's own is a no-op; a different one is
/// the answer.
pub open spec fn take_run(
    st: SwapStateV,
    site: Site,
    line: Option<u16>,
    key: AnchorKeyV,
    evo: Seq<Seq<char>>,
    runs: Seq<Seq<Seq<char>>>,
    csite: Site,
    ckey: AnchorKeyV,
) -> (SwapStateV, Option<Seq<Seq<char>>>) {
    let n = counter_get(st.counters, csite, ckey);
    let overflow = n >= runs.len();
    let run = if overflow {
        runs[runs.len() - 1]
    } else {
        runs[n as int]
    };
    let counters = counter_set(st.counters, csite, ckey, sat_inc(n));
    let stats1 = if overflow {
        StatsV {
            overflow_reuses: sat_inc(st.stats.overflow_reuses),
            overflows: st.stats.overflows.push(
                OverflowV { function: st.function, site, line, key, evo_run: evo, reused_run: run },
            ),
            ..st.stats
        }
    } else {
        st.stats
    };
    if run == evo {
        (
            SwapStateV {
                counters,
                stats: StatsV { no_ops_equal: sat_inc(stats1.no_ops_equal), ..stats1 },
                ..st
            },
            None,
        )
    } else {
        (
            SwapStateV {
                counters,
                stats: StatsV { swaps_applied: sat_inc(stats1.swaps_applied), ..stats1 },
                ..st
            },
            Some(run),
        )
    }
}

/// One visit: the call's own bucket; for a call-table entry, else the body
/// bucket of the same key; for a voiced `[5,8]` call, else the letter bucket
/// (a shape the other edition never upgraded); else the call is unmatched.
pub open spec fn swap_visit_spec(
    st: SwapStateV,
    site: Site,
    line: Option<u16>,
    key: AnchorKeyV,
    evo: Seq<Seq<char>>,
) -> (SwapStateV, Option<Seq<Seq<char>>>) {
    let direct = lookup_nonempty(st.index, site, key);
    let found = if direct is Some {
        direct
    } else if site == Site::Called {
        lookup_nonempty(st.index, Site::Body, key)
    } else {
        None
    };
    if found is Some {
        take_run(st, site, line, key, evo, found->0, site, key)
    } else if key is Voiced && lookup_nonempty(st.index, site, AnchorKeyV::Letter) is Some {
        let st1 = SwapStateV {
            stats: StatsV {
                voiced_to_letter_fallback: sat_inc(st.stats.voiced_to_letter_fallback),
                ..st.stats
            },
            ..st
        };
        take_run(
            st1,
            site,
            line,
            key,
            evo,
            lookup_nonempty(st.index, site, AnchorKeyV::Letter)->0,
            site,
            AnchorKeyV::Letter,
        )
    } else {
        (
            SwapStateV {
                stats: StatsV {
                    unmatched_evo_calls: sat_inc(st.stats.unmatched_evo_calls),
                    unmatched: st.stats.unmatched.push(
                        UnmatchedV { function: st.function, site, line, key, evo_run: evo },
                    ),
                    ..st.stats
                },
                ..st
            },
            None,
        )
    }
}

pub(crate) fn lookup_nonempty_exec(idx: &Vec<Bucket>, site: Site, key: &AnchorKey) -> (r: Option<usize>)
    ensures
        match r {
            Some(i) => i < idx@.len() && lookup_nonempty(index_v(idx@), site, key@) == Some(
                runs_v(idx@[i as int].runs@),
            ),
            None => lookup_nonempty(index_v(idx@), site, key@) is None,
        },
{
    match find_bucket_exec(idx, site, key) {
        Some(i) => if idx[i].runs.len() > 0 {
            Some(i)
        } else {
            None
        },
        None => None,
    }
}

impl SwapVisitor {
    fn take_run_exec(
        &mut self,
        site: Site,
        line: Option<u16>,
        key: &AnchorKey,
        evo_run: &TextRun,
        bucket: usize,
        csite: Site,
        ckey: AnchorKey,
    ) -> (r: Option<TextRun>)
        requires
            bucket < old(self).index@.len(),
            old(self).index@[bucket as int].runs@.len() > 0,
        ensures
            (final(self)@, run_opt_v(r)) == take_run(
                old(self)@,
                site,
                line,
                key@,
                run_v(evo_run@),
                runs_v(old(self).index@[bucket as int].runs@),
                csite,
                ckey@,
            ),
    {
        let runs = &self.index[bucket].runs;
        let n = counter_get_exec(&self.counters, csite, &ckey);
        let overflow = n >= runs.len();
        let run = if overflow {
            copy_run(&runs[runs.len() - 1])
        } else {
            copy_run(&runs[n])
        };
        counter_set_exec(&mut self.counters, csite, ckey, sat_inc_exec(n));
        if overflow {
            self.stats.overflow_reuses = sat_inc_exec(self.stats.overflow_reuses);
            let entry = OverflowEntry {
                function: self.function.clone(),
                site,
                line,
                key: copy_key(key),
                evo_run: copy_run(evo_run),
                reused_run: copy_run(&run),
            };
            let ghost before = self.stats.overflows@;
            self.stats.overflows.push(entry);
            assert(self.stats@.overflows =~= Seq::new(before.len(), |i: int| before[i]@).push(entry@));
        }
        if run_eq(&run, evo_run) {
            self.stats.no_ops_equal = sat_inc_exec(self.stats.no_ops_equal);
            None
        } else {
            self.stats.swaps_applied = sat_inc_exec(self.stats.swaps_applied);
            Some(run)
        }
    }
}

impl Visitor for SwapVisitor {
    open spec fn visit_spec(
        state: SwapStateV,
        site: Site,
        line: Option<u16>,
        key: AnchorKeyV,
        run: Seq<Seq<char>>,
    ) -> (SwapStateV, Option<Seq<Seq<char>>>) {
        swap_visit_spec(state, site, line, key, run)
    }

    fn on_syscall(&mut self, site: Site, line: Option<u16>, key: &AnchorKey, evo_run: &TextRun) -> (r:
        Option<TextRun>) {
        let direct = lookup_nonempty_exec(&self.index, site, key);
        let found = match direct {
            Some(i) => Some(i),
            None => if site == Site::Called {
                lookup_nonempty_exec(&self.index, Site::Body, key)
            } else {
                None
            },
        };
        if let Some(b) = found {
            return self.take_run_exec(site, line, key, evo_run, b, site, copy_key(key));
        }
        if let AnchorKey::Voiced(_) = key {
            if let Some(b) = lookup_nonempty_exec(&self.index, site, &AnchorKey::Letter) {
                self.stats.voiced_to_letter_fallback = sat_inc_exec(self.stats.voiced_to_letter_fallback);
                return self.take_run_exec(site, line, key, evo_run, b, site, AnchorKey::Letter);
            }
        }
        self.stats.unmatched_evo_calls = sat_inc_exec(self.stats.unmatched_evo_calls);
        let entry = UnmatchedEntry {
            function: self.function.clone(),
            site,
            line,
            key: copy_key(key),
            evo_run: copy_run(evo_run),
        };
        let ghost before = self.stats.unmatched@;
        self.stats.unmatched.push(entry);
        assert(self.stats@.unmatched =~= Seq::new(before.len(), |i: int| before[i]@).push(entry@));
        None
    }
}

// ---------------------------------------------------------------- building the index

/// The localizable occurrences of a function: its tree body's, then its
/// call table's.
pub open spec fn function_occs(f: FunctionV) -> Seq<Occ> {
    (match f.body {
        BodyV::Tree(s) => occ_stmts(s),
        _ => Seq::empty(),
    }) + (match f.called {
        CalledV::Raw(c) => occ_calls(c),
        _ => Seq::empty(),
    })
}

/// The index of a function's runs.
pub open spec fn index_of_function(f: FunctionV) -> Seq<BucketV> {
    index_fold(Seq::empty(), function_occs(f))
}

fn index_run_expr(line: Option<u16>, cls: Option<Classification>, args: &Vec<Expr>, b: &mut IndexBuilder)
    ensures
        final(b).site == old(b).site,
        index_v(final(b).idx@) == index_fold(
            index_v(old(b).idx@),
            occ_of_call(old(b).site, line, class_opt_v(cls), shapes_of_exprs(exprs_v(args@))),
        ),
{
    proof {
        lemma_index_fold_small(index_v(b.idx@), Occ { site: b.site, line: None, key: AnchorKeyV::Letter, run: Seq::empty(), tight: false });
    }
    let ghost sh = shapes_of_exprs(exprs_v(args@));
    let cls = match cls {
        Some(c) => c,
        None => {
            return;
        },
    };
    let p = cls.prefix_len;
    let e = match cls.run_len {
        Some(n) => {
            if n > args.len() || p > args.len() - n {
                return;
            }
            p + n
        },
        None => args.len(),
    };
    if p > e {
        return;
    }
    if let Some(run) = extract_run_expr_range(args.as_slice(), p, e) {
        let ghost o = Occ { site: b.site, line: line, key: cls.key@, run: run_v(run@), tight: crate::walker::empty_keeps(cls@, sh) };
        proof {
            lemma_index_fold_small(index_v(b.idx@), o);
        }
        b.push(cls.key, run);
    }
}

fn index_run_call(cls: Option<Classification>, args: &Vec<crate::ast::CallArg>, b: &mut IndexBuilder)
    ensures
        final(b).site == old(b).site,
        index_v(final(b).idx@) == index_fold(
            index_v(old(b).idx@),
            occ_of_call(old(b).site, None, class_opt_v(cls), shapes_of_args(call_args_v(args@))),
        ),
{
    proof {
        lemma_index_fold_small(index_v(b.idx@), Occ { site: b.site, line: None, key: AnchorKeyV::Letter, run: Seq::empty(), tight: false });
    }
    let cls = match cls {
        Some(c) => c,
        None => {
            return;
        },
    };
    let p = cls.prefix_len;
    let e = match cls.run_len {
        Some(n) => {
            if n > args.len() || p > args.len() - n {
                return;
            }
            p + n
        },
        None => args.len(),
    };
    if p > e {
        return;
    }
    if let Some(run) = extract_run_call_range(args.as_slice(), p, e) {
        let ghost o = Occ { site: b.site, line: None, key: cls.key@, run: run_v(run@), tight: crate::walker::empty_keeps(cls@, shapes_of_args(call_args_v(args@))) };
        proof {
            lemma_index_fold_small(index_v(b.idx@), o);
        }
        b.push(cls.key, run);
    }
}

/// `occs` as found at site `s`.
pub open spec fn at_site(occs: Seq<Occ>, s: Site) -> Seq<Occ> {
    Seq::new(occs.len(), |i: int| Occ { site: s, ..occs[i] })
}

proof fn lemma_at_site_append(a: Seq<Occ>, b: Seq<Occ>, s: Site)
    ensures
        at_site(a + b, s) == at_site(a, s) + at_site(b, s),
{
    assert(at_site(a + b, s) =~= at_site(a, s) + at_site(b, s));
}

proof fn lemma_at_site_call(site: Site, l: Option<u16>, cls: Option<ClassificationV>, sh: Seq<crate::anchor::Shape>, s: Site)
    ensures
        at_site(occ_of_call(site, l, cls, sh), s) == occ_of_call(s, l, cls, sh),
        at_site(Seq::<Occ>::empty(), s) == Seq::<Occ>::empty(),
{
    assert(at_site(occ_of_call(site, l, cls, sh), s) =~= occ_of_call(s, l, cls, sh));
    assert(at_site(Seq::<Occ>::empty(), s) =~= Seq::<Occ>::empty());
}

/// Every occurrence of `occs` is at site `s`.
pub open spec fn all_at(occs: Seq<Occ>, s: Site) -> bool {
    forall|i: int| 0 <= i < occs.len() ==> (#[trigger] occs[i]).site == s
}

proof fn lemma_all_at_append(a: Seq<Occ>, b: Seq<Occ>, s: Site)
    requires
        all_at(a, s),
        all_at(b, s),
    ensures
        all_at(a + b, s),
{
    assert forall|i: int| 0 <= i < (a + b).len() implies (#[trigger] (a + b)[i]).site == s by {
        if i < a.len() {
            assert((a + b)[i] == a[i]);
        } else {
            assert((a + b)[i] == b[i - a.len()]);
        }
    }
}

proof fn lemma_all_at_same(occs: Seq<Occ>, s: Site)
    requires
        all_at(occs, s),
    ensures
        at_site(occs, s) == occs,
{
    assert(at_site(occs, s) =~= occs);
}

proof fn lemma_sites_expr(e: ExprV)
    ensures
        all_at(occ_expr(e), Site::Body),
    decreases e,
{
    match e {
        ExprV::Syscall(l, a, b, args) => {
            lemma_sites_exprs(args);
            lemma_all_at_append(
                occ_exprs(args),
                occ_of_call(Site::Body, l, classify_spec(a, b, shapes_of_exprs(args)), shapes_of_exprs(args)),
                Site::Body,
            );
        },
        ExprV::Call(l, n, args) => {
            lemma_sites_exprs(args);
            lemma_all_at_append(
                occ_exprs(args),
                occ_of_call(Site::Body, l, classify_named_spec(n, shapes_of_exprs(args)), shapes_of_exprs(args)),
                Site::Body,
            );
        },
        ExprV::Unop(_, _, inner) => lemma_sites_expr(*inner),
        ExprV::Binop(_, _, x, y) => {
            lemma_sites_expr(*x);
            lemma_sites_expr(*y);
            lemma_all_at_append(occ_expr(*x), occ_expr(*y), Site::Body);
        },
        _ => {},
    }
}

proof fn lemma_sites_exprs(s: Seq<ExprV>)
    ensures
        all_at(occ_exprs(s), Site::Body),
    decreases s,
{
    if s.len() > 0 {
        lemma_sites_exprs(s.drop_last());
        lemma_sites_expr(s[s.len() - 1]);
        lemma_all_at_append(occ_exprs(s.drop_last()), occ_expr(s[s.len() - 1]), Site::Body);
    }
}

proof fn lemma_sites_stmt(s: StmtV)
    ensures
        all_at(occ_stmt(s), Site::Body),
    decreases s,
{
    match s {
        StmtV::Expr(e) => lemma_sites_expr(e),
        StmtV::Assign(_, _, e) => lemma_sites_expr(e),
        StmtV::Return(_, e) => {
            if let Some(e) = e {
                lemma_sites_expr(e);
            }
        },
        StmtV::PushVar(_, _, e) => {
            if let Some(e) = e {
                lemma_sites_expr(e);
            }
        },
        StmtV::If(_, c, t, els) => {
            lemma_sites_expr(c);
            lemma_sites_stmts(t);
            lemma_all_at_append(occ_expr(c), occ_stmts(t), Site::Body);
            match els {
                Some(e) => {
                    lemma_sites_stmts(e);
                    lemma_all_at_append(occ_expr(c) + occ_stmts(t), occ_stmts(e), Site::Body);
                },
                None => {
                    lemma_all_at_append(occ_expr(c) + occ_stmts(t), Seq::empty(), Site::Body);
                },
            }
        },
        StmtV::While(_, c, b) => {
            lemma_sites_expr(c);
            lemma_sites_stmts(b);
            lemma_all_at_append(occ_expr(c), occ_stmts(b), Site::Body);
        },
        StmtV::Switch(_, c, arms) => {
            lemma_sites_expr(c);
            lemma_sites_arms(arms);
            lemma_all_at_append(occ_expr(c), occ_arms(arms), Site::Body);
        },
        StmtV::Block(b) => lemma_sites_stmts(b),
        StmtV::Debug(_, args) => lemma_sites_exprs(args),
        StmtV::Tailcall(_, _, args) => lemma_sites_exprs(args),
        StmtV::Break => {},
        StmtV::Continue => {},
    }
}

proof fn lemma_sites_stmts(s: Seq<StmtV>)
    ensures
        all_at(occ_stmts(s), Site::Body),
    decreases s,
{
    if s.len() > 0 {
        lemma_sites_stmts(s.drop_last());
        lemma_sites_stmt(s[s.len() - 1]);
        lemma_all_at_append(occ_stmts(s.drop_last()), occ_stmt(s[s.len() - 1]), Site::Body);
    }
}

proof fn lemma_sites_arms(s: Seq<ArmV>)
    ensures
        all_at(occ_arms(s), Site::Body),
    decreases s,
{
    if s.len() > 0 {
        lemma_sites_arms(s.drop_last());
        lemma_sites_stmts(s[s.len() - 1].body);
        lemma_all_at_append(occ_arms(s.drop_last()), occ_stmts(s[s.len() - 1].body), Site::Body);
    }
}

proof fn lemma_sites_calls(s: Seq<CallV>)
    ensures
        all_at(occ_calls(s), Site::Called),
    decreases s.len(),
{
    if s.len() > 0 {
        lemma_sites_calls(s.drop_last());
        let c = s[s.len() - 1];
        lemma_all_at_append(
            occ_calls(s.drop_last()),
            occ_of_call(Site::Called, None, classify_call_spec(c), shapes_of_args(c.args)),
            Site::Called,
        );
    }
}

/// `index_fold` of `a + b` relabelled at `s`, in two steps.
proof fn lemma_fold_at(i0: Seq<BucketV>, a: Seq<Occ>, b: Seq<Occ>, s: Site)
    ensures
        index_fold(i0, at_site(a + b, s)) == index_fold(index_fold(i0, at_site(a, s)), at_site(b, s)),
{
    lemma_at_site_append(a, b, s);
    lemma_index_fold_append(i0, at_site(a, s), at_site(b, s));
}

fn collect_expr(expr: &Expr, b: &mut IndexBuilder)
    ensures
        final(b).site == old(b).site,
        index_v(final(b).idx@) == index_fold(index_v(old(b).idx@), at_site(occ_expr(expr_v(*expr)), old(b).site)),
    decreases *expr,
{
    let ghost i0 = index_v(b.idx@);
    let ghost s = b.site;
    match expr {
        Expr::Syscall(line, a, bb, args) => {
            collect_exprs(args, b);
            let cls = classify_syscall_expr(*a, *bb, args.as_slice());
            index_run_expr(*line, cls, args, b);
            proof {
                let oc = occ_of_call(Site::Body, *line, class_opt_v(cls), shapes_of_exprs(exprs_v(args@)));
                lemma_at_site_call(Site::Body, *line, class_opt_v(cls), shapes_of_exprs(exprs_v(args@)), s);
                lemma_fold_at(i0, occ_exprs(exprs_v(args@)), oc, s);
            }
        },
        Expr::Call(line, name, args) => {
            collect_exprs(args, b);
            let cls = classify_named_call_expr(name, args.as_slice());
            index_run_expr(*line, cls, args, b);
            proof {
                let oc = occ_of_call(Site::Body, *line, class_opt_v(cls), shapes_of_exprs(exprs_v(args@)));
                lemma_at_site_call(Site::Body, *line, class_opt_v(cls), shapes_of_exprs(exprs_v(args@)), s);
                lemma_fold_at(i0, occ_exprs(exprs_v(args@)), oc, s);
            }
        },
        Expr::Unop(_, _, inner) => {
            collect_expr(&**inner, b);
        },
        Expr::Binop(_, _, x, y) => {
            collect_expr(&**x, b);
            collect_expr(&**y, b);
            proof {
                lemma_fold_at(i0, occ_expr(expr_v(**x)), occ_expr(expr_v(**y)), s);
            }
        },
        _ => {
            proof {
                lemma_at_site_call(Site::Body, None, None, Seq::empty(), s);
            }
        },
    }
}

fn collect_exprs(args: &Vec<Expr>, b: &mut IndexBuilder)
    ensures
        final(b).site == old(b).site,
        index_v(final(b).idx@) == index_fold(index_v(old(b).idx@), at_site(occ_exprs(exprs_v(args@)), old(b).site)),
    decreases *args,
{
    let ghost i0 = index_v(b.idx@);
    let ghost s = b.site;
    proof {
        lemma_at_site_call(Site::Body, None, None, Seq::empty(), s);
        assert(exprs_v(args@).take(0) =~= Seq::<ExprV>::empty());
    }
    let mut i: usize = 0;
    while i < args.len()
        invariant
            0 <= i <= args@.len(),
            b.site == s,
            index_v(b.idx@) == index_fold(i0, at_site(occ_exprs(exprs_v(args@).take(i as int)), s)),
        decreases args@.len() - i,
    {
        proof {
            vstd::std_specs::vec::axiom_vec_index_decreases(*args, i as int);
        }
        collect_expr(&args[i], b);
        proof {
            let t1 = exprs_v(args@).take(i + 1);
            assert(t1.drop_last() =~= exprs_v(args@).take(i as int));
            lemma_fold_at(i0, occ_exprs(exprs_v(args@).take(i as int)), occ_expr(expr_v(args@[i as int])), s);
        }
        i += 1;
    }
    assert(exprs_v(args@).take(args@.len() as int) =~= exprs_v(args@));
}

fn collect_stmt(stmt: &Stmt, b: &mut IndexBuilder)
    ensures
        final(b).site == old(b).site,
        index_v(final(b).idx@) == index_fold(index_v(old(b).idx@), at_site(occ_stmt(stmt_v(*stmt)), old(b).site)),
    decreases *stmt,
{
    let ghost i0 = index_v(b.idx@);
    let ghost s = b.site;
    proof {
        lemma_at_site_call(Site::Body, None, None, Seq::empty(), s);
    }
    match stmt {
        Stmt::Expr(e) => collect_expr(e, b),
        Stmt::Assign(_, _, e) => collect_expr(e, b),
        Stmt::Return(_, e) => {
            if let Some(e) = e {
                collect_expr(e, b);
            }
        },
        Stmt::PushVar(_, _, e) => {
            if let Some(e) = e {
                collect_expr(e, b);
            }
        },
        Stmt::If(_, c, t, els) => {
            collect_expr(c, b);
            collect_stmts(t, b);
            proof {
                lemma_fold_at(i0, occ_expr(expr_v(*c)), occ_stmts(stmts_v(t@)), s);
            }
            let ghost i2 = index_v(b.idx@);
            match els {
                Some(e) => {
                    collect_stmts(e, b);
                    proof {
                        lemma_fold_at(i0, occ_expr(expr_v(*c)) + occ_stmts(stmts_v(t@)), occ_stmts(stmts_v(e@)), s);
                    }
                },
                None => {
                    proof {
                        lemma_fold_at(i0, occ_expr(expr_v(*c)) + occ_stmts(stmts_v(t@)), Seq::empty(), s);
                        lemma_index_fold_append(i2, Seq::empty(), Seq::empty());
                        assert(Seq::<BucketV>::empty() + Seq::empty() =~= Seq::<BucketV>::empty());
                    }
                },
            }
        },
        Stmt::While(_, c, bd) => {
            collect_expr(c, b);
            collect_stmts(bd, b);
            proof {
                lemma_fold_at(i0, occ_expr(expr_v(*c)), occ_stmts(stmts_v(bd@)), s);
            }
        },
        Stmt::Switch(_, c, arms) => {
            collect_expr(c, b);
            collect_arms(arms, b);
            proof {
                lemma_fold_at(i0, occ_expr(expr_v(*c)), occ_arms(arms_v(arms@)), s);
            }
        },
        Stmt::Block(st) => collect_stmts(st, b),
        Stmt::Debug(_, args) => collect_exprs(args, b),
        Stmt::Tailcall(_, _, args) => collect_exprs(args, b),
        Stmt::Break => {},
        Stmt::Continue => {},
    }
}

fn collect_stmts(stmts: &Vec<Stmt>, b: &mut IndexBuilder)
    ensures
        final(b).site == old(b).site,
        index_v(final(b).idx@) == index_fold(index_v(old(b).idx@), at_site(occ_stmts(stmts_v(stmts@)), old(b).site)),
    decreases *stmts,
{
    let ghost i0 = index_v(b.idx@);
    let ghost s = b.site;
    proof {
        lemma_at_site_call(Site::Body, None, None, Seq::empty(), s);
        assert(stmts_v(stmts@).take(0) =~= Seq::<StmtV>::empty());
    }
    let mut i: usize = 0;
    while i < stmts.len()
        invariant
            0 <= i <= stmts@.len(),
            b.site == s,
            index_v(b.idx@) == index_fold(i0, at_site(occ_stmts(stmts_v(stmts@).take(i as int)), s)),
        decreases stmts@.len() - i,
    {
        proof {
            vstd::std_specs::vec::axiom_vec_index_decreases(*stmts, i as int);
        }
        collect_stmt(&stmts[i], b);
        proof {
            let t1 = stmts_v(stmts@).take(i + 1);
            assert(t1.drop_last() =~= stmts_v(stmts@).take(i as int));
            lemma_fold_at(i0, occ_stmts(stmts_v(stmts@).take(i as int)), occ_stmt(stmt_v(stmts@[i as int])), s);
        }
        i += 1;
    }
    assert(stmts_v(stmts@).take(stmts@.len() as int) =~= stmts_v(stmts@));
}

fn collect_arms(arms: &Vec<SwitchArm>, b: &mut IndexBuilder)
    ensures
        final(b).site == old(b).site,
        index_v(final(b).idx@) == index_fold(index_v(old(b).idx@), at_site(occ_arms(arms_v(arms@)), old(b).site)),
    decreases *arms,
{
    let ghost i0 = index_v(b.idx@);
    let ghost s = b.site;
    proof {
        lemma_at_site_call(Site::Body, None, None, Seq::empty(), s);
        assert(arms_v(arms@).take(0) =~= Seq::<ArmV>::empty());
    }
    let mut i: usize = 0;
    while i < arms.len()
        invariant
            0 <= i <= arms@.len(),
            b.site == s,
            index_v(b.idx@) == index_fold(i0, at_site(occ_arms(arms_v(arms@).take(i as int)), s)),
        decreases arms@.len() - i,
    {
        proof {
            vstd::std_specs::vec::axiom_vec_index_decreases(*arms, i as int);
            assert(decreases_to!(arms@[i as int] => arms@[i as int].body));
        }
        collect_stmts(&arms[i].body, b);
        proof {
            let t1 = arms_v(arms@).take(i + 1);
            assert(t1.drop_last() =~= arms_v(arms@).take(i as int));
            lemma_fold_at(i0, occ_arms(arms_v(arms@).take(i as int)), occ_stmts(stmts_v(arms@[i as int].body@)), s);
        }
        i += 1;
    }
    assert(arms_v(arms@).take(arms@.len() as int) =~= arms_v(arms@));
}

/// Index a tree body's runs, at the builder's site.
pub fn collect_body(stmts: &Vec<Stmt>, b: &mut IndexBuilder)
    ensures
        final(b).site == old(b).site,
        index_v(final(b).idx@) == index_fold(index_v(old(b).idx@), at_site(occ_stmts(stmts_v(stmts@)), old(b).site)),
{
    collect_stmts(stmts, b);
}

/// Index a call table's runs, at the builder's site.
pub fn collect_called(calls: &Vec<Call>, b: &mut IndexBuilder)
    ensures
        final(b).site == old(b).site,
        index_v(final(b).idx@) == index_fold(index_v(old(b).idx@), at_site(occ_calls(calls_v(calls@)), old(b).site)),
{
    let ghost i0 = index_v(b.idx@);
    let ghost s = b.site;
    proof {
        lemma_at_site_call(Site::Body, None, None, Seq::empty(), s);
        assert(calls_v(calls@).take(0) =~= Seq::<CallV>::empty());
    }
    let mut i: usize = 0;
    while i < calls.len()
        invariant
            0 <= i <= calls@.len(),
            b.site == s,
            index_v(b.idx@) == index_fold(i0, at_site(occ_calls(calls_v(calls@).take(i as int)), s)),
        decreases calls@.len() - i,
    {
        let cls = match &calls[i].kind {
            CallKind::Syscall(_, _) => classify_syscall_call(&calls[i].kind, calls[i].args.as_slice()),
            CallKind::Normal(name) => classify_named_call_call(name, calls[i].args.as_slice()),
            CallKind::Tailcall(_) => None,
        };
        index_run_call(cls, &calls[i].args, b);
        proof {
            let t1 = calls_v(calls@).take(i + 1);
            assert(t1.drop_last() =~= calls_v(calls@).take(i as int));
            let sh = shapes_of_args(call_args_v(calls@[i as int].args@));
            lemma_at_site_call(Site::Called, None, class_opt_v(cls), sh, s);
            lemma_fold_at(
                i0,
                occ_calls(calls_v(calls@).take(i as int)),
                occ_of_call(Site::Called, None, class_opt_v(cls), sh),
                s,
            );
        }
        i += 1;
    }
    assert(calls_v(calls@).take(calls@.len() as int) =~= calls_v(calls@));
}

/// Index a function's runs: its tree body's at `Site::Body`, then its call
/// table's at `Site::Called`.
pub fn build_index(f: &Function) -> (r: Index)
    ensures
        index_v(r@) == index_of_function(function_v(*f)),
{
    let mut b = IndexBuilder { idx: Vec::new(), site: Site::Body };
    assert(index_v(b.idx@) =~= Seq::<BucketV>::empty());
    if let Body::Tree(stmts) = &f.body {
        collect_body(stmts, &mut b);
    }
    let ghost mid = index_v(b.idx@);
    b.site = Site::Called;
    if let Called::Raw(calls) = &f.called {
        collect_called(calls, &mut b);
    }
    proof {
        let fv = function_v(*f);
        match fv.body {
            BodyV::Tree(st) => {
                lemma_sites_stmts(st);
                lemma_all_at_same(occ_stmts(st), Site::Body);
            },
            _ => {},
        }
        match fv.called {
            CalledV::Raw(c) => {
                lemma_sites_calls(c);
                lemma_all_at_same(occ_calls(c), Site::Called);
            },
            _ => {},
        }
        let body_occs = match fv.body {
            BodyV::Tree(s) => occ_stmts(s),
            _ => Seq::empty(),
        };
        let call_occs = match fv.called {
            CalledV::Raw(c) => occ_calls(c),
            _ => Seq::empty(),
        };
        lemma_index_fold_append(Seq::empty(), body_occs, call_occs);
    }
    b.idx
}


// ---------------------------------------------------------------- body substitution

/// Whether any recovered dialogue call carries a voice pair.
pub open spec fn any_voiced(ins: Seq<Option<VoiceInsert>>) -> bool {
    exists|i: int| 0 <= i < ins.len() && (#[trigger] ins[i]) is Some
}

/// `evo` with the other edition's body and call table in place of its own.
pub open spec fn adopted(evo: FunctionV, xseed: FunctionV) -> FunctionV {
    FunctionV { body: xseed.body, called: xseed.called, ..evo }
}

/// The statistics after one more body substitution.
pub open spec fn record_sub(stats: StatsV, name: Seq<char>, kind: Seq<char>, reinjected: usize) -> StatsV {
    StatsV {
        body_substitutions: sat_inc(stats.body_substitutions),
        voice_ids_reinjected: sat_add(stats.voice_ids_reinjected, reinjected),
        body_subs: stats.body_subs.push(
            BodySubV { function: name, evo_body_kind: kind, voice_ids_reinjected: reinjected },
        ),
        ..stats
    }
}

/// Body substitution. Only a body that is not a tree, paired with a tree,
/// is replaced. Bytecode whose dialogue calls all read back as literals
/// gives each call's voice pair: with a voiced call among them the tree is
/// adopted and the pairs put back, provided the tree has as many dialogue
/// calls (else nothing changes); with none, the tree is adopted as it is.
/// Otherwise the tree is adopted only when the call table carries no voice
/// ID.
pub open spec fn substitute_spec(name: Seq<char>, evo: FunctionV, xseed: FunctionV, stats: StatsV) -> (FunctionV, StatsV) {
    match xseed.body {
        BodyV::Tree(xs) => {
            let kind = body_kind_spec(evo.body);
            let inserts = match evo.body {
                BodyV::Asm(ops) => voice_ids_upto(ops, ops.len() as int),
                _ => None,
            };
            if evo.body is Tree {
                (evo, stats)
            } else {
                match inserts {
                    Some(ins) => if any_voiced(ins) {
                        if sat_nat(cd_stmts(xs)) != ins.len() {
                            (evo, stats)
                        } else {
                            let (body, st) = inj_stmts(xs, ins, InjectState { idx: 0, injected: 0 });
                            (
                                FunctionV { body: BodyV::Tree(body), ..adopted(evo, xseed) },
                                record_sub(stats, name, kind, st.injected),
                            )
                        }
                    } else {
                        (adopted(evo, xseed), record_sub(stats, name, kind, 0))
                    },
                    None => if !calls_have_voice_spec(evo.called) {
                        (adopted(evo, xseed), record_sub(stats, name, kind, 0))
                    } else {
                        (evo, stats)
                    },
                }
            }
        },
        _ => (evo, stats),
    }
}

/// Bytecode whose dialogue calls carry voice pairs is replaced by the other
/// edition's tree only when the tree has exactly as many dialogue calls as
/// were recovered from the bytecode. With more or with fewer the function
/// and the statistics stay as they were; with as many the function takes
/// the tree and the other edition's call table, and the substitution is
/// counted. (The tree's count of dialogue calls is taken to fit a `usize`.)
pub proof fn law_substitution_counts_match(
    name: Seq<char>,
    evo: FunctionV,
    xseed: FunctionV,
    stats: StatsV,
    ops: Seq<OpV>,
    xs: Seq<StmtV>,
    ins: Seq<Option<VoiceInsert>>,
)
    requires
        evo.body == BodyV::Asm(ops),
        xseed.body == BodyV::Tree(xs),
        voice_ids_upto(ops, ops.len() as int) == Some(ins),
        any_voiced(ins),
        cd_stmts(xs) <= usize::MAX,
    ensures
        cd_stmts(xs) != ins.len() ==> substitute_spec(name, evo, xseed, stats) == (evo, stats),
        cd_stmts(xs) == ins.len() ==> ({
            let (g, st) = substitute_spec(name, evo, xseed, stats);
            &&& g.body is Tree
            &&& g.called == xseed.called
            &&& st.body_substitutions == sat_inc(stats.body_substitutions)
            &&& st.body_subs.len() == stats.body_subs.len() + 1
            &&& st.body_subs.last().function == name
        }),
{
}

fn any_voiced_exec(ins: &Vec<Option<VoiceInsert>>) -> (r: bool)
    ensures
        r == any_voiced(ins@),
{
    let mut i: usize = 0;
    while i < ins.len()
        invariant
            0 <= i <= ins@.len(),
            forall|k: int| 0 <= k < i ==> (#[trigger] ins@[k]) is None,
        decreases ins@.len() - i,
    {
        if ins[i].is_some() {
            return true;
        }
        i += 1;
    }
    false
}

/// Give `evo` the other edition's body and call table, so that the two come
/// from the same source.
fn adopt_xseed_body(evo: &mut Function, xseed: &Function)
    ensures
        function_v(*final(evo)) == adopted(function_v(*old(evo)), function_v(*xseed)),
{
    evo.body = copy_body(&xseed.body);
    evo.called = copy_called(&xseed.called);
}

fn record(stats: &mut SwapStats, name: &str, kind: &'static str, reinjected: usize)
    ensures
        final(stats)@ == record_sub(old(stats)@, name@, kind@, reinjected),
{
    stats.body_substitutions = sat_inc_exec(stats.body_substitutions);
    stats.voice_ids_reinjected = sat_add_exec(stats.voice_ids_reinjected, reinjected);
    let entry = BodySubstitutionEntry {
        function: name.to_owned(),
        evo_body_kind: kind,
        voice_ids_reinjected: reinjected,
    };
    let ghost before = stats.body_subs@;
    stats.body_subs.push(entry);
    assert(stats@.body_subs =~= Seq::new(before.len(), |i: int| before[i]@).push(entry@));
}

/// Replace a body that could not be decompiled by the other edition's tree,
/// keeping this edition's voice cues (see [`substitute_spec`]).
pub fn substitute_body(name: &str, evo: &mut Function, xseed: &Function, stats: &mut SwapStats)
    ensures
        (function_v(*final(evo)), final(stats)@) == substitute_spec(
            name@,
            function_v(*old(evo)),
            function_v(*xseed),
            old(stats)@,
        ),
{
    let xs = match &xseed.body {
        Body::Tree(xs) => xs,
        _ => {
            return;
        },
    };
    let kind = body_kind(&evo.body);
    let inserts = match &evo.body {
        Body::Asm(ops) => extract_body_voice_ids(ops),
        Body::Flat(_) => None,
        Body::Tree(_) => {
            return;
        },
    };
    match inserts {
        Some(ins) => {
            if any_voiced_exec(&ins) {
                if count_dialogue_syscalls(xs) != ins.len() {
                    return;
                }
                adopt_xseed_body(evo, xseed);
                let reinjected = match &mut evo.body {
                    Body::Tree(stmts) => inject_voice_ids(stmts, &ins),
                    _ => 0,
                };
                record(stats, name, kind, reinjected);
            } else {
                adopt_xseed_body(evo, xseed);
                record(stats, name, kind, 0);
            }
        },
        None => {
            if !evo_calls_have_voice_ids(&evo.called) {
                adopt_xseed_body(evo, xseed);
                record(stats, name, kind, 0);
            }
        },
    }
}

// ---------------------------------------------------------------- the merge

/// The rewriting half of a merge: the function's tree body, then its call
/// table, handed to the visitor in state `st0`.
pub open spec fn rewrite_spec(f: FunctionV, st0: SwapStateV) -> (FunctionV, SwapStateV) {
    let (body2, st1) = match f.body {
        BodyV::Tree(s) => {
            let (s2, st) = rw_stmts::<SwapVisitor>(s, st0);
            (BodyV::Tree(s2), st)
        },
        _ => (f.body, st0),
    };
    let (called2, st2) = match f.called {
        CalledV::Raw(c) => {
            let (c2, st) = rw_calls::<SwapVisitor>(c, st1);
            (CalledV::Raw(c2), st)
        },
        _ => (f.called, st1),
    };
    (FunctionV { body: body2, called: called2, ..f }, st2)
}

/// One function's merge: body substitution first, then the indexed runs
/// laid over its tree body and then over its written-out call table, with
/// counters that start at zero.
pub open spec fn swap_function_spec(name: Seq<char>, evo: FunctionV, xseed: FunctionV, idx: Seq<BucketV>) -> (FunctionV, StatsV) {
    let (f1, s1) = substitute_spec(name, evo, xseed, stats_zero());
    let st0 = SwapStateV { function: name, index: idx, counters: Seq::empty(), stats: s1 };
    let (f2, st2) = rewrite_spec(f1, st0);
    (f2, st2.stats)
}

fn swap_function(name: &str, evo: &mut Function, xseed: &Function, index: Index) -> (r: SwapStats)
    ensures
        (function_v(*final(evo)), r@) == swap_function_spec(
            name@,
            function_v(*old(evo)),
            function_v(*xseed),
            index_v(index@),
        ),
{
    let mut visitor = SwapVisitor {
        function: name.to_owned(),
        index,
        counters: Vec::new(),
        stats: SwapStats::default(),
    };
    assert(counters_v(visitor.counters@) =~= Seq::<CounterV>::empty());
    substitute_body(name, evo, xseed, &mut visitor.stats);
    match &mut evo.body {
        Body::Tree(stmts) => rewrite_body(stmts, &mut visitor),
        _ => {},
    }
    match &mut evo.called {
        Called::Raw(calls) => rewrite_called(calls, &mut visitor),
        _ => {},
    }
    visitor.stats
}

/// The merge of a scene script, function by function in order: a function
/// the other edition also has (the first of that name) is merged against
/// it; any other is left as it is.
pub open spec fn swap_scena_spec(evo: Seq<(Seq<char>, FunctionV)>, xseed: Seq<(Seq<char>, FunctionV)>) -> (Seq<(Seq<char>, FunctionV)>, StatsV)
    decreases evo.len(),
{
    if evo.len() == 0 {
        (evo, stats_zero())
    } else {
        let (init, s) = swap_scena_spec(evo.drop_last(), xseed);
        let (n, f) = evo[evo.len() - 1];
        match find_fn_from(xseed, 0, n) {
            Some(j) => {
                let xf = xseed[j].1;
                let (f2, fs) = swap_function_spec(n, f, xf, index_of_function(xf));
                (init.push((n, f2)), merge_spec(s, fs))
            },
            None => (init.push((n, f)), s),
        }
    }
}

/// Merge the other edition's text into every function both scripts share.
pub fn swap_scena(evo: &mut Scena, xseed: &Scena) -> (r: SwapStats)
    ensures
        (scena_v(*final(evo)).functions, r@) == swap_scena_spec(
            scena_v(*old(evo)).functions,
            scena_v(*xseed).functions,
        ),
{
    let ghost ev0 = scena_v(*evo).functions;
    let ghost xv = scena_v(*xseed).functions;
    let mut stats = SwapStats::default();
    let mut i: usize = 0;
    while i < evo.functions.len()
        invariant
            evo.functions@.len() == old(evo).functions@.len(),
            0 <= i <= evo.functions@.len(),
            ev0 == scena_v(*old(evo)).functions,
            xv == scena_v(*xseed).functions,
            forall|k: int| i <= k < evo.functions@.len() ==> #[trigger] evo.functions@[k] == old(evo).functions@[k],
            (scena_v(*evo).functions.take(i as int), stats@) == swap_scena_spec(ev0.take(i as int), xv),
        decreases evo.functions@.len() - i,
    {
        let ghost prev = scena_v(*evo).functions;
        let name = evo.functions[i].0.clone();
        proof {
            let t1 = ev0.take(i + 1);
            assert(t1.drop_last() =~= ev0.take(i as int));
            assert(t1[i as int] == ev0[i as int]);
        }
        match find_fn_exec(&xseed.functions, &name) {
            Some(j) => {
                let index = build_index(&xseed.functions[j].1);
                let fs = swap_function(name.as_str(), &mut evo.functions[i].1, &xseed.functions[j].1, index);
                stats.merge(fs);
            },
            None => {},
        }
        proof {
            assert(scena_v(*evo).functions.take(i + 1) =~= prev.take(i as int).push(
                scena_v(*evo).functions[i as int],
            ));
        }
        i += 1;
    }
    assert(scena_v(*evo).functions.take(i as int) =~= scena_v(*evo).functions);
    assert(ev0.take(i as int) =~= ev0);
    stats
}

} // verus!
