//! The localization-delta check: a merge must apply exactly the other
//! edition's text changes and nothing else. For every localizable call the
//! merged text differs from this edition's text exactly when the other
//! edition differs from the shared original, and where it differs it is the
//! other edition's text.
//!
//! All four scripts (this edition, the merged result, the other edition and
//! the original) are indexed the way the merge indexes them, so that the
//! occurrences compared are the ones the merge paired. A call-table bucket
//! resolves against the other edition's body bucket of the same key, as the
//! merge does.

use vstd::prelude::*;
use crate::anchor::{AnchorKey, AnchorKeyV, copy_key};
use crate::ast::{Body, Function, FunctionV, BodyV, Scena, copy_scena, find_fn_from, function_v, scena_v};
use crate::swap::{
    Bucket, BucketV, Index, build_index, find_bucket, find_bucket_exec, index_of_function,
    index_v, lookup_nonempty, lookup_nonempty_exec, runs_v, sat_add, sat_add_exec, sat_inc, sat_inc_exec,
    swap_scena, swap_scena_spec,
};
use crate::text_run::{TextRun, run_v};
use crate::voice::{body_kind, body_kind_spec};
use crate::walker::{Site, run_eq};

verus! {

/// What a violation breaks.
#[derive(Debug, Clone, Copy, PartialEq, Eq, Structural)]
pub enum ViolationKind {
    /// The merged text is not the other edition's run the merge applied.
    Content,
    /// This edition's text differs from the original's on a matched anchor:
    /// it does not ship the original text verbatim there.
    Overlay,
    /// The merge changed an occurrence the other edition left as in the
    /// original, or left alone one the other edition changed.
    Delta,
}

/// One broken occurrence.
#[derive(Debug, Clone)]
pub struct Violation {
    pub function: String,
    pub site: Site,
    pub key: AnchorKey,
    pub occurrence: usize,
    pub kind: ViolationKind,
}

/// Changes to a bucket that has no counterpart in the other edition: an
/// anchor this edition upgraded, which the merge reached through a
/// fallback. Not a violation.
#[derive(Debug, Clone)]
pub struct UpgradeExemption {
    pub function: String,
    pub site: Site,
    pub key: AnchorKey,
    pub occurrences: usize,
}

/// A function whose body is not a tree here, skipped by the check.
#[derive(Debug, Clone)]
pub struct BodySubExemption {
    pub function: String,
    pub evo_body_kind: &'static str,
}

/// The outcome of the check.
#[derive(Debug, Clone)]
pub struct DeltaReport {
    /// Functions present in all three inputs whose body here is a tree.
    pub functions_checked: usize,
    /// Localizable occurrences inspected in those functions.
    pub occurrences_checked: usize,
    /// Occurrences the merge changed.
    pub localized: usize,
    pub violations: Vec<Violation>,
    pub upgrades: Vec<UpgradeExemption>,
    pub body_subs: Vec<BodySubExemption>,
    /// Functions both editions have but the original lacks.
    pub missing_original: Vec<String>,
}

pub type RunV = Seq<Seq<char>>;

pub struct ViolationV {
    pub function: Seq<char>,
    pub site: Site,
    pub key: AnchorKeyV,
    pub occurrence: usize,
    pub kind: ViolationKind,
}

pub struct UpgradeV {
    pub function: Seq<char>,
    pub site: Site,
    pub key: AnchorKeyV,
    pub occurrences: usize,
}

pub struct BodySubExV {
    pub function: Seq<char>,
    pub evo_body_kind: Seq<char>,
}

pub struct ReportV {
    pub functions_checked: usize,
    pub occurrences_checked: usize,
    pub localized: usize,
    pub violations: Seq<ViolationV>,
    pub upgrades: Seq<UpgradeV>,
    pub body_subs: Seq<BodySubExV>,
    pub missing_original: Seq<Seq<char>>,
}

impl View for Violation {
    type V = ViolationV;

    open spec fn view(&self) -> ViolationV {
        ViolationV {
            function: self.function@,
            site: self.site,
            key: self.key@,
            occurrence: self.occurrence,
            kind: self.kind,
        }
    }
}

impl View for UpgradeExemption {
    type V = UpgradeV;

    open spec fn view(&self) -> UpgradeV {
        UpgradeV { function: self.function@, site: self.site, key: self.key@, occurrences: self.occurrences }
    }
}

impl View for BodySubExemption {
    type V = BodySubExV;

    open spec fn view(&self) -> BodySubExV {
        BodySubExV { function: self.function@, evo_body_kind: self.evo_body_kind@ }
    }
}

impl View for DeltaReport {
    type V = ReportV;

    open spec fn view(&self) -> ReportV {
        ReportV {
            functions_checked: self.functions_checked,
            occurrences_checked: self.occurrences_checked,
            localized: self.localized,
            violations: Seq::new(self.violations@.len(), |i: int| self.violations@[i]@),
            upgrades: Seq::new(self.upgrades@.len(), |i: int| self.upgrades@[i]@),
            body_subs: Seq::new(self.body_subs@.len(), |i: int| self.body_subs@[i]@),
            missing_original: Seq::new(self.missing_original@.len(), |i: int| self.missing_original@[i]@),
        }
    }
}

/// The report of a check that saw nothing.
pub open spec fn report_zero() -> ReportV {
    ReportV {
        functions_checked: 0,
        occurrences_checked: 0,
        localized: 0,
        violations: Seq::empty(),
        upgrades: Seq::empty(),
        body_subs: Seq::empty(),
        missing_original: Seq::empty(),
    }
}

impl Default for DeltaReport {
    fn default() -> (r: Self)
        ensures
            r@ == report_zero(),
    {
        let r = DeltaReport {
            functions_checked: 0,
            occurrences_checked: 0,
            localized: 0,
            violations: Vec::new(),
            upgrades: Vec::new(),
            body_subs: Vec::new(),
            missing_original: Vec::new(),
        };
        assert(r@.violations =~= Seq::<ViolationV>::empty());
        assert(r@.upgrades =~= Seq::<UpgradeV>::empty());
        assert(r@.body_subs =~= Seq::<BodySubExV>::empty());
        assert(r@.missing_original =~= Seq::<Seq<char>>::empty());
        r
    }
}

// ---------------------------------------------------------------- the rules

/// The `i`-th run, if there is one.
pub open spec fn opt_run(runs: Seq<RunV>, i: int) -> Option<RunV> {
    if 0 <= i < runs.len() {
        Some(runs[i])
    } else {
        None
    }
}

pub open spec fn add_violation(r: ReportV, name: Seq<char>, site: Site, key: AnchorKeyV, i: int, kind: ViolationKind) -> ReportV {
    ReportV {
        violations: r.violations.push(
            ViolationV { function: name, site, key, occurrence: i as usize, kind },
        ),
        ..r
    }
}

/// The other edition's bucket for this edition's bucket `(site, key)`: its
/// own, or for a call-table bucket the body bucket of the same key; with
/// the site it was found at.
pub open spec fn resolve_spec(idx: Seq<BucketV>, site: Site, key: AnchorKeyV) -> Option<(Site, Seq<RunV>)> {
    match lookup_nonempty(idx, site, key) {
        Some(runs) => Some((site, runs)),
        None => if site == Site::Called {
            match lookup_nonempty(idx, Site::Body, key) {
                Some(runs) => Some((Site::Body, runs)),
                None => None,
            }
        } else {
            None
        },
    }
}

/// The check of occurrence `i` of a bucket with a counterpart. It is paired
/// with the counterpart's `i`-th run (its last once used up), and with the
/// original's run at the same position when there is one.
pub open spec fn check_occurrence(
    r: ReportV,
    name: Seq<char>,
    site: Site,
    key: AnchorKeyV,
    i: int,
    evo_i: RunV,
    out: Seq<RunV>,
    xruns: Seq<RunV>,
    orig: Option<Seq<RunV>>,
) -> ReportV {
    let j = if i < xruns.len() {
        i
    } else {
        xruns.len() - 1
    };
    let xj = xruns[j];
    let out_i = opt_run(out, i);
    let r1 = ReportV { occurrences_checked: sat_inc(r.occurrences_checked), ..r };
    let r2 = if out_i != Some(xj) {
        add_violation(r1, name, site, key, i, ViolationKind::Content)
    } else {
        r1
    };
    let changed = out_i != Some(evo_i);
    let r3 = if changed {
        ReportV { localized: sat_inc(r2.localized), ..r2 }
    } else {
        r2
    };
    match orig {
        Some(o) => if j < o.len() {
            let oj = o[j];
            let r4 = if evo_i != oj {
                add_violation(r3, name, site, key, i, ViolationKind::Overlay)
            } else {
                r3
            };
            if changed != (xj != oj) {
                add_violation(r4, name, site, key, i, ViolationKind::Delta)
            } else {
                r4
            }
        } else {
            r3
        },
        None => r3,
    }
}

/// The first `n` occurrences of a bucket with a counterpart, checked in
/// order.
pub open spec fn check_matched(
    r: ReportV,
    name: Seq<char>,
    site: Site,
    key: AnchorKeyV,
    evo: Seq<RunV>,
    out: Seq<RunV>,
    xruns: Seq<RunV>,
    orig: Option<Seq<RunV>>,
    n: int,
) -> ReportV
    decreases n,
{
    if n <= 0 {
        r
    } else {
        check_occurrence(
            check_matched(r, name, site, key, evo, out, xruns, orig, n - 1),
            name,
            site,
            key,
            n - 1,
            evo[n - 1],
            out,
            xruns,
            orig,
        )
    }
}

/// Occurrences seen and occurrences changed among the first `n` of a
/// bucket without a counterpart, counted from `(occ, changed)`.
pub open spec fn count_unmatched(occ: usize, changed: usize, evo: Seq<RunV>, out: Seq<RunV>, n: int) -> (usize, usize)
    decreases n,
{
    if n <= 0 {
        (occ, changed)
    } else {
        let (o, c) = count_unmatched(occ, changed, evo, out, n - 1);
        (sat_inc(o), if opt_run(out, n - 1) != Some(evo[n - 1]) {
            sat_inc(c)
        } else {
            c
        })
    }
}

/// The check of one of this edition's buckets. A bucket the merged script
/// lacks is skipped. One with a counterpart is checked occurrence by
/// occurrence; the changes to one without are recorded as an upgrade.
pub open spec fn check_bucket(
    r: ReportV,
    name: Seq<char>,
    b: BucketV,
    mi: Seq<BucketV>,
    xi: Seq<BucketV>,
    oi: Seq<BucketV>,
) -> ReportV {
    match find_bucket(mi, b.site, b.key) {
        None => r,
        Some(m) => {
            let out = mi[m].runs;
            match resolve_spec(xi, b.site, b.key) {
                Some((rs, xruns)) => {
                    let orig = match find_bucket(oi, rs, b.key) {
                        Some(k) => Some(oi[k].runs),
                        None => None,
                    };
                    check_matched(r, name, b.site, b.key, b.runs, out, xruns, orig, b.runs.len() as int)
                },
                None => {
                    let (occ, ch) = count_unmatched(r.occurrences_checked, 0, b.runs, out, b.runs.len() as int);
                    let r1 = ReportV { occurrences_checked: occ, ..r };
                    if ch > 0 {
                        ReportV {
                            localized: sat_add(r1.localized, ch),
                            upgrades: r1.upgrades.push(
                                UpgradeV { function: name, site: b.site, key: b.key, occurrences: ch },
                            ),
                            ..r1
                        }
                    } else {
                        r1
                    }
                },
            }
        },
    }
}

/// The first `n` buckets of this edition's index, checked in order.
pub open spec fn check_buckets(
    r: ReportV,
    name: Seq<char>,
    ei: Seq<BucketV>,
    mi: Seq<BucketV>,
    xi: Seq<BucketV>,
    oi: Seq<BucketV>,
    n: int,
) -> ReportV
    decreases n,
{
    if n <= 0 {
        r
    } else {
        check_bucket(check_buckets(r, name, ei, mi, xi, oi, n - 1), name, ei[n - 1], mi, xi, oi)
    }
}

/// The check of one function, bucket by bucket over this edition's index.
pub open spec fn verify_function_spec(
    r: ReportV,
    name: Seq<char>,
    evo: FunctionV,
    merged: FunctionV,
    xseed: FunctionV,
    orig: FunctionV,
) -> ReportV {
    let ei = index_of_function(evo);
    check_buckets(
        r,
        name,
        ei,
        index_of_function(merged),
        index_of_function(xseed),
        index_of_function(orig),
        ei.len() as int,
    )
}

/// The check of one function of this edition. One the other edition or
/// the merged script lacks is skipped; one whose body is not a tree is
/// recorded as a body substitution; one the original lacks is recorded as
/// missing; any other is counted and checked.
pub open spec fn verify_step(
    r: ReportV,
    name: Seq<char>,
    ef: FunctionV,
    xs: Seq<(Seq<char>, FunctionV)>,
    ms: Seq<(Seq<char>, FunctionV)>,
    os: Seq<(Seq<char>, FunctionV)>,
) -> ReportV {
    match (find_fn_from(xs, 0, name), find_fn_from(ms, 0, name)) {
        (Some(xj), Some(mj)) => if !(ef.body is Tree) {
            ReportV {
                body_subs: r.body_subs.push(BodySubExV { function: name, evo_body_kind: body_kind_spec(ef.body) }),
                ..r
            }
        } else {
            match find_fn_from(os, 0, name) {
                None => ReportV { missing_original: r.missing_original.push(name), ..r },
                Some(oj) => verify_function_spec(
                    ReportV { functions_checked: sat_inc(r.functions_checked), ..r },
                    name,
                    ef,
                    ms[mj].1,
                    xs[xj].1,
                    os[oj].1,
                ),
            }
        },
        _ => r,
    }
}

/// The first `n` functions of this edition, checked in order.
pub open spec fn verify_fold(
    r: ReportV,
    evo: Seq<(Seq<char>, FunctionV)>,
    xs: Seq<(Seq<char>, FunctionV)>,
    ms: Seq<(Seq<char>, FunctionV)>,
    os: Seq<(Seq<char>, FunctionV)>,
    n: int,
) -> ReportV
    decreases n,
{
    if n <= 0 {
        r
    } else {
        verify_step(verify_fold(r, evo, xs, ms, os, n - 1), evo[n - 1].0, evo[n - 1].1, xs, ms, os)
    }
}

/// The check of a whole merge: this edition is merged with the other, and
/// each of its functions checked against the merged result.
pub open spec fn verify_scena_spec(
    evo: Seq<(Seq<char>, FunctionV)>,
    xs: Seq<(Seq<char>, FunctionV)>,
    os: Seq<(Seq<char>, FunctionV)>,
) -> ReportV {
    let ms = swap_scena_spec(evo, xs).0;
    verify_fold(report_zero(), evo, xs, ms, os, evo.len() as int)
}

// ---------------------------------------------------------------- what it reports

/// A check of one occurrence only adds violations: those already found stay.
proof fn lemma_occurrence_keeps(
    r: ReportV,
    name: Seq<char>,
    site: Site,
    key: AnchorKeyV,
    i: int,
    evo_i: RunV,
    out: Seq<RunV>,
    xruns: Seq<RunV>,
    orig: Option<Seq<RunV>>,
)
    ensures
        r.violations.len() <= check_occurrence(r, name, site, key, i, evo_i, out, xruns, orig).violations.len(),
        forall|k: int|
            0 <= k < r.violations.len() ==> #[trigger] check_occurrence(
                r,
                name,
                site,
                key,
                i,
                evo_i,
                out,
                xruns,
                orig,
            ).violations[k] == r.violations[k],
{
}

/// Checking more occurrences of a bucket keeps the violations found in
/// the first ones.
proof fn lemma_matched_keeps(
    r: ReportV,
    name: Seq<char>,
    site: Site,
    key: AnchorKeyV,
    evo: Seq<RunV>,
    out: Seq<RunV>,
    xruns: Seq<RunV>,
    orig: Option<Seq<RunV>>,
    m: int,
    n: int,
)
    requires
        0 <= m <= n,
    ensures
        ({
            let a = check_matched(r, name, site, key, evo, out, xruns, orig, m).violations;
            let b = check_matched(r, name, site, key, evo, out, xruns, orig, n).violations;
            &&& a.len() <= b.len()
            &&& forall|k: int| 0 <= k < a.len() ==> #[trigger] b[k] == a[k]
        }),
    decreases n,
{
    if m < n {
        lemma_matched_keeps(r, name, site, key, evo, out, xruns, orig, m, n - 1);
        lemma_occurrence_keeps(
            check_matched(r, name, site, key, evo, out, xruns, orig, n - 1),
            name,
            site,
            key,
            n - 1,
            evo[n - 1],
            out,
            xruns,
            orig,
        );
    }
}

/// A call-table bucket of this edition that the other edition resolves to
/// its body bucket of the same key is held against the original's body
/// bucket of that key: where this edition's run at some position differs
/// from the original's run at the same position, the check reports an
/// overlay violation for that occurrence.
pub proof fn law_resolved_bucket_overlay(
    r: ReportV,
    name: Seq<char>,
    b: BucketV,
    mi: Seq<BucketV>,
    xi: Seq<BucketV>,
    oi: Seq<BucketV>,
    xruns: Seq<RunV>,
    orig: Seq<RunV>,
    i: int,
)
    requires
        b.site == Site::Called,
        find_bucket(mi, Site::Called, b.key) is Some,
        lookup_nonempty(xi, Site::Called, b.key) is None,
        lookup_nonempty(xi, Site::Body, b.key) == Some(xruns),
        lookup_nonempty(oi, Site::Body, b.key) == Some(orig),
        0 <= i < b.runs.len(),
        i < xruns.len(),
        i < orig.len(),
        b.runs[i] != orig[i],
    ensures
        check_bucket(r, name, b, mi, xi, oi).violations.contains(
            ViolationV { function: name, site: Site::Called, key: b.key, occurrence: i as usize, kind: ViolationKind::Overlay },
        ),
{
    let m = find_bucket(mi, Site::Called, b.key)->0;
    let out = mi[m].runs;
    let o = Some(orig);
    assert(resolve_spec(xi, b.site, b.key) == Some((Site::Body, xruns)));
    let n = b.runs.len() as int;
    let before = check_matched(r, name, b.site, b.key, b.runs, out, xruns, o, i);
    let after = check_matched(r, name, b.site, b.key, b.runs, out, xruns, o, i + 1);
    assert(after == check_occurrence(before, name, b.site, b.key, i, b.runs[i], out, xruns, o));
    let v = ViolationV { function: name, site: Site::Called, key: b.key, occurrence: i as usize, kind: ViolationKind::Overlay };
    // the overlay is pushed right after the violations found so far
    let p = {
        let r1 = ReportV { occurrences_checked: sat_inc(before.occurrences_checked), ..before };
        let xj = xruns[i];
        let out_i = opt_run(out, i);
        let r2 = if out_i != Some(xj) {
            add_violation(r1, name, b.site, b.key, i, ViolationKind::Content)
        } else {
            r1
        };
        r2.violations.len() as int
    };
    assert(after.violations[p] == v);
    lemma_matched_keeps(r, name, b.site, b.key, b.runs, out, xruns, o, i + 1, n);
    let fin = check_matched(r, name, b.site, b.key, b.runs, out, xruns, o, n);
    assert(check_bucket(r, name, b, mi, xi, oi) == fin);
    assert(fin.violations[p] == v);
}

/// The same resolved call-table bucket is held against the original's body
/// bucket for the delta too: where the merge changed an occurrence although
/// the other edition's run there equals the original's, or left it alone
/// although they differ, the check reports a delta violation.
pub proof fn law_resolved_bucket_delta(
    r: ReportV,
    name: Seq<char>,
    b: BucketV,
    mi: Seq<BucketV>,
    xi: Seq<BucketV>,
    oi: Seq<BucketV>,
    xruns: Seq<RunV>,
    orig: Seq<RunV>,
    i: int,
)
    requires
        b.site == Site::Called,
        find_bucket(mi, Site::Called, b.key) is Some,
        lookup_nonempty(xi, Site::Called, b.key) is None,
        lookup_nonempty(xi, Site::Body, b.key) == Some(xruns),
        lookup_nonempty(oi, Site::Body, b.key) == Some(orig),
        0 <= i < b.runs.len(),
        i < xruns.len(),
        i < orig.len(),
        (opt_run(mi[find_bucket(mi, Site::Called, b.key)->0].runs, i) != Some(b.runs[i])) != (xruns[i] != orig[i]),
    ensures
        check_bucket(r, name, b, mi, xi, oi).violations.contains(
            ViolationV { function: name, site: Site::Called, key: b.key, occurrence: i as usize, kind: ViolationKind::Delta },
        ),
{
    let m = find_bucket(mi, Site::Called, b.key)->0;
    let out = mi[m].runs;
    let o = Some(orig);
    assert(resolve_spec(xi, b.site, b.key) == Some((Site::Body, xruns)));
    let n = b.runs.len() as int;
    let before = check_matched(r, name, b.site, b.key, b.runs, out, xruns, o, i);
    let after = check_matched(r, name, b.site, b.key, b.runs, out, xruns, o, i + 1);
    assert(after == check_occurrence(before, name, b.site, b.key, i, b.runs[i], out, xruns, o));
    let v = ViolationV { function: name, site: Site::Called, key: b.key, occurrence: i as usize, kind: ViolationKind::Delta };
    // the delta is the last violation the occurrence adds
    let p = after.violations.len() - 1;
    assert(after.violations[p] == v);
    lemma_matched_keeps(r, name, b.site, b.key, b.runs, out, xruns, o, i + 1, n);
    let fin = check_matched(r, name, b.site, b.key, b.runs, out, xruns, o, n);
    assert(check_bucket(r, name, b, mi, xi, oi) == fin);
    assert(fin.violations[p] == v);
}

// ---------------------------------------------------------------- the check

fn add_violation_exec(report: &mut DeltaReport, name: &str, site: Site, key: &AnchorKey, i: usize, kind: ViolationKind)
    ensures
        final(report)@ == add_violation(old(report)@, name@, site, key@, i as int, kind),
{
    let v = Violation { function: name.to_owned(), site, key: copy_key(key), occurrence: i, kind };
    let ghost before = report.violations@;
    report.violations.push(v);
    assert(report@.violations =~= Seq::new(before.len(), |k: int| before[k]@).push(v@));
}

/// Find the other edition's bucket for `(site, key)` (see [`resolve_spec`]).
fn resolve(idx: &Vec<Bucket>, site: Site, key: &AnchorKey) -> (r: Option<(Site, usize)>)
    ensures
        match r {
            Some((s, b)) => b < idx@.len() && idx@[b as int].runs@.len() > 0 && resolve_spec(
                index_v(idx@),
                site,
                key@,
            ) == Some((s, runs_v(idx@[b as int].runs@))),
            None => resolve_spec(index_v(idx@), site, key@) is None,
        },
{
    if let Some(b) = lookup_nonempty_exec(idx, site, key) {
        return Some((site, b));
    }
    if site == Site::Called {
        if let Some(b) = lookup_nonempty_exec(idx, Site::Body, key) {
            return Some((Site::Body, b));
        }
    }
    None
}

/// Whether the `i`-th run of `out` is missing or differs from `r`.
fn run_differs(out: &Vec<TextRun>, i: usize, r: &TextRun) -> (d: bool)
    ensures
        d == (opt_run(runs_v(out@), i as int) != Some(run_v(r@))),
{
    if i < out.len() {
        !run_eq(&out[i], r)
    } else {
        true
    }
}

pub open spec fn orig_v(orig: Option<&Vec<TextRun>>) -> Option<Seq<RunV>> {
    match orig {
        Some(o) => Some(runs_v(o@)),
        None => None,
    }
}

fn check_occurrence_exec(
    report: &mut DeltaReport,
    name: &str,
    site: Site,
    key: &AnchorKey,
    i: usize,
    evo_i: &TextRun,
    out: &Vec<TextRun>,
    xruns: &Vec<TextRun>,
    orig: Option<&Vec<TextRun>>,
)
    requires
        xruns@.len() > 0,
    ensures
        final(report)@ == check_occurrence(
            old(report)@,
            name@,
            site,
            key@,
            i as int,
            run_v(evo_i@),
            runs_v(out@),
            runs_v(xruns@),
            orig_v(orig),
        ),
{
    let j = if i < xruns.len() {
        i
    } else {
        xruns.len() - 1
    };
    let xj = &xruns[j];
    report.occurrences_checked = sat_inc_exec(report.occurrences_checked);
    if run_differs(out, i, xj) {
        add_violation_exec(report, name, site, key, i, ViolationKind::Content);
    }
    let changed = run_differs(out, i, evo_i);
    if changed {
        report.localized = sat_inc_exec(report.localized);
    }
    if let Some(o) = orig {
        if j < o.len() {
            let oj = &o[j];
            if !run_eq(evo_i, oj) {
                add_violation_exec(report, name, site, key, i, ViolationKind::Overlay);
            }
            let localized = !run_eq(xj, oj);
            if changed != localized {
                add_violation_exec(report, name, site, key, i, ViolationKind::Delta);
            }
        }
    }
}

fn check_bucket_exec(
    report: &mut DeltaReport,
    name: &str,
    b: &Bucket,
    mi: &Vec<Bucket>,
    xi: &Vec<Bucket>,
    oi: &Vec<Bucket>,
)
    ensures
        final(report)@ == check_bucket(
            old(report)@,
            name@,
            crate::swap::bucket_v(*b),
            index_v(mi@),
            index_v(xi@),
            index_v(oi@),
        ),
{
    let m = match find_bucket_exec(mi, b.site, &b.key) {
        Some(m) => m,
        None => {
            return;
        },
    };
    let out = &mi[m].runs;
    let ghost r0 = report@;
    let ghost ev = runs_v(b.runs@);
    let ghost outv = runs_v(out@);
    match resolve(xi, b.site, &b.key) {
        Some((rs, xb)) => {
            let xruns = &xi[xb].runs;
            let orig = match find_bucket_exec(oi, rs, &b.key) {
                Some(k) => Some(&oi[k].runs),
                None => None,
            };
            let mut i: usize = 0;
            while i < b.runs.len()
                invariant
                    0 <= i <= b.runs@.len(),
                    xruns@.len() > 0,
                    ev == runs_v(b.runs@),
                    outv == runs_v(out@),
                    report@ == check_matched(
                        r0,
                        name@,
                        b.site,
                        b.key@,
                        ev,
                        outv,
                        runs_v(xruns@),
                        orig_v(orig),
                        i as int,
                    ),
                decreases b.runs@.len() - i,
            {
                check_occurrence_exec(report, name, b.site, &b.key, i, &b.runs[i], out, xruns, orig);
                i += 1;
            }
        },
        None => {
            let mut occ = report.occurrences_checked;
            let mut ch: usize = 0;
            let mut i: usize = 0;
            while i < b.runs.len()
                invariant
                    0 <= i <= b.runs@.len(),
                    ev == runs_v(b.runs@),
                    outv == runs_v(out@),
                    (occ, ch) == count_unmatched(r0.occurrences_checked, 0, ev, outv, i as int),
                decreases b.runs@.len() - i,
            {
                occ = sat_inc_exec(occ);
                if run_differs(out, i, &b.runs[i]) {
                    ch = sat_inc_exec(ch);
                }
                i += 1;
            }
            report.occurrences_checked = occ;
            if ch > 0 {
                report.localized = sat_add_exec(report.localized, ch);
                let u = UpgradeExemption { function: name.to_owned(), site: b.site, key: copy_key(&b.key), occurrences: ch };
                let ghost before = report.upgrades@;
                report.upgrades.push(u);
                assert(report@.upgrades =~= Seq::new(before.len(), |k: int| before[k]@).push(u@));
            }
        },
    }
}

fn verify_function(
    name: &str,
    evo_fn: &Function,
    merged_fn: &Function,
    xseed_fn: &Function,
    orig_fn: &Function,
    report: &mut DeltaReport,
)
    ensures
        final(report)@ == verify_function_spec(
            old(report)@,
            name@,
            function_v(*evo_fn),
            function_v(*merged_fn),
            function_v(*xseed_fn),
            function_v(*orig_fn),
        ),
{
    let idx_evo = build_index(evo_fn);
    let idx_merged = build_index(merged_fn);
    let idx_xseed = build_index(xseed_fn);
    let idx_orig = build_index(orig_fn);
    let ghost r0 = report@;
    let ghost ei = index_v(idx_evo@);
    let mut k: usize = 0;
    while k < idx_evo.len()
        invariant
            0 <= k <= idx_evo@.len(),
            ei == index_v(idx_evo@),
            report@ == check_buckets(
                r0,
                name@,
                ei,
                index_v(idx_merged@),
                index_v(idx_xseed@),
                index_v(idx_orig@),
                k as int,
            ),
        decreases idx_evo@.len() - k,
    {
        check_bucket_exec(report, name, &idx_evo[k], &idx_merged, &idx_xseed, &idx_orig);
        k += 1;
    }
}

/// Check that merging `evo` with `xseed` applies exactly the other
/// edition's changes against `original`. A clean merge gives no
/// violations; the exemption lists may still be filled.
pub fn verify_scena(evo: &Scena, xseed: &Scena, original: &Scena) -> (r: DeltaReport)
    ensures
        r@ == verify_scena_spec(scena_v(*evo).functions, scena_v(*xseed).functions, scena_v(*original).functions),
{
    let ghost ev = scena_v(*evo).functions;
    let ghost xv = scena_v(*xseed).functions;
    let ghost ov = scena_v(*original).functions;
    let mut merged = copy_scena(evo);
    let _ = swap_scena(&mut merged, xseed);
    let ghost ms = scena_v(merged).functions;
    let mut report = DeltaReport::default();
    let mut i: usize = 0;
    while i < evo.functions.len()
        invariant
            0 <= i <= evo.functions@.len(),
            ev == scena_v(*evo).functions,
            xv == scena_v(*xseed).functions,
            ov == scena_v(*original).functions,
            ms == scena_v(merged).functions,
            report@ == verify_fold(report_zero(), ev, xv, ms, ov, i as int),
        decreases evo.functions@.len() - i,
    {
        let name = &evo.functions[i].0;
        let evo_fn = &evo.functions[i].1;
        let xj = crate::ast::find_fn_exec(&xseed.functions, name);
        let mj = crate::ast::find_fn_exec(&merged.functions, name);
        if let (Some(xj), Some(mj)) = (xj, mj) {
            let is_tree = match &evo_fn.body {
                Body::Tree(_) => true,
                _ => false,
            };
            if !is_tree {
                let e = BodySubExemption { function: name.clone(), evo_body_kind: body_kind(&evo_fn.body) };
                let ghost before = report.body_subs@;
                report.body_subs.push(e);
                assert(report@.body_subs =~= Seq::new(before.len(), |k: int| before[k]@).push(e@));
            } else {
                match crate::ast::find_fn_exec(&original.functions, name) {
                    None => {
                        let ghost before = report.missing_original@;
                        report.missing_original.push(name.clone());
                        assert(report@.missing_original =~= Seq::new(before.len(), |k: int| before[k]@).push(
                            name@,
                        ));
                    },
                    Some(oj) => {
                        report.functions_checked = sat_inc_exec(report.functions_checked);
                        verify_function(
                            name.as_str(),
                            evo_fn,
                            &merged.functions[mj].1,
                            &xseed.functions[xj].1,
                            &original.functions[oj].1,
                            &mut report,
                        );
                    },
                }
            }
        }
        i += 1;
    }
    report
}

} // verus!
