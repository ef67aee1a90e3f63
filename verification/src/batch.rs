//! Running over a tree of scripts: the merge's totals gathered file by
//! file, with each audit entry tagged by its file, and the console lines
//! that report a file and the whole run.

use vstd::prelude::*;
use crate::audit::{
    body_sub_rows_v, digits, fmt_key_plain, fmt_site, key_text, overflow_rows_v, push_digits, site_text,
    unmatched_rows_v,
};
use crate::coverage::{CompareReport, CompareReportV};
use crate::voice::sat_nat;
use crate::verify::{BodySubExV, BodySubExemption, DeltaReport, ReportV, UpgradeExemption, UpgradeV};
use crate::swap::{
    BodySubV, BodySubstitutionEntry, OverflowEntry, OverflowV, StatsV, SwapStats, UnmatchedEntry, UnmatchedV,
    merge_spec, sat_add, sat_add_exec, sat_inc, sat_inc_exec, stats_zero,
};

verus! {

/// Move every item of `src`, in order, to the end of `dst`, each tagged
/// with the file name `rel`.
fn tag_entries<T>(rel: &str, src: Vec<T>, dst: &mut Vec<(String, T)>)
    ensures
        final(dst)@.len() == old(dst)@.len() + src@.len(),
        forall|i: int| 0 <= i < old(dst)@.len() ==> #[trigger] final(dst)@[i] == old(dst)@[i],
        forall|j: int|
            0 <= j < src@.len() ==> (#[trigger] final(dst)@[old(dst)@.len() + j]).0@ == rel@
                && final(dst)@[old(dst)@.len() + j].1 == src@[j],
{
    let ghost s0 = src@;
    let ghost d0 = dst@;
    let mut src = src;
    let n: usize = src.len();
    let mut k: usize = 0;
    while src.len() > 0
        invariant
            n == s0.len(),
            k <= s0.len(),
            src@ == s0.subrange(k as int, s0.len() as int),
            dst@.len() == d0.len() + k,
            forall|i: int| 0 <= i < d0.len() ==> #[trigger] dst@[i] == d0[i],
            forall|j: int| 0 <= j < k ==> (#[trigger] dst@[d0.len() + j]).0@ == rel@ && dst@[d0.len() + j].1 == s0[j],
        decreases src@.len(),
    {
        assert(src@.len() == s0.len() - k);
        let x = src.remove(0);
        dst.push((rel.to_owned(), x));
        k = k + 1;
    }
}

/// The totals of a merge over a tree of scripts.
pub struct MergeBatch {
    /// The merged statistics' counts (their entries are kept below).
    pub total: SwapStats,
    pub files_processed: usize,
    /// Files in which some run was swapped.
    pub files_changed: usize,
    /// Files of this edition that the other edition lacks.
    pub files_missing_xseed: usize,
    pub unmatched: Vec<(String, UnmatchedEntry)>,
    pub overflows: Vec<(String, OverflowEntry)>,
    pub body_subs: Vec<(String, BodySubstitutionEntry)>,
}

pub struct MergeBatchV {
    pub total: StatsV,
    pub files_processed: usize,
    pub files_changed: usize,
    pub files_missing_xseed: usize,
    pub unmatched: Seq<(Seq<char>, UnmatchedV)>,
    pub overflows: Seq<(Seq<char>, OverflowV)>,
    pub body_subs: Seq<(Seq<char>, BodySubV)>,
}

impl View for MergeBatch {
    type V = MergeBatchV;

    open spec fn view(&self) -> MergeBatchV {
        MergeBatchV {
            total: self.total@,
            files_processed: self.files_processed,
            files_changed: self.files_changed,
            files_missing_xseed: self.files_missing_xseed,
            unmatched: unmatched_rows_v(self.unmatched@),
            overflows: overflow_rows_v(self.overflows@),
            body_subs: body_sub_rows_v(self.body_subs@),
        }
    }
}

pub open spec fn batch_zero() -> MergeBatchV {
    MergeBatchV {
        total: stats_zero(),
        files_processed: 0,
        files_changed: 0,
        files_missing_xseed: 0,
        unmatched: Seq::empty(),
        overflows: Seq::empty(),
        body_subs: Seq::empty(),
    }
}

/// `s` without its entries.
pub open spec fn counts_only(s: StatsV) -> StatsV {
    StatsV { unmatched: Seq::empty(), overflows: Seq::empty(), body_subs: Seq::empty(), ..s }
}

/// Each entry of `s` tagged with the file name `rel`.
pub open spec fn tagged<T>(rel: Seq<char>, s: Seq<T>) -> Seq<(Seq<char>, T)> {
    Seq::new(s.len(), |i: int| (rel, s[i]))
}

/// The totals after the file `rel`, merged with statistics `s`: one more
/// file processed, one more changed when a run was swapped, the counts
/// added and the entries appended, tagged with the file.
pub open spec fn add_file_spec(b: MergeBatchV, rel: Seq<char>, s: StatsV) -> MergeBatchV {
    MergeBatchV {
        total: merge_spec(b.total, counts_only(s)),
        files_processed: sat_inc(b.files_processed),
        files_changed: if s.swaps_applied > 0 {
            sat_inc(b.files_changed)
        } else {
            b.files_changed
        },
        files_missing_xseed: b.files_missing_xseed,
        unmatched: b.unmatched + tagged(rel, s.unmatched),
        overflows: b.overflows + tagged(rel, s.overflows),
        body_subs: b.body_subs + tagged(rel, s.body_subs),
    }
}

/// The totals after the files `files`, each with its merge statistics,
/// added in order to `b`.
pub open spec fn add_files(b: MergeBatchV, files: Seq<(Seq<char>, StatsV)>) -> MergeBatchV
    decreases files.len(),
{
    if files.len() == 0 {
        b
    } else {
        let (rel, s) = files[files.len() - 1];
        add_file_spec(add_files(b, files.drop_last()), rel, s)
    }
}

/// How many of `files` had at least one run swapped by their merge.
pub open spec fn files_with_swaps(files: Seq<(Seq<char>, StatsV)>) -> nat
    decreases files.len(),
{
    if files.len() == 0 {
        0
    } else {
        files_with_swaps(files.drop_last()) + if files[files.len() - 1].1.swaps_applied > 0 {
            1nat
        } else {
            0nat
        }
    }
}

/// A file counts as changed exactly when its merge swapped at least one
/// run: adding a file whose merge only met equal runs, or nothing, leaves
/// the number of changed files as it was, and adding one with a swap adds
/// one (held at `usize::MAX`). Either way one more file is processed.
pub proof fn law_file_changed_by_swaps(b: MergeBatchV, rel: Seq<char>, s: StatsV)
    ensures
        s.swaps_applied == 0 ==> add_file_spec(b, rel, s).files_changed == b.files_changed,
        s.swaps_applied > 0 ==> add_file_spec(b, rel, s).files_changed == sat_inc(b.files_changed),
        s.swaps_applied > 0 && b.files_changed < usize::MAX ==> add_file_spec(b, rel, s).files_changed
            == b.files_changed + 1,
        add_file_spec(b, rel, s).files_processed == sat_inc(b.files_processed),
{
}

/// Over a whole run, the number of changed files is the number of files
/// whose merge swapped at least one run, and the number processed is the
/// number of files (each held at `usize::MAX`).
pub proof fn law_changed_files_counted(files: Seq<(Seq<char>, StatsV)>)
    ensures
        add_files(batch_zero(), files).files_changed == sat_nat(files_with_swaps(files)),
        add_files(batch_zero(), files).files_processed == sat_nat(files.len()),
    decreases files.len(),
{
    if files.len() > 0 {
        law_changed_files_counted(files.drop_last());
    }
}

impl MergeBatch {
    /// Totals of a run over no file.
    pub fn new() -> (r: MergeBatch)
        ensures
            r@ == batch_zero(),
    {
        let r = MergeBatch {
            total: SwapStats::default(),
            files_processed: 0,
            files_changed: 0,
            files_missing_xseed: 0,
            unmatched: Vec::new(),
            overflows: Vec::new(),
            body_subs: Vec::new(),
        };
        assert(r@.unmatched =~= Seq::<(Seq<char>, UnmatchedV)>::empty());
        assert(r@.overflows =~= Seq::<(Seq<char>, OverflowV)>::empty());
        assert(r@.body_subs =~= Seq::<(Seq<char>, BodySubV)>::empty());
        r
    }

    /// Count a file of this edition that the other edition lacks.
    pub fn skip_missing(&mut self)
        ensures
            final(self)@ == (MergeBatchV { files_missing_xseed: sat_inc(old(self)@.files_missing_xseed), ..old(self)@ }),
    {
        self.files_missing_xseed = sat_inc_exec(self.files_missing_xseed);
    }

    /// Add the file `rel`, merged with statistics `stats`.
    pub fn add_file(&mut self, rel: &str, stats: SwapStats)
        ensures
            final(self)@ == add_file_spec(old(self)@, rel@, stats@),
    {
        let ghost sv = stats@;
        let SwapStats {
            swaps_applied,
            no_ops_equal,
            unmatched_evo_calls,
            overflow_reuses,
            voiced_to_letter_fallback,
            body_substitutions,
            voice_ids_reinjected,
            unmatched,
            overflows,
            body_subs,
        } = stats;
        self.files_processed = sat_inc_exec(self.files_processed);
        if swaps_applied > 0 {
            self.files_changed = sat_inc_exec(self.files_changed);
        }
        let ghost u0 = self.unmatched@;
        let ghost o0 = self.overflows@;
        let ghost b0 = self.body_subs@;
        let ghost uv = unmatched@;
        let ghost ov = overflows@;
        let ghost bv = body_subs@;
        tag_entries(rel, unmatched, &mut self.unmatched);
        tag_entries(rel, overflows, &mut self.overflows);
        tag_entries(rel, body_subs, &mut self.body_subs);
        let counts = SwapStats {
            swaps_applied,
            no_ops_equal,
            unmatched_evo_calls,
            overflow_reuses,
            voiced_to_letter_fallback,
            body_substitutions,
            voice_ids_reinjected,
            unmatched: Vec::new(),
            overflows: Vec::new(),
            body_subs: Vec::new(),
        };
        assert(counts@.unmatched =~= Seq::<UnmatchedV>::empty());
        assert(counts@.overflows =~= Seq::<OverflowV>::empty());
        assert(counts@.body_subs =~= Seq::<BodySubV>::empty());
        assert(counts@ == counts_only(sv));
        self.total.merge(counts);
        assert(self@.unmatched =~= unmatched_rows_v(u0) + tagged(rel@, sv.unmatched)) by {
            assert forall|i: int| 0 <= i < self.unmatched@.len() implies (#[trigger] self@.unmatched[i]) == (
            unmatched_rows_v(u0) + tagged(rel@, sv.unmatched))[i] by {
                if i >= u0.len() {
                    assert(self.unmatched@[u0.len() + (i - u0.len())] == self.unmatched@[i]);
                }
            }
        }
        assert(self@.overflows =~= overflow_rows_v(o0) + tagged(rel@, sv.overflows)) by {
            assert forall|i: int| 0 <= i < self.overflows@.len() implies (#[trigger] self@.overflows[i]) == (
            overflow_rows_v(o0) + tagged(rel@, sv.overflows))[i] by {
                if i >= o0.len() {
                    assert(self.overflows@[o0.len() + (i - o0.len())] == self.overflows@[i]);
                }
            }
        }
        assert(self@.body_subs =~= body_sub_rows_v(b0) + tagged(rel@, sv.body_subs)) by {
            assert forall|i: int| 0 <= i < self.body_subs@.len() implies (#[trigger] self@.body_subs[i]) == (
            body_sub_rows_v(b0) + tagged(rel@, sv.body_subs))[i] by {
                if i >= b0.len() {
                    assert(self.body_subs@[b0.len() + (i - b0.len())] == self.body_subs@[i]);
                }
            }
        }
    }
}


// ---------------------------------------------------------------- console lines

/// `n` in decimal.
pub open spec fn num(n: usize) -> Seq<char> {
    digits(n as nat)
}

/// One file's merge, as reported when a single file is merged.
pub open spec fn file_text(path: Seq<char>, s: StatsV) -> Seq<char> {
    path + ": "@ + num(s.swaps_applied) + " swaps, "@ + num(s.no_ops_equal) + " no-ops, "@ + num(
        s.unmatched_evo_calls,
    ) + " unmatched, "@ + num(s.overflow_reuses) + " overflow"@
}

/// The report of a single file's merge (see [`file_text`]).
pub fn file_line(path: &str, s: &SwapStats) -> (r: String)
    ensures
        r@ == file_text(path@, s@),
{
    let mut out = String::new();
    out.append(path);
    out.append(": ");
    push_digits(&mut out, s.swaps_applied as u64);
    out.append(" swaps, ");
    push_digits(&mut out, s.no_ops_equal as u64);
    out.append(" no-ops, ");
    push_digits(&mut out, s.unmatched_evo_calls as u64);
    out.append(" unmatched, ");
    push_digits(&mut out, s.overflow_reuses as u64);
    out.append(" overflow");
    assert(out@ =~= file_text(path@, s@));
    out
}

/// One file's merge, as logged file by file over a tree.
pub open spec fn progress_text(rel: Seq<char>, s: StatsV) -> Seq<char> {
    rel + ": "@ + num(s.swaps_applied) + " swaps, "@ + num(s.unmatched_evo_calls) + " unmatched, "@ + num(
        s.overflow_reuses,
    ) + " overflow"@
}

/// The log line of one file's merge over a tree (see [`progress_text`]).
pub fn progress_line(rel: &str, s: &SwapStats) -> (r: String)
    ensures
        r@ == progress_text(rel@, s@),
{
    let mut out = String::new();
    out.append(rel);
    out.append(": ");
    push_digits(&mut out, s.swaps_applied as u64);
    out.append(" swaps, ");
    push_digits(&mut out, s.unmatched_evo_calls as u64);
    out.append(" unmatched, ");
    push_digits(&mut out, s.overflow_reuses as u64);
    out.append(" overflow");
    assert(out@ =~= progress_text(rel@, s@));
    out
}

/// The two summary lines of a merge over a tree.
pub open spec fn batch_text(b: MergeBatchV) -> Seq<char> {
    "Processed "@ + num(b.files_processed) + " files, "@ + num(b.files_changed) + " changed, "@ + num(
        b.files_missing_xseed,
    ) + " Xseed-missing skipped\nSwaps: "@ + num(b.total.swaps_applied) + " applied, "@ + num(
        b.total.no_ops_equal,
    ) + " no-ops, "@ + num(b.total.unmatched_evo_calls) + " unmatched, "@ + num(b.total.overflow_reuses)
        + " overflow, "@ + num(b.total.voiced_to_letter_fallback) + " voiced\u{2192}letter fallbacks, "@ + num(
        b.total.body_substitutions,
    ) + " body substitutions ("@ + num(b.total.voice_ids_reinjected) + " voice IDs re-injected)"@
}

/// The audit line: how many entries went to each report, and where.
pub open spec fn audit_text(u: usize, o: usize, s: usize, dir: Seq<char>) -> Seq<char> {
    "Audit: "@ + num(u) + " unmatched, "@ + num(o) + " overflow, "@ + num(s) + " body subs \u{2192} "@ + dir
}

/// The audit line (see [`audit_text`]).
pub fn audit_line(u: usize, o: usize, s: usize, dir: &str) -> (r: String)
    ensures
        r@ == audit_text(u, o, s, dir@),
{
    let mut out = String::new();
    out.append("Audit: ");
    push_digits(&mut out, u as u64);
    out.append(" unmatched, ");
    push_digits(&mut out, o as u64);
    out.append(" overflow, ");
    push_digits(&mut out, s as u64);
    out.append(" body subs \u{2192} ");
    out.append(dir);
    assert(out@ =~= audit_text(u, o, s, dir@));
    out
}

impl MergeBatch {
    /// The summary of the run (see [`batch_text`]).
    pub fn summary(&self) -> (r: String)
        ensures
            r@ == batch_text(self@),
    {
        let mut out = String::new();
        out.append("Processed ");
        push_digits(&mut out, self.files_processed as u64);
        out.append(" files, ");
        push_digits(&mut out, self.files_changed as u64);
        out.append(" changed, ");
        push_digits(&mut out, self.files_missing_xseed as u64);
        out.append(" Xseed-missing skipped\nSwaps: ");
        push_digits(&mut out, self.total.swaps_applied as u64);
        out.append(" applied, ");
        push_digits(&mut out, self.total.no_ops_equal as u64);
        out.append(" no-ops, ");
        push_digits(&mut out, self.total.unmatched_evo_calls as u64);
        out.append(" unmatched, ");
        push_digits(&mut out, self.total.overflow_reuses as u64);
        out.append(" overflow, ");
        push_digits(&mut out, self.total.voiced_to_letter_fallback as u64);
        out.append(" voiced\u{2192}letter fallbacks, ");
        push_digits(&mut out, self.total.body_substitutions as u64);
        out.append(" body substitutions (");
        push_digits(&mut out, self.total.voice_ids_reinjected as u64);
        out.append(" voice IDs re-injected)");
        assert(out@ =~= batch_text(self@));
        out
    }
}

// ---------------------------------------------------------------- the delta check over a tree

/// The totals of the localization-delta check over a tree of scripts (each
/// count held at `usize::MAX`).
pub struct DeltaBatch {
    pub files_checked: usize,
    /// Files of this edition without both counterparts.
    pub files_missing: usize,
    pub functions_checked: usize,
    pub occurrences_checked: usize,
    pub localized: usize,
    pub violations: usize,
    pub upgrades: usize,
    pub body_subs: usize,
    /// Functions the original lacks, each as `file:function`.
    pub missing_original: Vec<String>,
}

pub struct DeltaBatchV {
    pub files_checked: usize,
    pub files_missing: usize,
    pub functions_checked: usize,
    pub occurrences_checked: usize,
    pub localized: usize,
    pub violations: usize,
    pub upgrades: usize,
    pub body_subs: usize,
    pub missing_original: Seq<Seq<char>>,
}

impl View for DeltaBatch {
    type V = DeltaBatchV;

    open spec fn view(&self) -> DeltaBatchV {
        DeltaBatchV {
            files_checked: self.files_checked,
            files_missing: self.files_missing,
            functions_checked: self.functions_checked,
            occurrences_checked: self.occurrences_checked,
            localized: self.localized,
            violations: self.violations,
            upgrades: self.upgrades,
            body_subs: self.body_subs,
            missing_original: Seq::new(self.missing_original@.len(), |i: int| self.missing_original@[i]@),
        }
    }
}

pub open spec fn delta_zero() -> DeltaBatchV {
    DeltaBatchV {
        files_checked: 0,
        files_missing: 0,
        functions_checked: 0,
        occurrences_checked: 0,
        localized: 0,
        violations: 0,
        upgrades: 0,
        body_subs: 0,
        missing_original: Seq::empty(),
    }
}

/// The totals after the report `r` of the file `rel`: its counts added,
/// and the functions the original lacks noted as `rel:function`.
pub open spec fn add_report_spec(b: DeltaBatchV, rel: Seq<char>, r: ReportV) -> DeltaBatchV {
    DeltaBatchV {
        files_checked: sat_inc(b.files_checked),
        files_missing: b.files_missing,
        functions_checked: sat_add(b.functions_checked, r.functions_checked),
        occurrences_checked: sat_add(b.occurrences_checked, r.occurrences_checked),
        localized: sat_add(b.localized, r.localized),
        violations: sat_add(b.violations, r.violations.len() as usize),
        upgrades: sat_add(b.upgrades, r.upgrades.len() as usize),
        body_subs: sat_add(b.body_subs, r.body_subs.len() as usize),
        missing_original: b.missing_original + Seq::new(
            r.missing_original.len(),
            |i: int| rel + ":"@ + r.missing_original[i],
        ),
    }
}

impl DeltaBatch {
    /// Totals of a check over no file.
    pub fn new() -> (r: DeltaBatch)
        ensures
            r@ == delta_zero(),
    {
        let r = DeltaBatch {
            files_checked: 0,
            files_missing: 0,
            functions_checked: 0,
            occurrences_checked: 0,
            localized: 0,
            violations: 0,
            upgrades: 0,
            body_subs: 0,
            missing_original: Vec::new(),
        };
        assert(r@.missing_original =~= Seq::<Seq<char>>::empty());
        r
    }

    /// Count a file without both counterparts.
    pub fn skip_missing(&mut self)
        ensures
            final(self)@ == (DeltaBatchV { files_missing: sat_inc(old(self)@.files_missing), ..old(self)@ }),
    {
        self.files_missing = sat_inc_exec(self.files_missing);
    }

    /// Add the report of the file `rel`.
    pub fn add_report(&mut self, rel: &str, r: &DeltaReport)
        ensures
            final(self)@ == add_report_spec(old(self)@, rel@, r@),
    {
        let ghost m0 = self@.missing_original;
        self.files_checked = sat_inc_exec(self.files_checked);
        self.functions_checked = sat_add_exec(self.functions_checked, r.functions_checked);
        self.occurrences_checked = sat_add_exec(self.occurrences_checked, r.occurrences_checked);
        self.localized = sat_add_exec(self.localized, r.localized);
        self.violations = sat_add_exec(self.violations, r.violations.len());
        self.upgrades = sat_add_exec(self.upgrades, r.upgrades.len());
        self.body_subs = sat_add_exec(self.body_subs, r.body_subs.len());
        let mut extra: Vec<String> = Vec::new();
        let mut i: usize = 0;
        while i < r.missing_original.len()
            invariant
                0 <= i <= r.missing_original@.len(),
                extra@.len() == i,
                forall|k: int| 0 <= k < i ==> (#[trigger] extra@[k])@ == rel@ + ":"@ + r.missing_original@[k]@,
            decreases r.missing_original@.len() - i,
        {
            let mut line = rel.to_owned();
            line.append(":");
            line.append(r.missing_original[i].as_str());
            extra.push(line);
            i = i + 1;
        }
        let ghost ev = extra@;
        self.missing_original.append(&mut extra);
        assert(self.missing_original@ == old(self).missing_original@ + ev);
        assert(self@.missing_original =~= add_report_spec(old(self)@, rel@, r@).missing_original);
    }

    /// The summary of the check (see [`delta_summary_text`]).
    pub fn summary(&self) -> (r: String)
        ensures
            r@ == delta_summary_text(self@),
    {
        let mut out = String::new();
        out.append("\n--- summary ---\nFiles checked:             ");
        push_digits(&mut out, self.files_checked as u64);
        out.append("\nFiles w/o triple:          ");
        push_digits(&mut out, self.files_missing as u64);
        out.append("\nFunctions checked:         ");
        push_digits(&mut out, self.functions_checked as u64);
        out.append("\nOccurrences checked:       ");
        push_digits(&mut out, self.occurrences_checked as u64);
        out.append("\nOccurrences localized:     ");
        push_digits(&mut out, self.localized as u64);
        out.append("\nAnchor-shape upgrades:     ");
        push_digits(&mut out, self.upgrades as u64);
        out.append("\nBody substitutions:        ");
        push_digits(&mut out, self.body_subs as u64);
        out.append("\nMissing-original fns:      ");
        push_digits(&mut out, self.missing_original.len() as u64);
        out.append("\nViolations:                ");
        push_digits(&mut out, self.violations as u64);
        assert(out@ =~= delta_summary_text(self@));
        out
    }

    /// The verdict of the check: what to print when no violation was
    /// found, else the error to fail with.
    pub fn verdict(&self) -> (r: Result<String, String>)
        ensures
            self.violations == 0 ==> r is Ok && r->Ok_0@
                == "\nDelta invariant holds: merge changed text exactly where Xseed differs from original."@,
            self.violations > 0 ==> r is Err && r->Err_0@ == num(self.violations)
                + " delta-invariant violation(s) found"@,
    {
        if self.violations == 0 {
            let mut out = String::new();
            out.append("\nDelta invariant holds: merge changed text exactly where Xseed differs from original.");
            Ok(out)
        } else {
            let mut out = String::new();
            push_digits(&mut out, self.violations as u64);
            out.append(" delta-invariant violation(s) found");
            Err(out)
        }
    }
}

/// The summary lines of the delta check.
pub open spec fn delta_summary_text(b: DeltaBatchV) -> Seq<char> {
    "\n--- summary ---\nFiles checked:             "@ + num(b.files_checked) + "\nFiles w/o triple:          "@
        + num(b.files_missing) + "\nFunctions checked:         "@ + num(b.functions_checked)
        + "\nOccurrences checked:       "@ + num(b.occurrences_checked) + "\nOccurrences localized:     "@ + num(
        b.localized,
    ) + "\nAnchor-shape upgrades:     "@ + num(b.upgrades) + "\nBody substitutions:        "@ + num(b.body_subs)
        + "\nMissing-original fns:      "@ + num(b.missing_original.len() as usize) + "\nViolations:                "@
        + num(b.violations)
}

/// The console line of an exempted anchor upgrade found in `rel`.
pub open spec fn upgrade_text(rel: Seq<char>, u: UpgradeV) -> Seq<char> {
    "[upgrade] "@ + rel + "  "@ + u.function + "  "@ + site_text(u.site) + "  "@ + key_text(u.key, false)
        + "  (occ="@ + num(u.occurrences) + ")"@
}

/// The console line of an exempted anchor upgrade (see [`upgrade_text`]).
pub fn upgrade_line(rel: &str, u: &UpgradeExemption) -> (r: String)
    ensures
        r@ == upgrade_text(rel@, u@),
{
    let mut out = String::new();
    out.append("[upgrade] ");
    out.append(rel);
    out.append("  ");
    out.append(u.function.as_str());
    out.append("  ");
    out.append(fmt_site(u.site));
    out.append("  ");
    let k = fmt_key_plain(&u.key);
    out.append(k.as_str());
    out.append("  (occ=");
    push_digits(&mut out, u.occurrences as u64);
    out.append(")");
    assert(out@ =~= upgrade_text(rel@, u@));
    out
}

/// The console line of a function skipped for its body, found in `rel`.
pub open spec fn body_sub_text(rel: Seq<char>, b: BodySubExV) -> Seq<char> {
    "[body-sub] "@ + rel + "  "@ + b.function + "  (evo body="@ + b.evo_body_kind + ")"@
}

/// The console line of a function skipped for its body (see
/// [`body_sub_text`]).
pub fn body_sub_line(rel: &str, b: &BodySubExemption) -> (r: String)
    ensures
        r@ == body_sub_text(rel@, b@),
{
    let mut out = String::new();
    out.append("[body-sub] ");
    out.append(rel);
    out.append("  ");
    out.append(b.function.as_str());
    out.append("  (evo body=");
    out.append(b.evo_body_kind);
    out.append(")");
    assert(out@ =~= body_sub_text(rel@, b@));
    out
}

/// The console line of a function the original lacks, given as
/// `file:function`.
pub fn missing_original_line(f: &str) -> (r: String)
    ensures
        r@ == "[missing-original] "@ + f@,
{
    let mut out = String::new();
    out.append("[missing-original] ");
    out.append(f);
    out
}

// ---------------------------------------------------------------- comparing two editions over a tree

/// The totals of comparing two editions over a tree of scripts (each count
/// held at `usize::MAX`; see [`CompareReport`]).
pub struct CompareBatch {
    pub files_processed: usize,
    /// Files of this edition that the other edition lacks.
    pub missing_xseed_files: usize,
    pub evo_only_fns: usize,
    pub count_diff_fns: usize,
    pub anchor_diff_fns: usize,
    pub non_tree_evo: usize,
    pub non_tree_xseed: usize,
    pub total_evo_lines: usize,
    pub total_xseed_lines: usize,
}

/// The totals after one more file compared with report `r`.
pub open spec fn add_compare_spec(b: CompareBatch, r: CompareReportV) -> CompareBatch {
    CompareBatch {
        files_processed: sat_inc(b.files_processed),
        missing_xseed_files: b.missing_xseed_files,
        evo_only_fns: sat_add(b.evo_only_fns, r.evo_only_fns),
        count_diff_fns: sat_add(b.count_diff_fns, r.count_diff_fns),
        anchor_diff_fns: sat_add(b.anchor_diff_fns, r.anchor_diff_fns),
        non_tree_evo: sat_add(b.non_tree_evo, r.non_tree_evo),
        non_tree_xseed: sat_add(b.non_tree_xseed, r.non_tree_xseed),
        total_evo_lines: sat_add(b.total_evo_lines, r.total_evo_lines),
        total_xseed_lines: sat_add(b.total_xseed_lines, r.total_xseed_lines),
    }
}

/// The summary lines of the comparison.
pub open spec fn compare_summary_text(b: CompareBatch) -> Seq<char> {
    "\n--- summary ---\nFiles processed:           "@ + num(b.files_processed) + "\nFiles w/o XSeed:           "@
        + num(b.missing_xseed_files) + "\nEVO-only fns (>0 lines):   "@ + num(b.evo_only_fns)
        + "\nFunctions w/ count diff:   "@ + num(b.count_diff_fns) + "\nFunctions w/ anchor diff:  "@ + num(
        b.anchor_diff_fns,
    ) + "\nEVO non-tree bodies:       "@ + num(b.non_tree_evo) + "\nXSeed non-tree bodies:     "@ + num(
        b.non_tree_xseed,
    ) + "\nTotal EVO body syscalls:   "@ + num(b.total_evo_lines) + "\nTotal XSeed body syscalls: "@ + num(
        b.total_xseed_lines,
    )
}

impl CompareBatch {
    /// Totals of a comparison over no file.
    pub fn new() -> (r: CompareBatch)
        ensures
            r == (CompareBatch {
                files_processed: 0,
                missing_xseed_files: 0,
                evo_only_fns: 0,
                count_diff_fns: 0,
                anchor_diff_fns: 0,
                non_tree_evo: 0,
                non_tree_xseed: 0,
                total_evo_lines: 0,
                total_xseed_lines: 0,
            }),
    {
        CompareBatch {
            files_processed: 0,
            missing_xseed_files: 0,
            evo_only_fns: 0,
            count_diff_fns: 0,
            anchor_diff_fns: 0,
            non_tree_evo: 0,
            non_tree_xseed: 0,
            total_evo_lines: 0,
            total_xseed_lines: 0,
        }
    }

    /// Count a file of this edition that the other edition lacks.
    pub fn skip_missing(&mut self)
        ensures
            *final(self) == (CompareBatch { missing_xseed_files: sat_inc(old(self).missing_xseed_files), ..*old(self) }),
    {
        self.missing_xseed_files = sat_inc_exec(self.missing_xseed_files);
    }

    /// Add one file's comparison.
    pub fn add_report(&mut self, r: &CompareReport)
        ensures
            *final(self) == add_compare_spec(*old(self), r@),
    {
        self.files_processed = sat_inc_exec(self.files_processed);
        self.evo_only_fns = sat_add_exec(self.evo_only_fns, r.evo_only_fns);
        self.count_diff_fns = sat_add_exec(self.count_diff_fns, r.count_diff_fns);
        self.anchor_diff_fns = sat_add_exec(self.anchor_diff_fns, r.anchor_diff_fns);
        self.non_tree_evo = sat_add_exec(self.non_tree_evo, r.non_tree_evo);
        self.non_tree_xseed = sat_add_exec(self.non_tree_xseed, r.non_tree_xseed);
        self.total_evo_lines = sat_add_exec(self.total_evo_lines, r.total_evo_lines);
        self.total_xseed_lines = sat_add_exec(self.total_xseed_lines, r.total_xseed_lines);
    }

    /// The summary of the comparison (see [`compare_summary_text`]).
    pub fn summary(&self) -> (r: String)
        ensures
            r@ == compare_summary_text(*self),
    {
        let mut out = String::new();
        out.append("\n--- summary ---\nFiles processed:           ");
        push_digits(&mut out, self.files_processed as u64);
        out.append("\nFiles w/o XSeed:           ");
        push_digits(&mut out, self.missing_xseed_files as u64);
        out.append("\nEVO-only fns (>0 lines):   ");
        push_digits(&mut out, self.evo_only_fns as u64);
        out.append("\nFunctions w/ count diff:   ");
        push_digits(&mut out, self.count_diff_fns as u64);
        out.append("\nFunctions w/ anchor diff:  ");
        push_digits(&mut out, self.anchor_diff_fns as u64);
        out.append("\nEVO non-tree bodies:       ");
        push_digits(&mut out, self.non_tree_evo as u64);
        out.append("\nXSeed non-tree bodies:     ");
        push_digits(&mut out, self.non_tree_xseed as u64);
        out.append("\nTotal EVO body syscalls:   ");
        push_digits(&mut out, self.total_evo_lines as u64);
        out.append("\nTotal XSeed body syscalls: ");
        push_digits(&mut out, self.total_xseed_lines as u64);
        assert(out@ =~= compare_summary_text(*self));
        out
    }
}
} // verus!
