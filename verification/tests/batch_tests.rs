use sora_remake_merge::batch::CompareBatch;
use sora_remake_merge::batch::DeltaBatch;
use sora_remake_merge::batch::MergeBatch;
use sora_remake_merge::batch::audit_line;
use sora_remake_merge::batch::body_sub_line;
use sora_remake_merge::batch::file_line;
use sora_remake_merge::batch::missing_original_line;
use sora_remake_merge::batch::progress_line;
use sora_remake_merge::batch::upgrade_line;
use sora_remake_merge::coverage::Finding;
use sora_remake_merge::coverage::compare_scena;
use sora_remake_merge::coverage::fmt_finding;
use sora_remake_merge::swap::BodySubstitutionEntry;
use sora_remake_merge::swap::UnmatchedEntry;
use sora_remake_merge::verify::BodySubExemption;
use sora_remake_merge::verify::DeltaReport;
use sora_remake_merge::verify::UpgradeExemption;
use sora_remake_merge::walker::Site;
use sora_remake_merge::AnchorKey;
use sora_remake_merge::Body;
use sora_remake_merge::Called;
use sora_remake_merge::Expr;
use sora_remake_merge::Function;
use sora_remake_merge::Scena;
use sora_remake_merge::Stmt;
use sora_remake_merge::SwapStats;
use sora_remake_merge::Value;

fn iv(n: i32) -> Expr {
    Expr::Value(None, Value::Int(n))
}
fn sv(s: &str) -> Expr {
    Expr::Value(None, Value::Str(s.to_string()))
}
fn portrait(text: &str) -> Stmt {
    Stmt::Expr(Expr::Syscall(None, 5, 0, vec![iv(0), sv("<#E_0>"), sv(text)]))
}
fn letter(text: &str) -> Stmt {
    Stmt::Expr(Expr::Syscall(None, 5, 8, vec![iv(65535), iv(19), iv(13), sv(text)]))
}
fn tree(body: Vec<Stmt>) -> Function {
    Function {
        args: Vec::new(),
        called: Called::Merged(false),
        is_prelude: false,
        body: Body::Tree(body),
    }
}
fn flat() -> Function {
    Function {
        args: Vec::new(),
        called: Called::Merged(false),
        is_prelude: false,
        body: Body::Flat(7),
    }
}
fn scena(fs: Vec<(&str, Function)>) -> Scena {
    Scena {
        functions: fs.into_iter().map(|(n, f)| (n.to_string(), f)).collect(),
    }
}
fn zero_stats() -> SwapStats {
    SwapStats {
        swaps_applied: 0,
        no_ops_equal: 0,
        unmatched_evo_calls: 0,
        overflow_reuses: 0,
        voiced_to_letter_fallback: 0,
        body_substitutions: 0,
        voice_ids_reinjected: 0,
        unmatched: Vec::new(),
        overflows: Vec::new(),
        body_subs: Vec::new(),
    }
}

#[test]
fn comparison_flags_each_kind_of_difference_in_order() {
    let evo = scena(vec![
        ("A", tree(vec![portrait("a")])),
        ("B", tree(vec![portrait("b"), portrait("c")])),
        ("C", tree(vec![portrait("d")])),
        ("D", flat()),
        ("E", tree(vec![portrait("e")])),
        ("F", tree(Vec::new())),
    ]);
    let xseed = scena(vec![
        ("B", tree(vec![portrait("x")])),
        ("C", tree(vec![letter("y")])),
        ("D", tree(vec![portrait("z")])),
        ("E", tree(vec![portrait("w")])),
    ]);
    let r = compare_scena(&evo, &xseed);
    assert_eq!(r.findings.len(), 4);
    assert!(matches!(&r.findings[0], Finding::EvoOnly { function, evo_total: 1 } if function == "A"));
    assert!(matches!(&r.findings[1], Finding::CountDiff { function, .. } if function == "B"));
    assert!(matches!(&r.findings[2], Finding::AnchorDiff { function, .. } if function == "C"));
    assert!(matches!(&r.findings[3], Finding::EvoBody { function, evo_kind: "flat", xseed_kind: "tree" } if function == "D"));
    assert_eq!(r.evo_only_fns, 1);
    assert_eq!(r.count_diff_fns, 1);
    assert_eq!(r.anchor_diff_fns, 1);
    assert_eq!(r.non_tree_evo, 1);
    assert_eq!(r.non_tree_xseed, 0);
    assert_eq!(r.total_evo_lines, 4);
    assert_eq!(r.total_xseed_lines, 3);

    assert_eq!(
        fmt_finding("mp.ing", &r.findings[0]),
        "[evo-only fn] mp.ing  A  (evo total=1)"
    );
    assert_eq!(
        fmt_finding("mp.ing", &r.findings[3]),
        "[evo flat] mp.ing  D  (xseed=tree)"
    );
    assert_eq!(
        fmt_finding("mp.ing", &r.findings[1]),
        "[count diff] mp.ing  B\n  evo:   total=2 (Portrait=2, Untagged=0, Voiced=0, Letter=0, Plain=0, Narration=0, MapName=0, MenuItem=0, DisplayName=0)\n  xseed: total=1 (Portrait=1, Untagged=0, Voiced=0, Letter=0, Plain=0, Narration=0, MapName=0, MenuItem=0, DisplayName=0)"
    );
    assert_eq!(
        fmt_finding("mp.ing", &r.findings[2]),
        "[anchor diff] mp.ing  C  (total=1)\n  evo:   Portrait=1, Untagged=0, Voiced=0, Letter=0, Plain=0, Narration=0, MapName=0, MenuItem=0, DisplayName=0\n  xseed: Portrait=0, Untagged=0, Voiced=0, Letter=1, Plain=0, Narration=0, MapName=0, MenuItem=0, DisplayName=0"
    );

    let mut batch = CompareBatch::new();
    batch.skip_missing();
    batch.add_report(&r);
    assert_eq!(
        batch.summary(),
        "\n--- summary ---\nFiles processed:           1\nFiles w/o XSeed:           1\nEVO-only fns (>0 lines):   1\nFunctions w/ count diff:   1\nFunctions w/ anchor diff:  1\nEVO non-tree bodies:       1\nXSeed non-tree bodies:     0\nTotal EVO body syscalls:   4\nTotal XSeed body syscalls: 3"
    );
}

#[test]
fn comparison_flags_a_counterpart_body_that_is_no_tree() {
    let evo = scena(vec![("D", tree(vec![portrait("a")]))]);
    let xseed = scena(vec![("D", flat())]);
    let r = compare_scena(&evo, &xseed);
    assert_eq!(r.findings.len(), 1);
    assert_eq!(
        fmt_finding("f.ing", &r.findings[0]),
        "[xseed flat] f.ing  D  (evo=tree)"
    );
    assert_eq!(r.non_tree_xseed, 1);
    assert_eq!(r.total_evo_lines, 0);
}

#[test]
fn merge_totals_tag_entries_with_their_file() {
    let mut batch = MergeBatch::new();
    let mut a = zero_stats();
    a.swaps_applied = 2;
    a.no_ops_equal = 1;
    a.unmatched_evo_calls = 1;
    a.unmatched.push(UnmatchedEntry {
        function: "F".to_string(),
        site: Site::Body,
        line: Some(3),
        key: AnchorKey::Letter,
        evo_run: vec!["t".to_string()],
    });
    let mut b = zero_stats();
    b.body_substitutions = 1;
    b.voice_ids_reinjected = 2;
    b.body_subs.push(BodySubstitutionEntry {
        function: "G".to_string(),
        evo_body_kind: "asm",
        voice_ids_reinjected: 2,
    });
    assert_eq!(progress_line("one.ing", &a), "one.ing: 2 swaps, 1 unmatched, 0 overflow");
    assert_eq!(file_line("one.ing", &a), "one.ing: 2 swaps, 1 no-ops, 1 unmatched, 0 overflow");
    batch.add_file("one.ing", a);
    batch.add_file("two.ing", b);
    batch.skip_missing();
    assert_eq!(batch.files_processed, 2);
    assert_eq!(batch.files_changed, 1);
    assert_eq!(batch.files_missing_xseed, 1);
    assert_eq!(batch.unmatched.len(), 1);
    assert_eq!(batch.unmatched[0].0, "one.ing");
    assert_eq!(batch.unmatched[0].1.function, "F");
    assert_eq!(batch.body_subs.len(), 1);
    assert_eq!(batch.body_subs[0].0, "two.ing");
    assert_eq!(batch.total.swaps_applied, 2);
    assert_eq!(batch.total.unmatched.len(), 0);
    assert_eq!(
        batch.summary(),
        "Processed 2 files, 1 changed, 1 Xseed-missing skipped\nSwaps: 2 applied, 1 no-ops, 1 unmatched, 0 overflow, 0 voiced\u{2192}letter fallbacks, 1 body substitutions (2 voice IDs re-injected)"
    );
    assert_eq!(
        audit_line(1, 0, 1, "out/_audit"),
        "Audit: 1 unmatched, 0 overflow, 1 body subs \u{2192} out/_audit"
    );
}

#[test]
fn delta_totals_and_lines() {
    let report = DeltaReport {
        functions_checked: 3,
        occurrences_checked: 10,
        localized: 4,
        violations: Vec::new(),
        upgrades: vec![UpgradeExemption {
            function: "EV_01".to_string(),
            site: Site::Body,
            key: AnchorKey::Voiced(7),
            occurrences: 2,
        }],
        body_subs: vec![BodySubExemption {
            function: "QS".to_string(),
            evo_body_kind: "asm",
        }],
        missing_original: vec!["NEW".to_string()],
    };
    assert_eq!(
        upgrade_line("mp.ing", &report.upgrades[0]),
        "[upgrade] mp.ing  EV_01  body  Voiced(7)  (occ=2)"
    );
    assert_eq!(
        body_sub_line("mp.ing", &report.body_subs[0]),
        "[body-sub] mp.ing  QS  (evo body=asm)"
    );
    let mut batch = DeltaBatch::new();
    batch.add_report("mp.ing", &report);
    batch.skip_missing();
    assert_eq!(batch.missing_original, vec!["mp.ing:NEW".to_string()]);
    assert_eq!(missing_original_line(&batch.missing_original[0]), "[missing-original] mp.ing:NEW");
    assert_eq!(
        batch.summary(),
        "\n--- summary ---\nFiles checked:             1\nFiles w/o triple:          1\nFunctions checked:         3\nOccurrences checked:       10\nOccurrences localized:     4\nAnchor-shape upgrades:     1\nBody substitutions:        1\nMissing-original fns:      1\nViolations:                0"
    );
    assert_eq!(
        batch.verdict(),
        Ok("\nDelta invariant holds: merge changed text exactly where Xseed differs from original.".to_string())
    );
    batch.violations = 2;
    assert_eq!(batch.verdict(), Err("2 delta-invariant violation(s) found".to_string()));
}
