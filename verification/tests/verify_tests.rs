use sora_remake_merge::verify::ViolationKind;
use sora_remake_merge::verify::verify_scena;
use sora_remake_merge::Body;
use sora_remake_merge::Called;
use sora_remake_merge::Expr;
use sora_remake_merge::Function;
use sora_remake_merge::Scena;
use sora_remake_merge::Stmt;
use sora_remake_merge::Value;

fn iv(n: i32) -> Expr {
    Expr::Value(None, Value::Int(n))
}
fn sv(s: &str) -> Expr {
    Expr::Value(None, Value::Str(s.to_string()))
}
fn portrait(char_id: i32, tag: &str, text: &str) -> Stmt {
    Stmt::Expr(Expr::Syscall(
        None,
        5,
        0,
        vec![iv(char_id), sv(tag), sv(text)],
    ))
}
fn make_fn(body: Vec<Stmt>) -> Function {
    Function {
        args: Vec::new(),
        called: Called::Merged(false),
        is_prelude: false,
        body: Body::Tree(body),
    }
}
fn make_scena(name: &str, f: Function) -> Scena {
    Scena {
        functions: vec![(name.to_string(), f)],
    }
}

#[test]
fn clean_when_evo_equals_original_and_xseed_localizes() {
    let evo = make_scena("F", make_fn(vec![portrait(0, "<#E_0>", "GungHo")]));
    let xseed = make_scena("F", make_fn(vec![portrait(0, "<#E_0>", "Xseed")]));
    let original = make_scena("F", make_fn(vec![portrait(0, "<#E_0>", "GungHo")]));
    let report = verify_scena(&evo, &xseed, &original);
    assert!(report.violations.is_empty(), "{:?}", report.violations);
    assert_eq!(report.localized, 1);
    assert_eq!(report.occurrences_checked, 1);
}

#[test]
fn clean_when_xseed_unchanged_from_original() {
    let evo = make_scena("F", make_fn(vec![portrait(0, "<#E_0>", "same")]));
    let xseed = make_scena("F", make_fn(vec![portrait(0, "<#E_0>", "same")]));
    let original = make_scena("F", make_fn(vec![portrait(0, "<#E_0>", "same")]));
    let report = verify_scena(&evo, &xseed, &original);
    assert!(report.violations.is_empty());
    assert_eq!(report.localized, 0);
}

#[test]
fn overlay_violation_when_evo_differs_from_original() {
    let evo = make_scena("F", make_fn(vec![portrait(0, "<#E_0>", "Xseed")]));
    let xseed = make_scena("F", make_fn(vec![portrait(0, "<#E_0>", "Xseed")]));
    let original = make_scena("F", make_fn(vec![portrait(0, "<#E_0>", "GungHo")]));
    let report = verify_scena(&evo, &xseed, &original);
    let kinds: Vec<_> = report.violations.iter().map(|v| v.kind).collect();
    assert!(kinds.contains(&ViolationKind::Overlay), "{kinds:?}");
    assert!(kinds.contains(&ViolationKind::Delta), "{kinds:?}");
}

#[test]
fn evo_only_function_is_skipped() {
    let evo = make_scena("ONLY", make_fn(vec![portrait(0, "<#E_0>", "x")]));
    let xseed = Scena::default();
    let original = Scena::default();
    let report = verify_scena(&evo, &xseed, &original);
    assert_eq!(report.functions_checked, 0);
    assert!(report.violations.is_empty());
}

#[test]
fn function_missing_from_original_is_listed() {
    let evo = make_scena("F", make_fn(vec![portrait(0, "<#E_0>", "GungHo")]));
    let xseed = make_scena("F", make_fn(vec![portrait(0, "<#E_0>", "Xseed")]));
    let original = Scena::default();
    let report = verify_scena(&evo, &xseed, &original);
    assert_eq!(report.missing_original, vec!["F".to_string()]);
    assert_eq!(report.functions_checked, 0);
    assert_eq!(report.occurrences_checked, 0);
}

#[test]
fn non_tree_body_is_recorded_as_a_substitution() {
    let evo = make_scena(
        "F",
        Function {
            args: Vec::new(),
            called: Called::Raw(Vec::new()),
            is_prelude: false,
            body: Body::Asm(Vec::new()),
        },
    );
    let xseed = make_scena("F", make_fn(vec![portrait(0, "<#E_0>", "Xseed")]));
    let original = make_scena("F", make_fn(vec![portrait(0, "<#E_0>", "GungHo")]));
    let report = verify_scena(&evo, &xseed, &original);
    assert_eq!(report.body_subs.len(), 1);
    assert_eq!(report.body_subs[0].function, "F");
    assert_eq!(report.body_subs[0].evo_body_kind, "asm");
    assert_eq!(report.functions_checked, 0);
}

#[test]
fn letter_to_voiced_upgrade_is_an_exemption() {
    let voiced = |v: i32, t: &str| {
        Stmt::Expr(Expr::Syscall(
            None,
            5,
            8,
            vec![iv(65535), iv(19), iv(13), iv(11), iv(v), sv(t)],
        ))
    };
    let letter = |t: &str| {
        Stmt::Expr(Expr::Syscall(
            None,
            5,
            8,
            vec![iv(65535), iv(19), iv(13), sv(t)],
        ))
    };
    let evo = make_scena("F", make_fn(vec![voiced(97068, "old A")]));
    let xseed = make_scena("F", make_fn(vec![letter("new A")]));
    let original = make_scena("F", make_fn(vec![letter("old A")]));
    let report = verify_scena(&evo, &xseed, &original);
    assert!(report.violations.is_empty(), "{:?}", report.violations);
    assert_eq!(report.upgrades.len(), 1);
    assert_eq!(report.upgrades[0].occurrences, 1);
    assert_eq!(report.localized, 1);
    assert_eq!(report.occurrences_checked, 1);
}

#[test]
fn delta_checked_positionally_with_overflow() {
    let evo = make_scena(
        "F",
        make_fn(vec![
            portrait(0, "<#E_0>", "g1"),
            portrait(0, "<#E_0>", "g2"),
        ]),
    );
    let xseed = make_scena("F", make_fn(vec![portrait(0, "<#E_0>", "x1")]));
    let original = make_scena(
        "F",
        make_fn(vec![
            portrait(0, "<#E_0>", "g1"),
            portrait(0, "<#E_0>", "g2"),
        ]),
    );
    let report = verify_scena(&evo, &xseed, &original);
    assert_eq!(report.occurrences_checked, 2);
    assert_eq!(report.localized, 2);
    let kinds: Vec<_> = report.violations.iter().map(|v| (v.occurrence, v.kind)).collect();
    assert_eq!(kinds, vec![(1, ViolationKind::Overlay)]);
}
