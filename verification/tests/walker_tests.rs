use sora_remake_merge::walker::Site;
use sora_remake_merge::swap::Bucket;
use sora_remake_merge::swap::SwapStats;
use sora_remake_merge::swap::SwapVisitor;
use sora_remake_merge::walker::rewrite_body;
use sora_remake_merge::walker::rewrite_called;
use sora_remake_merge::text_run::TextRun;
use sora_remake_merge::AnchorKey;
use sora_remake_merge::Call;
use sora_remake_merge::CallArg;
use sora_remake_merge::CallKind;
use sora_remake_merge::Expr;
use sora_remake_merge::Name;
use sora_remake_merge::Stmt;
use sora_remake_merge::SwitchArm;
use sora_remake_merge::Value;

fn iv(n: i32) -> Expr {
    Expr::Value(None, Value::Int(n))
}
fn sv(s: &str) -> Expr {
    Expr::Value(None, Value::Str(s.to_string()))
}

fn make_syscall(text: &str) -> Expr {
    Expr::Syscall(None, 5, 0, vec![iv(0), sv("<#E_0#M_0#B_0>"), sv(text)])
}

fn make_stmt(text: &str) -> Stmt {
    Stmt::Expr(make_syscall(text))
}

/// A visitor that answers every portrait call of speaker 0 with the run
/// `REPLACED`, so that each visit it receives is counted as a swap.
fn counting() -> SwapVisitor {
    let key = AnchorKey::Portrait {
        char_id: 0,
        tag: "<#E_0#M_0#B_0>".to_string(),
    };
    let bucket = |site: Site| Bucket {
        site,
        key: key.clone(),
        runs: vec![vec!["REPLACED".to_string()]],
    };
    SwapVisitor {
        function: "F".to_string(),
        index: vec![bucket(Site::Body), bucket(Site::Called)],
        counters: Vec::new(),
        stats: SwapStats::default(),
    }
}

/// A visitor with nothing to match: every visit is recorded as unmatched,
/// with its site, line and run, in the order the visits came.
fn recording() -> SwapVisitor {
    SwapVisitor {
        function: "F".to_string(),
        index: Vec::new(),
        counters: Vec::new(),
        stats: SwapStats::default(),
    }
}

fn visits(v: &SwapVisitor) -> usize {
    v.stats.swaps_applied + v.stats.no_ops_equal + v.stats.unmatched_evo_calls
}

fn count_swaps(stmts: &mut Vec<Stmt>) -> usize {
    let mut v = counting();
    rewrite_body(stmts, &mut v);
    visits(&v)
}

#[test]
fn walker_visits_stmt_expr() {
    let mut body = vec![make_stmt("a")];
    assert_eq!(count_swaps(&mut body), 1);
}

#[test]
fn walker_visits_set_rhs() {
    let mut body = vec![Stmt::Assign(None, 0, make_syscall("a"))];
    assert_eq!(count_swaps(&mut body), 1);
}

#[test]
fn walker_visits_if_both_branches() {
    let mut body = vec![Stmt::If(
        None,
        iv(0),
        vec![make_stmt("a")],
        Some(vec![make_stmt("b")]),
    )];
    assert_eq!(count_swaps(&mut body), 2);
}

#[test]
fn walker_visits_while_body() {
    let mut body = vec![Stmt::While(None, iv(0), vec![make_stmt("a")])];
    assert_eq!(count_swaps(&mut body), 1);
}

#[test]
fn walker_visits_switch_arms() {
    let cases = vec![
        SwitchArm {
            label: Some(1),
            body: vec![make_stmt("a")],
        },
        SwitchArm {
            label: Some(2),
            body: vec![make_stmt("b")],
        },
        SwitchArm {
            label: None,
            body: vec![make_stmt("c")],
        },
    ];
    let mut body = vec![Stmt::Switch(None, iv(0), cases)];
    assert_eq!(count_swaps(&mut body), 3);
}

#[test]
fn walker_visits_nested_block_and_if() {
    let mut body = vec![Stmt::Block(vec![
        Stmt::If(None, iv(0), vec![Stmt::Block(vec![make_stmt("a")])], None),
        make_stmt("b"),
    ])];
    assert_eq!(count_swaps(&mut body), 2);
}

#[test]
fn called_walker_visits_syscalls_only() {
    let mut calls = vec![
        Call {
            kind: CallKind::Syscall(5, 0),
            args: vec![
                CallArg::Value(Value::Int(0)),
                CallArg::Value(Value::Str("<#E_0#M_0#B_0>".into())),
                CallArg::Value(Value::Str("a".into())),
            ],
        },
        Call {
            kind: CallKind::Normal(Name {
                module: String::new(),
                local: "FOO".into(),
            }),
            args: vec![CallArg::Value(Value::Int(0))],
        },
    ];
    let mut v = counting();
    rewrite_called(&mut calls, &mut v);
    assert_eq!(visits(&v), 1);
}

#[test]
fn called_merged_is_left_alone_by_swap_caller() {
    // A merged call table is never handed to `rewrite_called`; the merge
    // skips it (checked by the merge's own tests).
}

#[test]
fn walker_visits_in_source_order_and_replaces_the_run() {
    let mut body = vec![
        Stmt::Expr(Expr::Syscall(
            Some(7),
            5,
            0,
            vec![iv(0), sv("<#E_0#M_0#B_0>"), sv("first")],
        )),
        make_stmt("second"),
    ];
    let mut r = recording();
    rewrite_body(&mut body.clone(), &mut r);
    let seen: Vec<(Site, Option<u16>, TextRun)> = r
        .stats
        .unmatched
        .iter()
        .map(|e| (e.site, e.line, e.evo_run.clone()))
        .collect();
    assert_eq!(
        seen,
        vec![
            (Site::Body, Some(7), vec!["first".to_string()]),
            (Site::Body, None, vec!["second".to_string()]),
        ]
    );
    let mut v = counting();
    rewrite_body(&mut body, &mut v);
    assert_eq!(
        body[1],
        Stmt::Expr(Expr::Syscall(
            None,
            5,
            0,
            vec![iv(0), sv("<#E_0#M_0#B_0>"), sv("REPLACED")]
        ))
    );
}

#[test]
fn walker_visits_call_arguments_before_the_call() {
    let inner = make_syscall("inner");
    let outer = Expr::Call(
        None,
        Name::local("menu_additem".into()),
        vec![iv(1), sv("outer"), inner],
    );
    let mut body = vec![Stmt::Expr(outer)];
    let mut v = recording();
    rewrite_body(&mut body, &mut v);
    let runs: Vec<TextRun> = v.stats.unmatched.iter().map(|e| e.evo_run.clone()).collect();
    assert_eq!(
        runs,
        vec![vec!["inner".to_string()], vec!["outer".to_string()]]
    );
}

#[test]
fn walker_skips_calls_whose_run_is_not_text() {
    let mut body = vec![Stmt::Expr(Expr::Syscall(
        None,
        5,
        0,
        vec![iv(0), sv("<#E_0#M_0#B_0>"), sv("a"), iv(3)],
    ))];
    assert_eq!(count_swaps(&mut body), 0);
}
