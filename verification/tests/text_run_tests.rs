use sora_remake_merge::text_run::build_run_call;
use sora_remake_merge::text_run::build_run_expr;
use sora_remake_merge::text_run::extract_run_call;
use sora_remake_merge::text_run::extract_run_expr;
use sora_remake_merge::text_run::replace_run_call;
use sora_remake_merge::text_run::replace_run_expr;
use sora_remake_merge::CallArg;
use sora_remake_merge::Expr;
use sora_remake_merge::Value;

fn iv(n: i32) -> Expr {
    Expr::Value(None, Value::Int(n))
}
fn sv(s: &str) -> Expr {
    Expr::Value(None, Value::Str(s.to_string()))
}
fn iv_line(n: i32, line: u16) -> Expr {
    Expr::Value(Some(line), Value::Int(n))
}
fn sv_line(s: &str, line: u16) -> Expr {
    Expr::Value(Some(line), Value::Str(s.to_string()))
}

#[test]
fn extract_single_string() {
    let args = vec![sv("hello")];
    assert_eq!(extract_run_expr(&args), Some(vec!["hello".to_string()]));
}

#[test]
fn extract_multi_string() {
    let args = vec![sv("hello"), iv(10), sv("world")];
    assert_eq!(
        extract_run_expr(&args),
        Some(vec!["hello".to_string(), "world".to_string()])
    );
}

#[test]
fn extract_drops_line_annotations() {
    let args = vec![sv_line("hello", 100), iv(10), sv_line("world", 101)];
    assert_eq!(
        extract_run_expr(&args),
        Some(vec!["hello".to_string(), "world".to_string()])
    );
}

#[test]
fn extract_empty() {
    let args: Vec<Expr> = vec![];
    assert_eq!(extract_run_expr(&args), Some(vec![]));
}

#[test]
fn extract_rejects_non_string_non_10() {
    let args = vec![sv("hello"), iv(11)];
    assert_eq!(extract_run_expr(&args), None);
}

#[test]
fn replace_preserves_prefix_byte_identical() {
    let mut args = vec![
        iv_line(134, 2489),
        iv(11),
        iv(33247),
        sv_line("<#E_0#M_0#B_0>", 2490),
        sv("OLD"),
    ];
    let prefix_clone: Vec<Expr> = args[..4].to_vec();
    let new_run = vec!["NEW1".to_string(), "NEW2".to_string()];
    replace_run_expr(&mut args, 4, &new_run);
    assert_eq!(&args[..4], &prefix_clone[..]);
    assert_eq!(args.len(), 4 + 3);
    match &args[4] {
        Expr::Value(line, Value::Str(s)) => {
            assert_eq!(line, &None);
            assert_eq!(s, "NEW1");
        }
        _ => panic!("expected string"),
    }
    match &args[5] {
        Expr::Value(line, Value::Int(n)) => {
            assert_eq!(line, &None);
            assert_eq!(*n, 10);
        }
        _ => panic!("expected int 10"),
    }
    match &args[6] {
        Expr::Value(line, Value::Str(s)) => {
            assert_eq!(line, &None);
            assert_eq!(s, "NEW2");
        }
        _ => panic!("expected string"),
    }
}

#[test]
fn build_run_no_line_annotations() {
    let run = vec!["a".to_string(), "b".to_string()];
    let built = build_run_expr(&run);
    for e in &built {
        match e {
            Expr::Value(line, _) => assert_eq!(line, &None),
            _ => panic!("expected value"),
        }
    }
}

#[test]
fn extract_of_built_run_gives_the_run_back() {
    let run = vec!["one".to_string(), "two".to_string(), "three".to_string()];
    assert_eq!(extract_run_expr(&build_run_expr(&run)), Some(run.clone()));
    assert_eq!(extract_run_call(&build_run_call(&run)), Some(run));
}

#[test]
fn extract_rejects_two_strings_without_separator() {
    let args = vec![sv("a"), sv("b")];
    assert_eq!(extract_run_expr(&args), None);
    let args = vec![iv(10), sv("a")];
    assert_eq!(extract_run_expr(&args), None);
}

#[test]
fn replace_in_call_table_keeps_prefix() {
    let mut args = vec![
        CallArg::Value(Value::Int(0)),
        CallArg::Value(Value::Str("<#E_0>".into())),
        CallArg::Value(Value::Str("OLD".into())),
    ];
    replace_run_call(&mut args, 2, &vec!["NEW".to_string()]);
    assert_eq!(
        args,
        vec![
            CallArg::Value(Value::Int(0)),
            CallArg::Value(Value::Str("<#E_0>".into())),
            CallArg::Value(Value::Str("NEW".into())),
        ]
    );
}

#[test]
fn replace_past_the_end_appends() {
    let mut args = vec![iv(1)];
    replace_run_expr(&mut args, 5, &vec!["x".to_string()]);
    assert_eq!(args, vec![iv(1), sv("x")]);
}
