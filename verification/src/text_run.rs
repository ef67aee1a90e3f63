//! Text runs: the localizable strings of a call, joined by `10` newline
//! markers, as they are read out of and written back into argument lists.

use vstd::prelude::*;
use crate::anchor::{Shape, int_of, is_str, shape_of_arg, shape_of_expr, shapes_of_args, shapes_of_exprs};
use crate::ast::{CallArg, CallArgV, Expr, ExprV, Value, ValueV, call_args_v, exprs_v};

verus! {

/// The strings of a text run, without their newline markers.
pub type TextRun = Vec<String>;

pub open spec fn run_v(r: Seq<String>) -> Seq<Seq<char>> {
    Seq::new(r.len(), |i: int| r[i]@)
}

pub open spec fn run_opt_v(r: Option<TextRun>) -> Option<Seq<Seq<char>>> {
    match r {
        Some(r) => Some(run_v(r@)),
        None => None,
    }
}

/// A text run's argument shapes: strings at even positions, `Int(10)` at odd.
pub open spec fn run_shape_ok(s: Seq<Shape>) -> bool {
    forall|i: int|
        0 <= i < s.len() ==> (i % 2 == 0 ==> is_str(#[trigger] s[i])) && (i % 2 == 1 ==> int_of(s[i])
            == Some(10i32))
}

/// The run that the argument shapes `s` spell, if they spell one.
pub open spec fn run_of_shapes(s: Seq<Shape>) -> Option<Seq<Seq<char>>> {
    if run_shape_ok(s) {
        Some(Seq::new((s.len() + 1) / 2, |k: int| s[2 * k]->Str_0))
    } else {
        None
    }
}

/// Length of the argument list that spells a run of `n` strings.
pub open spec fn built_len(n: int) -> int {
    if n == 0 {
        0
    } else {
        2 * n - 1
    }
}

/// The expressions that spell `r`: its strings joined by `10`, with no line
/// annotations.
pub open spec fn build_exprs_spec(r: Seq<Seq<char>>) -> Seq<ExprV> {
    Seq::new(
        built_len(r.len() as int) as nat,
        |i: int|
            if i % 2 == 0 {
                ExprV::Value(None, ValueV::Str(r[i / 2]))
            } else {
                ExprV::Value(None, ValueV::Int(10))
            },
    )
}

/// The call-table arguments that spell `r`.
pub open spec fn build_args_spec(r: Seq<Seq<char>>) -> Seq<CallArgV> {
    Seq::new(
        built_len(r.len() as int) as nat,
        |i: int|
            if i % 2 == 0 {
                CallArgV::Value(ValueV::Str(r[i / 2]))
            } else {
                CallArgV::Value(ValueV::Int(10))
            },
    )
}

fn extract_run_expr_in(args: &[Expr], start: usize, end: usize) -> (r: Option<TextRun>)
    requires
        start <= end <= args@.len(),
    ensures
        run_opt_v(r) == run_of_shapes(shapes_of_exprs(exprs_v(args@)).subrange(start as int, end as int)),
{
    let ghost sub = shapes_of_exprs(exprs_v(args@)).subrange(start as int, end as int);
    let mut out: Vec<String> = Vec::new();
    let mut expect_string = true;
    let mut i = start;
    while i < end
        invariant
            start <= i <= end <= args@.len(),
            sub == shapes_of_exprs(exprs_v(args@)).subrange(start as int, end as int),
            expect_string == ((i - start) % 2 == 0),
            out@.len() == (i - start + 1) / 2,
            forall|k: int| 0 <= k < out@.len() ==> #[trigger] out@[k]@ == sub[2 * k]->Str_0,
            forall|j: int|
                0 <= j < i - start ==> (j % 2 == 0 ==> is_str(#[trigger] sub[j])) && (j % 2 == 1
                    ==> int_of(sub[j]) == Some(10i32)),
        decreases end - i,
    {
        let ghost j = i - start;
        assert(sub[j] == shape_of_expr(args@[i as int]@));
        match &args[i] {
            Expr::Value(_, Value::Str(s)) => {
                if !expect_string {
                    assert(!run_shape_ok(sub));
                    return None;
                }
                out.push(s.clone());
            },
            Expr::Value(_, Value::Int(10)) => {
                if expect_string {
                    assert(!run_shape_ok(sub));
                    return None;
                }
            },
            _ => {
                assert(!run_shape_ok(sub));
                return None;
            },
        }
        expect_string = !expect_string;
        i += 1;
    }
    assert(run_shape_ok(sub));
    assert(run_v(out@) =~= Seq::new((sub.len() + 1) / 2, |k: int| sub[2 * k]->Str_0));
    Some(out)
}

fn extract_run_call_in(args: &[CallArg], start: usize, end: usize) -> (r: Option<TextRun>)
    requires
        start <= end <= args@.len(),
    ensures
        run_opt_v(r) == run_of_shapes(shapes_of_args(call_args_v(args@)).subrange(start as int, end as int)),
{
    let ghost sub = shapes_of_args(call_args_v(args@)).subrange(start as int, end as int);
    let mut out: Vec<String> = Vec::new();
    let mut expect_string = true;
    let mut i = start;
    while i < end
        invariant
            start <= i <= end <= args@.len(),
            sub == shapes_of_args(call_args_v(args@)).subrange(start as int, end as int),
            expect_string == ((i - start) % 2 == 0),
            out@.len() == (i - start + 1) / 2,
            forall|k: int| 0 <= k < out@.len() ==> #[trigger] out@[k]@ == sub[2 * k]->Str_0,
            forall|j: int|
                0 <= j < i - start ==> (j % 2 == 0 ==> is_str(#[trigger] sub[j])) && (j % 2 == 1
                    ==> int_of(sub[j]) == Some(10i32)),
        decreases end - i,
    {
        let ghost j = i - start;
        assert(sub[j] == shape_of_arg(args@[i as int]@));
        match &args[i] {
            CallArg::Value(Value::Str(s)) => {
                if !expect_string {
                    assert(!run_shape_ok(sub));
                    return None;
                }
                out.push(s.clone());
            },
            CallArg::Value(Value::Int(10)) => {
                if expect_string {
                    assert(!run_shape_ok(sub));
                    return None;
                }
            },
            _ => {
                assert(!run_shape_ok(sub));
                return None;
            },
        }
        expect_string = !expect_string;
        i += 1;
    }
    assert(run_shape_ok(sub));
    assert(run_v(out@) =~= Seq::new((sub.len() + 1) / 2, |k: int| sub[2 * k]->Str_0));
    Some(out)
}

/// Read a whole argument list as a text run: strings alternating with `10`
/// markers, starting with a string. `None` when the list is anything else.
pub fn extract_run_expr(args: &[Expr]) -> (r: Option<TextRun>)
    ensures
        run_opt_v(r) == run_of_shapes(shapes_of_exprs(exprs_v(args@))),
{
    let r = extract_run_expr_in(args, 0, args.len());
    assert(shapes_of_exprs(exprs_v(args@)).subrange(0, args@.len() as int) =~= shapes_of_exprs(
        exprs_v(args@),
    ));
    r
}

/// Read a whole call-table argument list as a text run.
pub fn extract_run_call(args: &[CallArg]) -> (r: Option<TextRun>)
    ensures
        run_opt_v(r) == run_of_shapes(shapes_of_args(call_args_v(args@))),
{
    let r = extract_run_call_in(args, 0, args.len());
    assert(shapes_of_args(call_args_v(args@)).subrange(0, args@.len() as int) =~= shapes_of_args(
        call_args_v(args@),
    ));
    r
}

/// Read the text run in `args[start..end]`.
pub fn extract_run_expr_range(args: &[Expr], start: usize, end: usize) -> (r: Option<TextRun>)
    requires
        start <= end <= args@.len(),
    ensures
        run_opt_v(r) == run_of_shapes(shapes_of_exprs(exprs_v(args@)).subrange(start as int, end as int)),
{
    extract_run_expr_in(args, start, end)
}

/// Read the text run in call-table arguments `args[start..end]`.
pub fn extract_run_call_range(args: &[CallArg], start: usize, end: usize) -> (r: Option<TextRun>)
    requires
        start <= end <= args@.len(),
    ensures
        run_opt_v(r) == run_of_shapes(shapes_of_args(call_args_v(args@)).subrange(start as int, end as int)),
{
    extract_run_call_in(args, start, end)
}

/// Spell `run` as expressions: its strings joined by `10`, with no line
/// annotations.
pub fn build_run_expr(run: &TextRun) -> (r: Vec<Expr>)
    ensures
        exprs_v(r@) == build_exprs_spec(run_v(run@)),
{
    let mut out: Vec<Expr> = Vec::new();
    let mut i: usize = 0;
    while i < run.len()
        invariant
            0 <= i <= run@.len(),
            out@.len() == built_len(i as int),
            forall|k: int|
                0 <= k < out@.len() ==> crate::ast::expr_v(#[trigger] out@[k]) == build_exprs_spec(run_v(run@))[k],
        decreases run@.len() - i,
    {
        if i > 0 {
            out.push(Expr::Value(None, Value::Int(10)));
        }
        out.push(Expr::Value(None, Value::Str(run[i].clone())));
        i += 1;
    }
    assert(exprs_v(out@) =~= build_exprs_spec(run_v(run@)));
    out
}

/// Spell `run` as call-table arguments.
pub fn build_run_call(run: &TextRun) -> (r: Vec<CallArg>)
    ensures
        call_args_v(r@) == build_args_spec(run_v(run@)),
{
    let mut out: Vec<CallArg> = Vec::new();
    let mut i: usize = 0;
    while i < run.len()
        invariant
            0 <= i <= run@.len(),
            out@.len() == built_len(i as int),
            forall|k: int|
                0 <= k < out@.len() ==> crate::ast::call_arg_v(#[trigger] out@[k]) == build_args_spec(run_v(run@))[k],
        decreases run@.len() - i,
    {
        if i > 0 {
            out.push(CallArg::Value(Value::Int(10)));
        }
        out.push(CallArg::Value(Value::Str(run[i].clone())));
        i += 1;
    }
    assert(call_args_v(out@) =~= build_args_spec(run_v(run@)));
    out
}

/// Keep the first `prefix_len` arguments and spell `new_run` after them.
pub fn replace_run_expr(args: &mut Vec<Expr>, prefix_len: usize, new_run: &TextRun)
    ensures
        exprs_v(final(args)@) == exprs_v(old(args)@).take(
            if prefix_len <= old(args)@.len() { prefix_len as int } else { old(args)@.len() as int },
        ) + build_exprs_spec(run_v(new_run@)),
{
    args.truncate(prefix_len);
    let mut built = build_run_expr(new_run);
    let ghost kept = args@;
    let ghost added = built@;
    args.append(&mut built);
    assert(exprs_v(args@) =~= exprs_v(kept) + exprs_v(added)) by {
        assert(args@ == kept + added);
    }
    assert(exprs_v(kept) =~= exprs_v(old(args)@).take(
        if prefix_len <= old(args)@.len() { prefix_len as int } else { old(args)@.len() as int },
    ));
}

/// Keep the first `prefix_len` call-table arguments and spell `new_run` after
/// them.
pub fn replace_run_call(args: &mut Vec<CallArg>, prefix_len: usize, new_run: &TextRun)
    ensures
        call_args_v(final(args)@) == call_args_v(old(args)@).take(
            if prefix_len <= old(args)@.len() { prefix_len as int } else { old(args)@.len() as int },
        ) + build_args_spec(run_v(new_run@)),
{
    args.truncate(prefix_len);
    let mut built = build_run_call(new_run);
    let ghost kept = args@;
    let ghost added = built@;
    args.append(&mut built);
    assert(call_args_v(args@) =~= call_args_v(kept) + call_args_v(added)) by {
        assert(args@ == kept + added);
    }
    assert(call_args_v(kept) =~= call_args_v(old(args)@).take(
        if prefix_len <= old(args)@.len() { prefix_len as int } else { old(args)@.len() as int },
    ));
}

/// Reading back a spelled run gives the run: `extract(build(r)) == r`.
pub proof fn lemma_extract_build_expr(r: Seq<Seq<char>>)
    ensures
        run_of_shapes(shapes_of_exprs(build_exprs_spec(r))) == Some(r),
{
    let s = shapes_of_exprs(build_exprs_spec(r));
    assert forall|i: int| 0 <= i < s.len() implies (i % 2 == 0 ==> is_str(#[trigger] s[i])) && (i % 2
        == 1 ==> int_of(s[i]) == Some(10i32)) by {}
    assert(Seq::new((s.len() + 1) / 2, |k: int| s[2 * k]->Str_0) =~= r);
}

/// Reading back spelled call-table arguments gives the run.
pub proof fn lemma_extract_build_call(r: Seq<Seq<char>>)
    ensures
        run_of_shapes(shapes_of_args(build_args_spec(r))) == Some(r),
{
    let s = shapes_of_args(build_args_spec(r));
    assert forall|i: int| 0 <= i < s.len() implies (i % 2 == 0 ==> is_str(#[trigger] s[i])) && (i % 2
        == 1 ==> int_of(s[i]) == Some(10i32)) by {}
    assert(Seq::new((s.len() + 1) / 2, |k: int| s[2 * k]->Str_0) =~= r);
}

/// A copy of a run.
pub fn copy_run(r: &TextRun) -> (o: TextRun)
    ensures
        run_v(o@) == run_v(r@),
{
    let mut out: Vec<String> = Vec::new();
    let mut i: usize = 0;
    while i < r.len()
        invariant
            0 <= i <= r@.len(),
            out@.len() == i,
            forall|k: int| 0 <= k < i ==> (#[trigger] out@[k])@ == r@[k]@,
        decreases r@.len() - i,
    {
        out.push(r[i].clone());
        i += 1;
    }
    assert(run_v(out@) =~= run_v(r@));
    out
}

} // verus!
