//! What a rewrite leaves behind: when every change a visitor answers fits
//! the call's anchor, the localizable calls of the rewritten body are the
//! calls handed in, in the same order, with the visitor's answers in place
//! of their runs.

use vstd::prelude::*;
use crate::anchor::{ClassificationV, Shape, classify_named_spec, classify_spec, shape_of_expr, shapes_of_args, shapes_of_exprs};
use crate::ast::{ArmV, CallArgV, CallKindV, CallV, ExprV, StmtV, ValueV};
use crate::stability::{
    fits, lemma_named_stable, lemma_run_shapes, lemma_syscall_run_start, lemma_syscall_stable, run_shapes,
};
use crate::voice::{call_has_voice_spec, raw_calls_have_voice, voice_marker_at};
use crate::text_run::{build_args_spec, build_exprs_spec, run_of_shapes, run_shape_ok};
use crate::walker::{
    Occ, Site, Visitor, classify_call_spec, lemma_visit_fold_append, lemma_visit_fold_small, occ_arms,
    occ_calls, occ_expr, occ_exprs, occ_of_call, occ_stmt, occ_stmts, run_at, run_end_of, rw_arms, rw_call,
    rw_calls, rw_expr, rw_exprs, rw_stmt, rw_stmts, splice, visit_args, visit_fold,
};

verus! {

/// The visitor's answer to `o` in state `st`, when it differs from the
/// call's own run.
pub open spec fn new_run<V: Visitor>(st: V::V, o: Occ) -> Option<Seq<Seq<char>>> {
    match V::visit_spec(st, o.site, o.line, o.key, o.run).1 {
        Some(nr) => if nr != o.run {
            Some(nr)
        } else {
            None
        },
        None => None,
    }
}

/// `o` with the visitor's change, if any, in place of its run.
pub open spec fn answer_occ<V: Visitor>(st: V::V, o: Occ) -> Occ {
    match new_run::<V>(st, o) {
        Some(nr) => Occ { run: nr, ..o },
        None => o,
    }
}

/// `occs` with the visitor's changes in place, visiting in order.
pub open spec fn answered<V: Visitor>(st: V::V, occs: Seq<Occ>) -> Seq<Occ>
    decreases occs.len(),
{
    if occs.len() == 0 {
        Seq::empty()
    } else {
        let pre = occs.drop_last();
        answered::<V>(st, pre).push(answer_occ::<V>(visit_fold::<V>(st, pre), occs[occs.len() - 1]))
    }
}

/// Whether `nr` can take the place of the run of `o`: it fits the call's
/// key, or it is empty and the call keeps its place without text.
pub open spec fn fits_occ(o: Occ, nr: Seq<Seq<char>>) -> bool {
    fits(o.key, nr) || (nr.len() == 0 && o.tight)
}

/// Each change the visitor makes, visiting `occs` in order, can take the
/// place of the call's run (see [`fits_occ`]).
pub open spec fn fit_along<V: Visitor>(st: V::V, occs: Seq<Occ>) -> bool
    decreases occs.len(),
{
    if occs.len() == 0 {
        true
    } else {
        let pre = occs.drop_last();
        let o = occs[occs.len() - 1];
        fit_along::<V>(st, pre) && match new_run::<V>(visit_fold::<V>(st, pre), o) {
            Some(nr) => fits_occ(o, nr),
            None => true,
        }
    }
}

pub proof fn lemma_answered_append<V: Visitor>(st: V::V, a: Seq<Occ>, b: Seq<Occ>)
    ensures
        answered::<V>(st, a + b) == answered::<V>(st, a) + answered::<V>(visit_fold::<V>(st, a), b),
        fit_along::<V>(st, a + b) == (fit_along::<V>(st, a) && fit_along::<V>(visit_fold::<V>(st, a), b)),
    decreases b.len(),
{
    if b.len() == 0 {
        assert(a + b =~= a);
        assert(answered::<V>(st, a) + Seq::<Occ>::empty() =~= answered::<V>(st, a));
    } else {
        lemma_answered_append::<V>(st, a, b.drop_last());
        assert((a + b).drop_last() =~= a + b.drop_last());
        assert((a + b)[(a + b).len() - 1] == b[b.len() - 1]);
        lemma_visit_fold_append::<V>(st, a, b.drop_last());
        let x = answer_occ::<V>(visit_fold::<V>(visit_fold::<V>(st, a), b.drop_last()), b[b.len() - 1]);
        assert(answered::<V>(st, a) + answered::<V>(visit_fold::<V>(st, a), b.drop_last()).push(x) =~= (
        answered::<V>(st, a) + answered::<V>(visit_fold::<V>(st, a), b.drop_last())).push(x));
    }
}

pub proof fn lemma_answered_small<V: Visitor>(st: V::V, o: Occ)
    ensures
        answered::<V>(st, Seq::empty()) == Seq::<Occ>::empty(),
        fit_along::<V>(st, Seq::empty()),
        answered::<V>(st, seq![o]) == seq![answer_occ::<V>(st, o)],
        fit_along::<V>(st, seq![o]) == match new_run::<V>(st, o) {
            Some(nr) => fits_occ(o, nr),
            None => true,
        },
{
    let e = seq![o].drop_last();
    assert(e =~= Seq::<Occ>::empty());
    assert(seq![o][0] == o);
    lemma_visit_fold_small::<V>(st, o);
    assert(visit_fold::<V>(st, e) == st);
    assert(answered::<V>(st, e) == Seq::<Occ>::empty());
    assert(fit_along::<V>(st, e));
    assert(answered::<V>(st, seq![o]) == answered::<V>(st, e).push(answer_occ::<V>(st, o)));
    assert(Seq::<Occ>::empty().push(answer_occ::<V>(st, o)) =~= seq![answer_occ::<V>(st, o)]);
}

// ---------------------------------------------------------------- argument lists

proof fn lemma_occ_exprs_append(a: Seq<ExprV>, b: Seq<ExprV>)
    ensures
        occ_exprs(a + b) == occ_exprs(a) + occ_exprs(b),
    decreases b.len(),
{
    if b.len() == 0 {
        assert(a + b =~= a);
        assert(occ_exprs(a) + Seq::<Occ>::empty() =~= occ_exprs(a));
    } else {
        lemma_occ_exprs_append(a, b.drop_last());
        assert((a + b).drop_last() =~= a + b.drop_last());
        assert((a + b)[(a + b).len() - 1] == b[b.len() - 1]);
        assert(occ_exprs(a) + occ_exprs(b.drop_last()) + occ_expr(b[b.len() - 1]) =~= occ_exprs(a) + (
        occ_exprs(b.drop_last()) + occ_expr(b[b.len() - 1])));
    }
}

proof fn lemma_occ_values(s: Seq<ExprV>)
    requires
        forall|i: int| 0 <= i < s.len() ==> (#[trigger] s[i]) is Value,
    ensures
        occ_exprs(s) == Seq::<Occ>::empty(),
    decreases s.len(),
{
    if s.len() > 0 {
        lemma_occ_values(s.drop_last());
        assert(s[s.len() - 1] is Value);
        assert(occ_expr(s[s.len() - 1]) == Seq::<Occ>::empty());
        assert(Seq::<Occ>::empty() + Seq::<Occ>::empty() =~= Seq::<Occ>::empty());
    } else {
        assert(occ_exprs(s) == Seq::<Occ>::empty());
    }
}

/// Splicing value arguments over value arguments keeps the calls nested in
/// the list and splices the shapes.
proof fn lemma_splice_exprs(args: Seq<ExprV>, p: int, e: int, mid: Seq<ExprV>)
    requires
        0 <= p <= e <= args.len(),
        forall|i: int| p <= i < e ==> (#[trigger] args[i]) is Value,
        forall|i: int| 0 <= i < mid.len() ==> (#[trigger] mid[i]) is Value,
    ensures
        occ_exprs(splice(args, p, e, mid)) == occ_exprs(args),
        shapes_of_exprs(splice(args, p, e, mid)) == splice(shapes_of_exprs(args), p, e, shapes_of_exprs(mid)),
{
    let pre = args.take(p);
    let run = args.subrange(p, e);
    let post = args.skip(e);
    assert(args =~= pre + run + post);
    lemma_occ_exprs_append(pre + run, post);
    lemma_occ_exprs_append(pre, run);
    lemma_occ_exprs_append(pre + mid, post);
    lemma_occ_exprs_append(pre, mid);
    lemma_occ_values(run);
    lemma_occ_values(mid);
    assert(occ_exprs(pre) + Seq::<Occ>::empty() =~= occ_exprs(pre));
    assert(shapes_of_exprs(splice(args, p, e, mid)) =~= splice(shapes_of_exprs(args), p, e, shapes_of_exprs(mid)));
}

proof fn lemma_run_values(sh: Seq<Shape>, args: Seq<ExprV>, p: int, e: int)
    requires
        sh == shapes_of_exprs(args),
        0 <= p <= e <= args.len(),
        run_of_shapes(sh.subrange(p, e)) is Some,
    ensures
        forall|i: int| p <= i < e ==> (#[trigger] args[i]) is Value,
{
    assert(run_shape_ok(sh.subrange(p, e)));
    assert forall|i: int| p <= i < e implies (#[trigger] args[i]) is Value by {
        let k = i - p;
        assert(sh.subrange(p, e)[k] == shape_of_expr(args[i]));
        if k % 2 == 0 {
            assert(crate::anchor::is_str(sh.subrange(p, e)[k]));
        } else {
            assert(crate::anchor::int_of(sh.subrange(p, e)[k]) == Some(10i32));
        }
    }
}

proof fn lemma_built_values(nr: Seq<Seq<char>>)
    ensures
        forall|i: int| 0 <= i < build_exprs_spec(nr).len() ==> (#[trigger] build_exprs_spec(nr)[i]) is Value,
{
}

/// Classifying the arguments once the run of `c` is replaced by a fitting
/// run, or emptied where the call keeps its place without text, keeps the
/// call classified the same way.
pub open spec fn stable_under(classify: spec_fn(Seq<Shape>) -> Option<ClassificationV>, sh: Seq<Shape>) -> bool {
    match classify(sh) {
        Some(c) => run_at(c, sh) is Some ==> {
            &&& forall|nr: Seq<Seq<char>>| #[trigger]
                fits(c.key, nr) ==> crate::stability::stays_classified(
                    classify(splice(sh, c.prefix_len, run_end_of(c, sh.len() as int), run_shapes(nr))),
                    c,
                    splice(sh, c.prefix_len, run_end_of(c, sh.len() as int), run_shapes(nr)),
                    nr,
                )
            &&& crate::walker::empty_keeps(c, sh) ==> crate::stability::stays_classified(
                classify(splice(sh, c.prefix_len, run_end_of(c, sh.len() as int), run_shapes(Seq::empty()))),
                c,
                splice(sh, c.prefix_len, run_end_of(c, sh.len() as int), run_shapes(Seq::empty())),
                Seq::empty(),
            )
        },
        None => true,
    }
}

proof fn lemma_visit_occ_exprs<V: Visitor>(
    site: Site,
    l: Option<u16>,
    classify: spec_fn(Seq<Shape>) -> Option<ClassificationV>,
    args: Seq<ExprV>,
    st: V::V,
)
    requires
        stable_under(classify, shapes_of_exprs(args)),
        fit_along::<V>(st, occ_of_call(site, l, classify(shapes_of_exprs(args)), shapes_of_exprs(args))),
    ensures
        ({
            let sh = shapes_of_exprs(args);
            let args3 = visit_args::<V, ExprV>(
                site,
                l,
                classify(sh),
                args,
                sh,
                |r: Seq<Seq<char>>| build_exprs_spec(r),
                st,
            ).0;
            &&& occ_exprs(args3) == occ_exprs(args)
            &&& shapes_of_exprs(args3).len() == args3.len()
            &&& occ_of_call(site, l, classify(shapes_of_exprs(args3)), shapes_of_exprs(args3)) == answered::<V>(
                st,
                occ_of_call(site, l, classify(sh), sh),
            )
        }),
{
    let sh = shapes_of_exprs(args);
    let dummy = Occ { site, line: None, key: crate::anchor::AnchorKeyV::Letter, run: Seq::empty(), tight: false };
    lemma_answered_small::<V>(st, dummy);
    if let Some(c) = classify(sh) {
        if let Some(evo) = run_at(c, sh) {
            let o = Occ { site, line: l, key: c.key, run: evo, tight: crate::walker::empty_keeps(c, sh) };
            lemma_answered_small::<V>(st, o);
            let p = c.prefix_len;
            let e = run_end_of(c, sh.len() as int);
            match new_run::<V>(st, o) {
                Some(nr) => {
                    if !fits(c.key, nr) {
                        assert(nr =~= Seq::<Seq<char>>::empty());
                    }
                    lemma_run_values(sh, args, p, e);
                    lemma_run_shapes(nr);
                    lemma_built_values(nr);
                    lemma_splice_exprs(args, p, e, build_exprs_spec(nr));
                    assert(crate::stability::shapes_of_exprs_build(nr));
                    let sh2 = splice(sh, p, e, run_shapes(nr));
                    assert(crate::stability::stays_classified(classify(sh2), c, sh2, nr));
                },
                None => {},
            }
        }
    }
}

proof fn lemma_splice_args(args: Seq<CallArgV>, p: int, e: int, mid: Seq<CallArgV>)
    requires
        0 <= p <= e <= args.len(),
    ensures
        shapes_of_args(splice(args, p, e, mid)) == splice(shapes_of_args(args), p, e, shapes_of_args(mid)),
{
    assert(shapes_of_args(splice(args, p, e, mid)) =~= splice(shapes_of_args(args), p, e, shapes_of_args(mid)));
}

proof fn lemma_visit_occ_args<V: Visitor>(
    classify: spec_fn(Seq<Shape>) -> Option<ClassificationV>,
    args: Seq<CallArgV>,
    st: V::V,
)
    requires
        stable_under(classify, shapes_of_args(args)),
        fit_along::<V>(st, occ_of_call(Site::Called, None, classify(shapes_of_args(args)), shapes_of_args(args))),
    ensures
        ({
            let sh = shapes_of_args(args);
            let args3 = visit_args::<V, CallArgV>(
                Site::Called,
                None,
                classify(sh),
                args,
                sh,
                |r: Seq<Seq<char>>| build_args_spec(r),
                st,
            ).0;
            occ_of_call(Site::Called, None, classify(shapes_of_args(args3)), shapes_of_args(args3)) == answered::<V>(
                st,
                occ_of_call(Site::Called, None, classify(sh), sh),
            )
        }),
{
    let sh = shapes_of_args(args);
    let dummy = Occ { site: Site::Called, line: None, key: crate::anchor::AnchorKeyV::Letter, run: Seq::empty(), tight: false };
    lemma_answered_small::<V>(st, dummy);
    if let Some(c) = classify(sh) {
        if let Some(evo) = run_at(c, sh) {
            let o = Occ { site: Site::Called, line: None, key: c.key, run: evo, tight: crate::walker::empty_keeps(c, sh) };
            lemma_answered_small::<V>(st, o);
            let p = c.prefix_len;
            let e = run_end_of(c, sh.len() as int);
            match new_run::<V>(st, o) {
                Some(nr) => {
                    if !fits(c.key, nr) {
                        assert(nr =~= Seq::<Seq<char>>::empty());
                    }
                    lemma_run_shapes(nr);
                    lemma_splice_args(args, p, e, build_args_spec(nr));
                    let sh2 = splice(sh, p, e, run_shapes(nr));
                    assert(crate::stability::stays_classified(classify(sh2), c, sh2, nr));
                },
                None => {},
            }
        }
    }
}

proof fn lemma_syscall_stable_under(a: u8, b: u8, sh: Seq<Shape>)
    ensures
        stable_under(|x: Seq<Shape>| classify_spec(a, b, x), sh),
{
    if let Some(c) = classify_spec(a, b, sh) {
        if run_at(c, sh) is Some {
            assert forall|nr: Seq<Seq<char>>| #[trigger] fits(c.key, nr) implies crate::stability::stays_classified(
                classify_spec(a, b, splice(sh, c.prefix_len, run_end_of(c, sh.len() as int), run_shapes(nr))),
                c,
                splice(sh, c.prefix_len, run_end_of(c, sh.len() as int), run_shapes(nr)),
                nr,
            ) by {
                lemma_syscall_stable(a, b, sh, nr);
            }
            if crate::walker::empty_keeps(c, sh) {
                crate::stability::lemma_syscall_empty_stable(a, b, sh);
            }
        }
    }
}

proof fn lemma_named_stable_under(n: crate::ast::NameV, sh: Seq<Shape>)
    ensures
        stable_under(|x: Seq<Shape>| classify_named_spec(n, x), sh),
{
    if let Some(c) = classify_named_spec(n, sh) {
        if run_at(c, sh) is Some {
            assert forall|nr: Seq<Seq<char>>| #[trigger] fits(c.key, nr) implies crate::stability::stays_classified(
                classify_named_spec(n, splice(sh, c.prefix_len, run_end_of(c, sh.len() as int), run_shapes(nr))),
                c,
                splice(sh, c.prefix_len, run_end_of(c, sh.len() as int), run_shapes(nr)),
                nr,
            ) by {
                lemma_named_stable(n, sh, nr);
            }
        }
    }
}

pub proof fn lemma_rw_expr_occ<V: Visitor>(e: ExprV, st: V::V)
    requires
        fit_along::<V>(st, occ_expr(e)),
    ensures
        occ_expr(rw_expr::<V>(e, st).0) == answered::<V>(st, occ_expr(e)),
    decreases e,
{
    crate::walker::lemma_rw_expr::<V>(e, st);
    let dummy = Occ { site: Site::Body, line: None, key: crate::anchor::AnchorKeyV::Letter, run: Seq::empty(), tight: false };
    lemma_answered_small::<V>(st, dummy);
    match e {
        ExprV::Syscall(l, a, b, args) => {
            let sh0 = shapes_of_exprs(args);
            let oc = occ_of_call(Site::Body, l, classify_spec(a, b, sh0), sh0);
            lemma_answered_append::<V>(st, occ_exprs(args), oc);
            crate::walker::lemma_rw_exprs::<V>(args, st);
            lemma_rw_exprs_occ::<V>(args, st);
            let (args2, st1) = rw_exprs::<V>(args, st);
            lemma_syscall_stable_under(a, b, sh0);
            lemma_visit_occ_exprs::<V>(Site::Body, l, |x: Seq<Shape>| classify_spec(a, b, x), args2, st1);
        },
        ExprV::Call(l, n, args) => {
            let sh0 = shapes_of_exprs(args);
            let oc = occ_of_call(Site::Body, l, classify_named_spec(n, sh0), sh0);
            lemma_answered_append::<V>(st, occ_exprs(args), oc);
            crate::walker::lemma_rw_exprs::<V>(args, st);
            lemma_rw_exprs_occ::<V>(args, st);
            let (args2, st1) = rw_exprs::<V>(args, st);
            lemma_named_stable_under(n, sh0);
            lemma_visit_occ_exprs::<V>(Site::Body, l, |x: Seq<Shape>| classify_named_spec(n, x), args2, st1);
        },
        ExprV::Unop(l, op, inner) => {
            lemma_rw_expr_occ::<V>(*inner, st);
        },
        ExprV::Binop(l, op, x, y) => {
            lemma_answered_append::<V>(st, occ_expr(*x), occ_expr(*y));
            lemma_rw_expr_occ::<V>(*x, st);
            crate::walker::lemma_rw_expr::<V>(*x, st);
            let st1 = rw_expr::<V>(*x, st).1;
            lemma_rw_expr_occ::<V>(*y, st1);
        },
        _ => {},
    }
}

pub proof fn lemma_rw_exprs_occ<V: Visitor>(s: Seq<ExprV>, st: V::V)
    requires
        fit_along::<V>(st, occ_exprs(s)),
    ensures
        occ_exprs(rw_exprs::<V>(s, st).0) == answered::<V>(st, occ_exprs(s)),
    decreases s,
{
    let dummy = Occ { site: Site::Body, line: None, key: crate::anchor::AnchorKeyV::Letter, run: Seq::empty(), tight: false };
    lemma_answered_small::<V>(st, dummy);
    if s.len() > 0 {
        let s0 = s.drop_last();
        let x = s[s.len() - 1];
        lemma_answered_append::<V>(st, occ_exprs(s0), occ_expr(x));
        lemma_rw_exprs_occ::<V>(s0, st);
        crate::walker::lemma_rw_exprs::<V>(s0, st);
        let (init, st1) = rw_exprs::<V>(s0, st);
        lemma_rw_expr_occ::<V>(x, st1);
        let last = rw_expr::<V>(x, st1).0;
        assert(init.push(last).drop_last() =~= init);
    }
}

pub proof fn lemma_rw_stmt_occ<V: Visitor>(s: StmtV, st: V::V)
    requires
        fit_along::<V>(st, occ_stmt(s)),
    ensures
        occ_stmt(rw_stmt::<V>(s, st).0) == answered::<V>(st, occ_stmt(s)),
    decreases s,
{
    let dummy = Occ { site: Site::Body, line: None, key: crate::anchor::AnchorKeyV::Letter, run: Seq::empty(), tight: false };
    lemma_answered_small::<V>(st, dummy);
    match s {
        StmtV::Expr(e) => lemma_rw_expr_occ::<V>(e, st),
        StmtV::Assign(_, _, e) => lemma_rw_expr_occ::<V>(e, st),
        StmtV::Return(_, e) => {
            if let Some(e) = e {
                lemma_rw_expr_occ::<V>(e, st);
            }
        },
        StmtV::PushVar(_, _, e) => {
            if let Some(e) = e {
                lemma_rw_expr_occ::<V>(e, st);
            }
        },
        StmtV::If(l, c, t, els) => {
            let eo = match els {
                Some(e) => occ_stmts(e),
                None => Seq::<Occ>::empty(),
            };
            assert(occ_stmt(s) == occ_expr(c) + occ_stmts(t) + eo);
            lemma_answered_append::<V>(st, occ_expr(c) + occ_stmts(t), eo);
            lemma_answered_append::<V>(st, occ_expr(c), occ_stmts(t));
            crate::walker::lemma_rw_expr::<V>(c, st);
            lemma_rw_expr_occ::<V>(c, st);
            let st1 = rw_expr::<V>(c, st).1;
            lemma_visit_fold_append::<V>(st, occ_expr(c), occ_stmts(t));
            crate::walker::lemma_rw_stmts::<V>(t, st1);
            let st2 = rw_stmts::<V>(t, st1).1;
            lemma_rw_stmts_occ::<V>(t, st1);
            match els {
                Some(e) => {
                    lemma_rw_stmts_occ::<V>(e, st2);
                },
                None => {
                    lemma_answered_small::<V>(st2, dummy);
                    let a = answered::<V>(st, occ_expr(c) + occ_stmts(t));
                    assert(a + Seq::<Occ>::empty() =~= a);
                    let c2 = rw_expr::<V>(c, st).0;
                    let t2 = rw_stmts::<V>(t, st1).0;
                    assert(occ_expr(c2) + occ_stmts(t2) + Seq::<Occ>::empty() =~= occ_expr(c2) + occ_stmts(t2));
                },
            }
        },
        StmtV::While(_, c, b) => {
            lemma_answered_append::<V>(st, occ_expr(c), occ_stmts(b));
            crate::walker::lemma_rw_expr::<V>(c, st);
            lemma_rw_expr_occ::<V>(c, st);
            let st1 = rw_expr::<V>(c, st).1;
            lemma_rw_stmts_occ::<V>(b, st1);
        },
        StmtV::Switch(_, c, arms) => {
            lemma_answered_append::<V>(st, occ_expr(c), occ_arms(arms));
            crate::walker::lemma_rw_expr::<V>(c, st);
            lemma_rw_expr_occ::<V>(c, st);
            let st1 = rw_expr::<V>(c, st).1;
            lemma_rw_arms_occ::<V>(arms, st1);
        },
        StmtV::Block(b) => lemma_rw_stmts_occ::<V>(b, st),
        StmtV::Debug(_, args) => lemma_rw_exprs_occ::<V>(args, st),
        StmtV::Tailcall(_, _, args) => lemma_rw_exprs_occ::<V>(args, st),
        StmtV::Break => {},
        StmtV::Continue => {},
    }
}

pub proof fn lemma_rw_stmts_occ<V: Visitor>(s: Seq<StmtV>, st: V::V)
    requires
        fit_along::<V>(st, occ_stmts(s)),
    ensures
        occ_stmts(rw_stmts::<V>(s, st).0) == answered::<V>(st, occ_stmts(s)),
    decreases s,
{
    let dummy = Occ { site: Site::Body, line: None, key: crate::anchor::AnchorKeyV::Letter, run: Seq::empty(), tight: false };
    lemma_answered_small::<V>(st, dummy);
    if s.len() > 0 {
        let s0 = s.drop_last();
        let x = s[s.len() - 1];
        lemma_answered_append::<V>(st, occ_stmts(s0), occ_stmt(x));
        lemma_rw_stmts_occ::<V>(s0, st);
        crate::walker::lemma_rw_stmts::<V>(s0, st);
        let (init, st1) = rw_stmts::<V>(s0, st);
        lemma_rw_stmt_occ::<V>(x, st1);
        let last = rw_stmt::<V>(x, st1).0;
        assert(init.push(last).drop_last() =~= init);
    }
}

pub proof fn lemma_rw_arms_occ<V: Visitor>(s: Seq<ArmV>, st: V::V)
    requires
        fit_along::<V>(st, occ_arms(s)),
    ensures
        occ_arms(rw_arms::<V>(s, st).0) == answered::<V>(st, occ_arms(s)),
    decreases s,
{
    let dummy = Occ { site: Site::Body, line: None, key: crate::anchor::AnchorKeyV::Letter, run: Seq::empty(), tight: false };
    lemma_answered_small::<V>(st, dummy);
    if s.len() > 0 {
        let s0 = s.drop_last();
        let x = s[s.len() - 1];
        lemma_answered_append::<V>(st, occ_arms(s0), occ_stmts(x.body));
        lemma_rw_arms_occ::<V>(s0, st);
        crate::walker::lemma_rw_arms::<V>(s0, st);
        let (init, st1) = rw_arms::<V>(s0, st);
        lemma_rw_stmts_occ::<V>(x.body, st1);
        let body = rw_stmts::<V>(x.body, st1).0;
        assert(init.push(ArmV { label: x.label, body }).drop_last() =~= init);
    }
}

pub proof fn lemma_rw_calls_occ<V: Visitor>(s: Seq<CallV>, st: V::V)
    requires
        fit_along::<V>(st, occ_calls(s)),
    ensures
        occ_calls(rw_calls::<V>(s, st).0) == answered::<V>(st, occ_calls(s)),
    decreases s.len(),
{
    let dummy = Occ { site: Site::Called, line: None, key: crate::anchor::AnchorKeyV::Letter, run: Seq::empty(), tight: false };
    lemma_answered_small::<V>(st, dummy);
    if s.len() > 0 {
        let s0 = s.drop_last();
        let c = s[s.len() - 1];
        let sh0 = shapes_of_args(c.args);
        let oc = occ_of_call(Site::Called, None, classify_call_spec(c), sh0);
        lemma_answered_append::<V>(st, occ_calls(s0), oc);
        lemma_rw_calls_occ::<V>(s0, st);
        crate::walker::lemma_rw_calls::<V>(s0, st);
        let (init, st1) = rw_calls::<V>(s0, st);
        let c2 = rw_call::<V>(c, st1).0;
        match c.kind {
            CallKindV::Syscall(a, b) => {
                lemma_syscall_stable_under(a, b, sh0);
                lemma_visit_occ_args::<V>(|x: Seq<Shape>| classify_spec(a, b, x), c.args, st1);
            },
            CallKindV::Normal(n) => {
                lemma_named_stable_under(n, sh0);
                lemma_visit_occ_args::<V>(|x: Seq<Shape>| classify_named_spec(n, x), c.args, st1);
            },
            CallKindV::Tailcall(_) => {
                lemma_visit_occ_args::<V>(|x: Seq<Shape>| None, c.args, st1);
            },
        }
        assert(init.push(c2).drop_last() =~= init);
    }
}

// ---------------------------------------------------------------- runs read out of a body

/// Every call of `occs` that holds text fits its key.
pub open spec fn all_fit(occs: Seq<Occ>) -> bool {
    forall|i: int| 0 <= i < occs.len() && (#[trigger] occs[i]).run.len() > 0 ==> fits(occs[i].key, occs[i].run)
}

pub proof fn lemma_all_fit_append(a: Seq<Occ>, b: Seq<Occ>)
    requires
        all_fit(a),
        all_fit(b),
    ensures
        all_fit(a + b),
{
    assert forall|i: int| 0 <= i < (a + b).len() && (#[trigger] (a + b)[i]).run.len() > 0 implies fits(
        (a + b)[i].key,
        (a + b)[i].run,
    ) by {
        if i < a.len() {
            assert((a + b)[i] == a[i]);
        } else {
            assert((a + b)[i] == b[i - a.len()]);
        }
    }
}

proof fn lemma_call_fit_syscall(site: Site, l: Option<u16>, a: u8, b: u8, sh: Seq<Shape>)
    ensures
        all_fit(occ_of_call(site, l, classify_spec(a, b, sh), sh)),
{
    if let Some(c) = classify_spec(a, b, sh) {
        if let Some(r) = run_at(c, sh) {
            if r.len() > 0 {
                crate::stability::lemma_syscall_run_fits(a, b, sh);
            }
            let o = seq![Occ { site, line: l, key: c.key, run: r, tight: crate::walker::empty_keeps(c, sh) }];
            assert(o[0].key == c.key && o[0].run == r);
        }
    }
}

proof fn lemma_call_fit_named(site: Site, l: Option<u16>, n: crate::ast::NameV, sh: Seq<Shape>)
    ensures
        all_fit(occ_of_call(site, l, classify_named_spec(n, sh), sh)),
{
    if let Some(c) = classify_named_spec(n, sh) {
        if let Some(r) = run_at(c, sh) {
            crate::stability::lemma_named_run_fits(n, sh);
            let o = seq![Occ { site, line: l, key: c.key, run: r, tight: crate::walker::empty_keeps(c, sh) }];
            assert(o[0].key == c.key && o[0].run == r);
        }
    }
}

pub proof fn lemma_expr_fit(e: ExprV)
    ensures
        all_fit(occ_expr(e)),
    decreases e,
{
    match e {
        ExprV::Syscall(l, a, b, args) => {
            lemma_exprs_fit(args);
            lemma_call_fit_syscall(Site::Body, l, a, b, shapes_of_exprs(args));
            lemma_all_fit_append(occ_exprs(args), occ_of_call(Site::Body, l, classify_spec(a, b, shapes_of_exprs(args)), shapes_of_exprs(args)));
        },
        ExprV::Call(l, n, args) => {
            lemma_exprs_fit(args);
            lemma_call_fit_named(Site::Body, l, n, shapes_of_exprs(args));
            lemma_all_fit_append(occ_exprs(args), occ_of_call(Site::Body, l, classify_named_spec(n, shapes_of_exprs(args)), shapes_of_exprs(args)));
        },
        ExprV::Unop(_, _, inner) => lemma_expr_fit(*inner),
        ExprV::Binop(_, _, x, y) => {
            lemma_expr_fit(*x);
            lemma_expr_fit(*y);
            lemma_all_fit_append(occ_expr(*x), occ_expr(*y));
        },
        _ => {},
    }
}

pub proof fn lemma_exprs_fit(s: Seq<ExprV>)
    ensures
        all_fit(occ_exprs(s)),
    decreases s,
{
    if s.len() > 0 {
        lemma_exprs_fit(s.drop_last());
        lemma_expr_fit(s[s.len() - 1]);
        lemma_all_fit_append(occ_exprs(s.drop_last()), occ_expr(s[s.len() - 1]));
    }
}

pub proof fn lemma_stmt_fit(s: StmtV)
    ensures
        all_fit(occ_stmt(s)),
    decreases s,
{
    match s {
        StmtV::Expr(e) => lemma_expr_fit(e),
        StmtV::Assign(_, _, e) => lemma_expr_fit(e),
        StmtV::Return(_, e) => {
            if let Some(e) = e {
                lemma_expr_fit(e);
            }
        },
        StmtV::PushVar(_, _, e) => {
            if let Some(e) = e {
                lemma_expr_fit(e);
            }
        },
        StmtV::If(_, c, t, els) => {
            lemma_expr_fit(c);
            lemma_stmts_fit(t);
            lemma_all_fit_append(occ_expr(c), occ_stmts(t));
            match els {
                Some(e) => {
                    lemma_stmts_fit(e);
                    lemma_all_fit_append(occ_expr(c) + occ_stmts(t), occ_stmts(e));
                },
                None => {
                    lemma_all_fit_append(occ_expr(c) + occ_stmts(t), Seq::empty());
                },
            }
        },
        StmtV::While(_, c, b) => {
            lemma_expr_fit(c);
            lemma_stmts_fit(b);
            lemma_all_fit_append(occ_expr(c), occ_stmts(b));
        },
        StmtV::Switch(_, c, arms) => {
            lemma_expr_fit(c);
            lemma_arms_fit(arms);
            lemma_all_fit_append(occ_expr(c), occ_arms(arms));
        },
        StmtV::Block(b) => lemma_stmts_fit(b),
        StmtV::Debug(_, args) => lemma_exprs_fit(args),
        StmtV::Tailcall(_, _, args) => lemma_exprs_fit(args),
        StmtV::Break => {},
        StmtV::Continue => {},
    }
}

pub proof fn lemma_stmts_fit(s: Seq<StmtV>)
    ensures
        all_fit(occ_stmts(s)),
    decreases s,
{
    if s.len() > 0 {
        lemma_stmts_fit(s.drop_last());
        lemma_stmt_fit(s[s.len() - 1]);
        lemma_all_fit_append(occ_stmts(s.drop_last()), occ_stmt(s[s.len() - 1]));
    }
}

pub proof fn lemma_arms_fit(s: Seq<ArmV>)
    ensures
        all_fit(occ_arms(s)),
    decreases s,
{
    if s.len() > 0 {
        lemma_arms_fit(s.drop_last());
        lemma_stmts_fit(s[s.len() - 1].body);
        lemma_all_fit_append(occ_arms(s.drop_last()), occ_stmts(s[s.len() - 1].body));
    }
}

pub proof fn lemma_calls_fit(s: Seq<CallV>)
    ensures
        all_fit(occ_calls(s)),
    decreases s.len(),
{
    if s.len() > 0 {
        lemma_calls_fit(s.drop_last());
        let c = s[s.len() - 1];
        let sh = shapes_of_args(c.args);
        match c.kind {
            CallKindV::Syscall(a, b) => lemma_call_fit_syscall(Site::Called, None, a, b, sh),
            CallKindV::Normal(n) => lemma_call_fit_named(Site::Called, None, n, sh),
            CallKindV::Tailcall(_) => {},
        }
        lemma_all_fit_append(occ_calls(s.drop_last()), occ_of_call(Site::Called, None, classify_call_spec(c), sh));
    }
}


// ---------------------------------------------------------------- voice IDs in a call table

/// Whether a call anchored by `key` with prefix length `p` and argument
/// shapes `sh` carries a voice ID in its prefix.
spec fn voice_in(key: crate::anchor::AnchorKeyV, p: int, sh: Seq<Shape>) -> bool {
    match key {
        crate::anchor::AnchorKeyV::Voiced(_) => true,
        crate::anchor::AnchorKeyV::Portrait { .. } => exists|i: int| 1 <= i < p && voice_marker_at(sh, i),
        crate::anchor::AnchorKeyV::Narration(_) => exists|i: int| 1 <= i < p && voice_marker_at(sh, i),
        crate::anchor::AnchorKeyV::Untagged { .. } => exists|i: int| 1 <= i < p && voice_marker_at(sh, i),
        crate::anchor::AnchorKeyV::Plain => p == 3 && sh.len() > 1 && crate::anchor::int_of(sh[1]) == Some(11i32),
        _ => false,
    }
}

proof fn lemma_voice_in_syscall(a: u8, b: u8, args: Seq<CallArgV>)
    ensures
        call_has_voice_spec(CallV { kind: CallKindV::Syscall(a, b), args }) == match classify_spec(
            a,
            b,
            shapes_of_args(args),
        ) {
            Some(cl) => voice_in(cl.key, cl.prefix_len, shapes_of_args(args)),
            None => false,
        },
{
}

/// Only the prefix, and whether an integer follows it, bear on a voice ID.
proof fn lemma_voice_in_prefix(key: crate::anchor::AnchorKeyV, p: int, sh: Seq<Shape>, sh2: Seq<Shape>)
    requires
        0 <= p <= sh.len(),
        p <= sh2.len(),
        forall|i: int| 0 <= i < p ==> sh2[i] == sh[i],
        p < sh2.len() ==> crate::anchor::int_of(sh2[p]) is None,
        p < sh.len() ==> crate::anchor::int_of(sh[p]) is None,
    ensures
        voice_in(key, p, sh2) == voice_in(key, p, sh),
{
    assert forall|i: int| 1 <= i < p implies voice_marker_at(sh2, i) == voice_marker_at(sh, i) by {
        assert(sh2[i] == sh[i]);
        if i + 1 < p {
            assert(sh2[i + 1] == sh[i + 1]);
        }
    }
    if p > 1 {
        assert(sh2[1] == sh[1]);
    }
    if exists|i: int| 1 <= i < p && voice_marker_at(sh, i) {
        let i = choose|i: int| 1 <= i < p && voice_marker_at(sh, i);
        assert(voice_marker_at(sh2, i));
    }
    if exists|i: int| 1 <= i < p && voice_marker_at(sh2, i) {
        let i = choose|i: int| 1 <= i < p && voice_marker_at(sh2, i);
        assert(voice_marker_at(sh, i));
    }
}

/// Splicing a run that fits its key into a call-table syscall keeps the
/// call's voice ID: the prefix is left alone, and the call keeps its
/// anchor key and prefix length.
proof fn lemma_splice_keeps_voice(a: u8, b: u8, args: Seq<CallArgV>, nr: Seq<Seq<char>>)
    requires
        classify_spec(a, b, shapes_of_args(args)) is Some,
        run_at(classify_spec(a, b, shapes_of_args(args))->0, shapes_of_args(args)) is Some,
        fits(classify_spec(a, b, shapes_of_args(args))->0.key, nr),
    ensures
        ({
            let cl = classify_spec(a, b, shapes_of_args(args))->0;
            let args2 = splice(args, cl.prefix_len, run_end_of(cl, args.len() as int), build_args_spec(nr));
            call_has_voice_spec(CallV { kind: CallKindV::Syscall(a, b), args: args2 }) == call_has_voice_spec(
                CallV { kind: CallKindV::Syscall(a, b), args },
            )
        }),
{
    let sh = shapes_of_args(args);
    let cl = classify_spec(a, b, sh)->0;
    let p = cl.prefix_len;
    let e = run_end_of(cl, sh.len() as int);
    let args2 = splice(args, p, e, build_args_spec(nr));
    lemma_run_shapes(nr);
    lemma_splice_args(args, p, e, build_args_spec(nr));
    let sh2 = splice(sh, p, e, run_shapes(nr));
    assert(shapes_of_args(args2) == sh2);
    lemma_syscall_stable(a, b, sh, nr);
    lemma_syscall_run_start(a, b, sh);
    let cl2 = classify_spec(a, b, sh2)->0;
    assert(cl2.key == cl.key && cl2.prefix_len == p);
    assert(sh2[p] == run_shapes(nr)[0]);
    lemma_voice_in_prefix(cl.key, p, sh, sh2);
    lemma_voice_in_syscall(a, b, args);
    lemma_voice_in_syscall(a, b, args2);
}

/// Emptying the run of a call-table syscall that keeps its place without
/// text keeps the call's voice ID.
proof fn lemma_empty_keeps_voice(a: u8, b: u8, args: Seq<CallArgV>)
    requires
        classify_spec(a, b, shapes_of_args(args)) is Some,
        run_at(classify_spec(a, b, shapes_of_args(args))->0, shapes_of_args(args)) is Some,
        crate::walker::empty_keeps(classify_spec(a, b, shapes_of_args(args))->0, shapes_of_args(args)),
    ensures
        ({
            let cl = classify_spec(a, b, shapes_of_args(args))->0;
            let args2 = splice(
                args,
                cl.prefix_len,
                run_end_of(cl, args.len() as int),
                build_args_spec(Seq::<Seq<char>>::empty()),
            );
            call_has_voice_spec(CallV { kind: CallKindV::Syscall(a, b), args: args2 }) == call_has_voice_spec(
                CallV { kind: CallKindV::Syscall(a, b), args },
            )
        }),
{
    let sh = shapes_of_args(args);
    let cl = classify_spec(a, b, sh)->0;
    let p = cl.prefix_len;
    let e = run_end_of(cl, sh.len() as int);
    let nr = Seq::<Seq<char>>::empty();
    let args2 = splice(args, p, e, build_args_spec(nr));
    lemma_run_shapes(nr);
    lemma_splice_args(args, p, e, build_args_spec(nr));
    let sh2 = splice(sh, p, e, run_shapes(nr));
    assert(shapes_of_args(args2) == sh2);
    crate::stability::lemma_syscall_empty_stable(a, b, sh);
    lemma_syscall_run_start(a, b, sh);
    let cl2 = classify_spec(a, b, sh2)->0;
    assert(cl2.key == cl.key && cl2.prefix_len == p);
    assert(sh2.len() == p);
    lemma_voice_in_prefix(cl.key, p, sh, sh2);
    lemma_voice_in_syscall(a, b, args);
    lemma_voice_in_syscall(a, b, args2);
}

/// A rewritten call-table call keeps its voice ID.
proof fn lemma_rw_call_voice<V: Visitor>(c: CallV, st: V::V)
    requires
        fit_along::<V>(st, occ_of_call(Site::Called, None, classify_call_spec(c), shapes_of_args(c.args))),
    ensures
        call_has_voice_spec(rw_call::<V>(c, st).0) == call_has_voice_spec(c),
{
    let sh = shapes_of_args(c.args);
    if let CallKindV::Syscall(a, b) = c.kind {
        if let Some(cl) = classify_spec(a, b, sh) {
            if let Some(evo) = run_at(cl, sh) {
                let o = Occ { site: Site::Called, line: None, key: cl.key, run: evo, tight: crate::walker::empty_keeps(cl, sh) };
                lemma_answered_small::<V>(st, o);
                assert(occ_of_call(Site::Called, None, classify_call_spec(c), sh) == seq![o]);
                if let Some(nr) = new_run::<V>(st, o) {
                    if fits(cl.key, nr) {
                        lemma_splice_keeps_voice(a, b, c.args, nr);
                    } else {
                        assert(nr =~= Seq::<Seq<char>>::empty());
                        lemma_empty_keeps_voice(a, b, c.args);
                    }
                }
            }
        }
    }
}

/// A rewritten call table has its calls' voice IDs where the table handed
/// in had them.
pub proof fn lemma_rw_calls_voice<V: Visitor>(s: Seq<CallV>, st: V::V)
    requires
        fit_along::<V>(st, occ_calls(s)),
    ensures
        rw_calls::<V>(s, st).0.len() == s.len(),
        forall|i: int| 0 <= i < s.len() ==> call_has_voice_spec(#[trigger] rw_calls::<V>(s, st).0[i])
            == call_has_voice_spec(s[i]),
        raw_calls_have_voice(rw_calls::<V>(s, st).0) == raw_calls_have_voice(s),
    decreases s.len(),
{
    let r = rw_calls::<V>(s, st).0;
    if s.len() > 0 {
        let s0 = s.drop_last();
        let c = s[s.len() - 1];
        let oc = occ_of_call(Site::Called, None, classify_call_spec(c), shapes_of_args(c.args));
        lemma_answered_append::<V>(st, occ_calls(s0), oc);
        lemma_rw_calls_voice::<V>(s0, st);
        crate::walker::lemma_rw_calls::<V>(s0, st);
        let (init, st1) = rw_calls::<V>(s0, st);
        lemma_rw_call_voice::<V>(c, st1);
        assert forall|i: int| 0 <= i < s.len() implies call_has_voice_spec(#[trigger] r[i]) == call_has_voice_spec(
            s[i],
        ) by {
            if i < s0.len() {
                assert(r[i] == init[i]);
                assert(s[i] == s0[i]);
            }
        }
    }
    if raw_calls_have_voice(s) {
        let i = choose|i: int| 0 <= i < s.len() && call_has_voice_spec(#[trigger] s[i]);
        assert(call_has_voice_spec(r[i]));
    }
    if raw_calls_have_voice(r) {
        let i = choose|i: int| 0 <= i < r.len() && call_has_voice_spec(#[trigger] r[i]);
        assert(call_has_voice_spec(s[i]));
    }
}

} // verus!
