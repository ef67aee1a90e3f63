//! Traversal of scene bodies and call tables: every localizable call is
//! handed, in source order, to a visitor, whose answer replaces the call's
//! text run while the arguments around the run stay as they were.

use vstd::prelude::*;
use crate::anchor::{
    AnchorKey, AnchorKeyV, Classification, ClassificationV, class_opt_v, classify_named_call_call,
    classify_named_call_expr, classify_named_spec, classify_spec, classify_syscall_call,
    classify_syscall_expr, shapes_of_args, shapes_of_exprs,
};
use crate::ast::{
    ArmV, Call, CallArg, CallArgV, CallKind, CallKindV, CallV, Expr, ExprV, Stmt, StmtV, SwitchArm,
    arm_v, call_args_v, call_v, calls_v, expr_v, exprs_v, stmt_v, stmts_v,
};
use crate::text_run::{
    TextRun, build_args_spec, build_exprs_spec, build_run_call, build_run_expr, extract_run_call_range,
    extract_run_expr_range, run_of_shapes, run_opt_v, run_v,
};

verus! {

/// Where a call sits: in the function body, or in its call table.
#[derive(Debug, Clone, Copy, PartialEq, Eq, Hash, Structural)]
pub enum Site {
    Body,
    Called,
}

/// Receives each localizable call's text run and may answer a replacement.
pub trait Visitor: View + Sized {
    /// What a visit does: the visitor's next state and its answer.
    spec fn visit_spec(
        state: Self::V,
        site: Site,
        line: Option<u16>,
        key: AnchorKeyV,
        run: Seq<Seq<char>>,
    ) -> (Self::V, Option<Seq<Seq<char>>>);

    fn on_syscall(&mut self, site: Site, line: Option<u16>, key: &AnchorKey, evo_run: &TextRun) -> (r:
        Option<TextRun>)
        ensures
            final(self)@ == Self::visit_spec(old(self)@, site, line, key@, run_v(evo_run@)).0,
            run_opt_v(r) == Self::visit_spec(old(self)@, site, line, key@, run_v(evo_run@)).1,
    ;
}

/// A localizable call as the traversal meets it.
pub struct Occ {
    pub site: Site,
    pub line: Option<u16>,
    pub key: AnchorKeyV,
    pub run: Seq<Seq<char>>,
    /// The call keeps its place, with no text, when its run is emptied.
    pub tight: bool,
}

/// Whether a call classified `c`, with argument shapes `sh`, stays a
/// localizable call with no text when its run is emptied: a portrait call
/// whose text starts right after the portrait tag.
pub open spec fn empty_keeps(c: ClassificationV, sh: Seq<crate::anchor::Shape>) -> bool {
    &&& c.key is Portrait
    &&& 1 <= c.prefix_len <= sh.len()
    &&& crate::anchor::is_portrait(sh[c.prefix_len - 1])
}

/// `s` with `s[p..e]` replaced by `mid`.
pub open spec fn splice<A>(s: Seq<A>, p: int, e: int, mid: Seq<A>) -> Seq<A> {
    s.take(p) + mid + s.skip(e)
}

/// Where a classified call's text run ends.
pub open spec fn run_end_of(cls: ClassificationV, len: int) -> int {
    match cls.run_len {
        Some(n) => cls.prefix_len + n,
        None => len,
    }
}

/// The text run of a call with classification `cls` and argument shapes
/// `sh`, when the run's bounds fit and its arguments spell a run.
pub open spec fn run_at(cls: ClassificationV, sh: Seq<crate::anchor::Shape>) -> Option<Seq<Seq<char>>> {
    let p = cls.prefix_len;
    let e = run_end_of(cls, sh.len() as int);
    if 0 <= p <= e <= sh.len() {
        run_of_shapes(sh.subrange(p, e))
    } else {
        None
    }
}

/// The localizable occurrence of one call, if any.
pub open spec fn occ_of_call(
    site: Site,
    line: Option<u16>,
    cls: Option<ClassificationV>,
    sh: Seq<crate::anchor::Shape>,
) -> Seq<Occ> {
    match cls {
        Some(c) => match run_at(c, sh) {
            Some(r) => seq![Occ { site, line, key: c.key, run: r, tight: empty_keeps(c, sh) }],
            None => Seq::empty(),
        },
        None => Seq::empty(),
    }
}

/// Localizable occurrences of an expression, in traversal order (a call's
/// arguments before the call itself).
pub open spec fn occ_expr(e: ExprV) -> Seq<Occ>
    decreases e,
{
    match e {
        ExprV::Syscall(l, a, b, args) => occ_exprs(args) + occ_of_call(
            Site::Body,
            l,
            classify_spec(a, b, shapes_of_exprs(args)),
            shapes_of_exprs(args),
        ),
        ExprV::Call(l, n, args) => occ_exprs(args) + occ_of_call(
            Site::Body,
            l,
            classify_named_spec(n, shapes_of_exprs(args)),
            shapes_of_exprs(args),
        ),
        ExprV::Unop(_, _, inner) => occ_expr(*inner),
        ExprV::Binop(_, _, x, y) => occ_expr(*x) + occ_expr(*y),
        _ => Seq::empty(),
    }
}

pub open spec fn occ_exprs(s: Seq<ExprV>) -> Seq<Occ>
    decreases s,
{
    if s.len() == 0 {
        Seq::empty()
    } else {
        occ_exprs(s.drop_last()) + occ_expr(s[s.len() - 1])
    }
}

pub open spec fn occ_stmt(s: StmtV) -> Seq<Occ>
    decreases s,
{
    match s {
        StmtV::Expr(e) => occ_expr(e),
        StmtV::Assign(_, _, e) => occ_expr(e),
        StmtV::Return(_, e) => match e {
            Some(e) => occ_expr(e),
            None => Seq::empty(),
        },
        StmtV::PushVar(_, _, e) => match e {
            Some(e) => occ_expr(e),
            None => Seq::empty(),
        },
        StmtV::If(_, c, t, els) => occ_expr(c) + occ_stmts(t) + match els {
            Some(e) => occ_stmts(e),
            None => Seq::empty(),
        },
        StmtV::While(_, c, b) => occ_expr(c) + occ_stmts(b),
        StmtV::Switch(_, c, arms) => occ_expr(c) + occ_arms(arms),
        StmtV::Block(b) => occ_stmts(b),
        StmtV::Debug(_, args) => occ_exprs(args),
        StmtV::Tailcall(_, _, args) => occ_exprs(args),
        StmtV::Break => Seq::empty(),
        StmtV::Continue => Seq::empty(),
    }
}

pub open spec fn occ_stmts(s: Seq<StmtV>) -> Seq<Occ>
    decreases s,
{
    if s.len() == 0 {
        Seq::empty()
    } else {
        occ_stmts(s.drop_last()) + occ_stmt(s[s.len() - 1])
    }
}

pub open spec fn occ_arms(s: Seq<ArmV>) -> Seq<Occ>
    decreases s,
{
    if s.len() == 0 {
        Seq::empty()
    } else {
        occ_arms(s.drop_last()) + occ_stmts(s[s.len() - 1].body)
    }
}

/// The classification of a call-table entry.
pub open spec fn classify_call_spec(c: CallV) -> Option<ClassificationV> {
    match c.kind {
        CallKindV::Syscall(a, b) => classify_spec(a, b, shapes_of_args(c.args)),
        CallKindV::Normal(n) => classify_named_spec(n, shapes_of_args(c.args)),
        CallKindV::Tailcall(_) => None,
    }
}

/// Localizable occurrences of a call table, in order.
pub open spec fn occ_calls(s: Seq<CallV>) -> Seq<Occ>
    decreases s.len(),
{
    if s.len() == 0 {
        Seq::empty()
    } else {
        occ_calls(s.drop_last()) + occ_of_call(
            Site::Called,
            None,
            classify_call_spec(s[s.len() - 1]),
            shapes_of_args(s[s.len() - 1].args),
        )
    }
}

/// One visit of a call whose arguments are `args` (of shapes `sh`): the
/// visitor sees the call's run; a different answer is spelled in its place.
pub open spec fn visit_args<V: Visitor, A>(
    site: Site,
    line: Option<u16>,
    cls: Option<ClassificationV>,
    args: Seq<A>,
    sh: Seq<crate::anchor::Shape>,
    built: spec_fn(Seq<Seq<char>>) -> Seq<A>,
    st: V::V,
) -> (Seq<A>, V::V) {
    match cls {
        None => (args, st),
        Some(c) => match run_at(c, sh) {
            None => (args, st),
            Some(evo) => {
                let (st2, answer) = V::visit_spec(st, site, line, c.key, evo);
                match answer {
                    Some(nr) => if nr != evo {
                        (splice(args, c.prefix_len, run_end_of(c, args.len() as int), built(nr)), st2)
                    } else {
                        (args, st2)
                    },
                    None => (args, st2),
                }
            },
        },
    }
}

pub open spec fn rw_expr<V: Visitor>(e: ExprV, st: V::V) -> (ExprV, V::V)
    decreases e,
{
    match e {
        ExprV::Syscall(l, a, b, args) => {
            let (args2, st1) = rw_exprs::<V>(args, st);
            let sh = shapes_of_exprs(args2);
            let (args3, st2) = visit_args::<V, ExprV>(
                Site::Body,
                l,
                classify_spec(a, b, sh),
                args2,
                sh,
                |r: Seq<Seq<char>>| build_exprs_spec(r),
                st1,
            );
            (ExprV::Syscall(l, a, b, args3), st2)
        },
        ExprV::Call(l, n, args) => {
            let (args2, st1) = rw_exprs::<V>(args, st);
            let sh = shapes_of_exprs(args2);
            let (args3, st2) = visit_args::<V, ExprV>(
                Site::Body,
                l,
                classify_named_spec(n, sh),
                args2,
                sh,
                |r: Seq<Seq<char>>| build_exprs_spec(r),
                st1,
            );
            (ExprV::Call(l, n, args3), st2)
        },
        ExprV::Unop(l, op, inner) => {
            let (i2, st1) = rw_expr::<V>(*inner, st);
            (ExprV::Unop(l, op, Box::new(i2)), st1)
        },
        ExprV::Binop(l, op, x, y) => {
            let (x2, st1) = rw_expr::<V>(*x, st);
            let (y2, st2) = rw_expr::<V>(*y, st1);
            (ExprV::Binop(l, op, Box::new(x2), Box::new(y2)), st2)
        },
        _ => (e, st),
    }
}

pub open spec fn rw_exprs<V: Visitor>(s: Seq<ExprV>, st: V::V) -> (Seq<ExprV>, V::V)
    decreases s,
{
    if s.len() == 0 {
        (s, st)
    } else {
        let (init, st1) = rw_exprs::<V>(s.drop_last(), st);
        let (last, st2) = rw_expr::<V>(s[s.len() - 1], st1);
        (init.push(last), st2)
    }
}

pub open spec fn rw_stmt<V: Visitor>(s: StmtV, st: V::V) -> (StmtV, V::V)
    decreases s,
{
    match s {
        StmtV::Expr(e) => {
            let (e2, st1) = rw_expr::<V>(e, st);
            (StmtV::Expr(e2), st1)
        },
        StmtV::Assign(l, p, e) => {
            let (e2, st1) = rw_expr::<V>(e, st);
            (StmtV::Assign(l, p, e2), st1)
        },
        StmtV::Return(l, e) => match e {
            Some(e) => {
                let (e2, st1) = rw_expr::<V>(e, st);
                (StmtV::Return(l, Some(e2)), st1)
            },
            None => (s, st),
        },
        StmtV::PushVar(l, h, e) => match e {
            Some(e) => {
                let (e2, st1) = rw_expr::<V>(e, st);
                (StmtV::PushVar(l, h, Some(e2)), st1)
            },
            None => (s, st),
        },
        StmtV::If(l, c, t, els) => {
            let (c2, st1) = rw_expr::<V>(c, st);
            let (t2, st2) = rw_stmts::<V>(t, st1);
            match els {
                Some(e) => {
                    let (e2, st3) = rw_stmts::<V>(e, st2);
                    (StmtV::If(l, c2, t2, Some(e2)), st3)
                },
                None => (StmtV::If(l, c2, t2, None), st2),
            }
        },
        StmtV::While(l, c, b) => {
            let (c2, st1) = rw_expr::<V>(c, st);
            let (b2, st2) = rw_stmts::<V>(b, st1);
            (StmtV::While(l, c2, b2), st2)
        },
        StmtV::Switch(l, c, arms) => {
            let (c2, st1) = rw_expr::<V>(c, st);
            let (arms2, st2) = rw_arms::<V>(arms, st1);
            (StmtV::Switch(l, c2, arms2), st2)
        },
        StmtV::Block(b) => {
            let (b2, st1) = rw_stmts::<V>(b, st);
            (StmtV::Block(b2), st1)
        },
        StmtV::Debug(l, args) => {
            let (a2, st1) = rw_exprs::<V>(args, st);
            (StmtV::Debug(l, a2), st1)
        },
        StmtV::Tailcall(l, n, args) => {
            let (a2, st1) = rw_exprs::<V>(args, st);
            (StmtV::Tailcall(l, n, a2), st1)
        },
        StmtV::Break => (s, st),
        StmtV::Continue => (s, st),
    }
}

pub open spec fn rw_stmts<V: Visitor>(s: Seq<StmtV>, st: V::V) -> (Seq<StmtV>, V::V)
    decreases s,
{
    if s.len() == 0 {
        (s, st)
    } else {
        let (init, st1) = rw_stmts::<V>(s.drop_last(), st);
        let (last, st2) = rw_stmt::<V>(s[s.len() - 1], st1);
        (init.push(last), st2)
    }
}

pub open spec fn rw_arms<V: Visitor>(s: Seq<ArmV>, st: V::V) -> (Seq<ArmV>, V::V)
    decreases s,
{
    if s.len() == 0 {
        (s, st)
    } else {
        let (init, st1) = rw_arms::<V>(s.drop_last(), st);
        let (body, st2) = rw_stmts::<V>(s[s.len() - 1].body, st1);
        (init.push(ArmV { label: s[s.len() - 1].label, body }), st2)
    }
}

pub open spec fn rw_call<V: Visitor>(c: CallV, st: V::V) -> (CallV, V::V) {
    let (args2, st1) = visit_args::<V, CallArgV>(
        Site::Called,
        None,
        classify_call_spec(c),
        c.args,
        shapes_of_args(c.args),
        |r: Seq<Seq<char>>| build_args_spec(r),
        st,
    );
    (CallV { kind: c.kind, args: args2 }, st1)
}

pub open spec fn rw_calls<V: Visitor>(s: Seq<CallV>, st: V::V) -> (Seq<CallV>, V::V)
    decreases s.len(),
{
    if s.len() == 0 {
        (s, st)
    } else {
        let (init, st1) = rw_calls::<V>(s.drop_last(), st);
        let (last, st2) = rw_call::<V>(s[s.len() - 1], st1);
        (init.push(last), st2)
    }
}

/// Whether two runs hold the same strings.
pub fn run_eq(a: &TextRun, b: &TextRun) -> (r: bool)
    ensures
        r == (run_v(a@) == run_v(b@)),
{
    if a.len() != b.len() {
        assert(run_v(a@).len() != run_v(b@).len());
        return false;
    }
    let mut i: usize = 0;
    while i < a.len()
        invariant
            0 <= i <= a@.len(),
            a@.len() == b@.len(),
            forall|k: int| 0 <= k < i ==> (#[trigger] a@[k])@ == b@[k]@,
        decreases a@.len() - i,
    {
        if a[i] != b[i] {
            assert(run_v(a@)[i as int] != run_v(b@)[i as int]);
            return false;
        }
        i += 1;
    }
    assert(run_v(a@) =~= run_v(b@));
    true
}

/// Visit one body call: read its run, ask the visitor, and spell a different
/// answer in place of the run.
fn visit_expr_call<V: Visitor>(
    site: Site,
    line: Option<u16>,
    cls: Option<Classification>,
    args: &mut Vec<Expr>,
    v: &mut V,
)
    ensures
        (exprs_v(final(args)@), final(v)@) == visit_args::<V, ExprV>(
            site,
            line,
            class_opt_v(cls),
            exprs_v(old(args)@),
            shapes_of_exprs(exprs_v(old(args)@)),
            |r: Seq<Seq<char>>| build_exprs_spec(r),
            old(v)@,
        ),
{
    let ghost sh = shapes_of_exprs(exprs_v(args@));
    let cls = match cls {
        Some(c) => c,
        None => return,
    };
    let p = cls.prefix_len;
    let e = match cls.run_len {
        Some(n) => {
            if n > args.len() || p > args.len() - n {
                return;
            }
            p + n
        },
        None => args.len(),
    };
    if p > e {
        return;
    }
    let evo_run = match extract_run_expr_range(args.as_slice(), p, e) {
        Some(r) => r,
        None => return,
    };
    let answer = v.on_syscall(site, line, &cls.key, &evo_run);
    if let Some(new_run) = answer {
        if !run_eq(&new_run, &evo_run) {
            let ghost before = exprs_v(args@);
            let mut tail = args.split_off(e);
            args.truncate(p);
            let mut built = build_run_expr(&new_run);
            let ghost kept = args@;
            let ghost mid = built@;
            let ghost rest = tail@;
            args.append(&mut built);
            args.append(&mut tail);
            assert(args@ == kept + mid + rest);
            assert(exprs_v(args@) =~= splice(before, p as int, e as int, build_exprs_spec(run_v(new_run@)))) by {
                assert(exprs_v(mid) == build_exprs_spec(run_v(new_run@)));
                assert forall|k: int| 0 <= k < args@.len() implies #[trigger] exprs_v(args@)[k] == splice(
                    before,
                    p as int,
                    e as int,
                    build_exprs_spec(run_v(new_run@)),
                )[k] by {
                    if k < p {
                    } else if k < p + mid.len() {
                        assert(exprs_v(mid)[k - p] == expr_v(mid[k - p]));
                    } else {
                    }
                }
            }
        }
    }
}

/// Visit one call-table entry's arguments.
fn visit_call_entry<V: Visitor>(
    cls: Option<Classification>,
    args: &mut Vec<CallArg>,
    v: &mut V,
)
    ensures
        (call_args_v(final(args)@), final(v)@) == visit_args::<V, CallArgV>(
            Site::Called,
            None,
            class_opt_v(cls),
            call_args_v(old(args)@),
            shapes_of_args(call_args_v(old(args)@)),
            |r: Seq<Seq<char>>| build_args_spec(r),
            old(v)@,
        ),
{
    let ghost sh = shapes_of_args(call_args_v(args@));
    let cls = match cls {
        Some(c) => c,
        None => return,
    };
    let p = cls.prefix_len;
    let e = match cls.run_len {
        Some(n) => {
            if n > args.len() || p > args.len() - n {
                return;
            }
            p + n
        },
        None => args.len(),
    };
    if p > e {
        return;
    }
    let evo_run = match extract_run_call_range(args.as_slice(), p, e) {
        Some(r) => r,
        None => return,
    };
    let answer = v.on_syscall(Site::Called, None, &cls.key, &evo_run);
    if let Some(new_run) = answer {
        if !run_eq(&new_run, &evo_run) {
            let ghost before = call_args_v(args@);
            let mut tail = args.split_off(e);
            args.truncate(p);
            let mut built = build_run_call(&new_run);
            let ghost kept = args@;
            let ghost mid = built@;
            let ghost rest = tail@;
            args.append(&mut built);
            args.append(&mut tail);
            assert(args@ == kept + mid + rest);
            assert(call_args_v(args@) =~= splice(before, p as int, e as int, build_args_spec(run_v(new_run@)))) by {
                assert(call_args_v(mid) == build_args_spec(run_v(new_run@)));
                assert forall|k: int| 0 <= k < args@.len() implies #[trigger] call_args_v(args@)[k] == splice(
                    before,
                    p as int,
                    e as int,
                    build_args_spec(run_v(new_run@)),
                )[k] by {
                    if k < p {
                    } else if k < p + mid.len() {
                        assert(call_args_v(mid)[k - p] == crate::ast::call_arg_v(mid[k - p]));
                    } else {
                    }
                }
            }
        }
    }
}

fn rewrite_expr<V: Visitor>(expr: &mut Expr, v: &mut V)
    ensures
        (expr_v(*final(expr)), final(v)@) == rw_expr::<V>(expr_v(*old(expr)), old(v)@),
    decreases *old(expr),
{
    match expr {
        Expr::Syscall(line, a, b, args) => {
            rewrite_exprs(args, v);
            let cls = classify_syscall_expr(*a, *b, args.as_slice());
            visit_expr_call(Site::Body, *line, cls, args, v);
        },
        Expr::Call(line, name, args) => {
            rewrite_exprs(args, v);
            let cls = classify_named_call_expr(name, args.as_slice());
            visit_expr_call(Site::Body, *line, cls, args, v);
        },
        Expr::Unop(_, _, inner) => {
            rewrite_expr(&mut **inner, v);
        },
        Expr::Binop(_, _, x, y) => {
            rewrite_expr(&mut **x, v);
            rewrite_expr(&mut **y, v);
        },
        _ => {},
    }
}

fn rewrite_exprs<V: Visitor>(args: &mut Vec<Expr>, v: &mut V)
    ensures
        (exprs_v(final(args)@), final(v)@) == rw_exprs::<V>(exprs_v(old(args)@), old(v)@),
    decreases *old(args),
{
    let ghost v0 = v@;
    let mut i: usize = 0;
    while i < args.len()
        invariant
            args@.len() == old(args)@.len(),
            0 <= i <= args@.len(),
            forall|k: int| i <= k < args@.len() ==> #[trigger] args@[k] == old(args)@[k],
            (exprs_v(args@).take(i as int), v@) == rw_exprs::<V>(exprs_v(old(args)@).take(i as int), v0),
        decreases args@.len() - i,
    {
        let ghost prev = args@;
        let ghost vprev = v@;
        proof {
            vstd::std_specs::vec::axiom_vec_index_decreases(*old(args), i as int);
        }
        rewrite_expr(&mut args[i], v);
        proof {
            let t1 = exprs_v(old(args)@).take(i + 1);
            assert(t1.drop_last() =~= exprs_v(old(args)@).take(i as int));
            assert(exprs_v(args@).take(i + 1) =~= exprs_v(prev).take(i as int).push(expr_v(args@[i as int])));
        }
        i += 1;
    }
    assert(exprs_v(args@).take(args@.len() as int) =~= exprs_v(args@));
    assert(exprs_v(old(args)@).take(args@.len() as int) =~= exprs_v(old(args)@));
}

fn rewrite_stmt<V: Visitor>(stmt: &mut Stmt, v: &mut V)
    ensures
        (stmt_v(*final(stmt)), final(v)@) == rw_stmt::<V>(stmt_v(*old(stmt)), old(v)@),
    decreases *old(stmt),
{
    match stmt {
        Stmt::Expr(e) => {
            rewrite_expr(e, v);
        },
        Stmt::Assign(_, _, e) => {
            rewrite_expr(e, v);
        },
        Stmt::Return(_, e) => {
            if let Some(e) = e {
                rewrite_expr(e, v);
            }
        },
        Stmt::PushVar(_, _, e) => {
            if let Some(e) = e {
                rewrite_expr(e, v);
            }
        },
        Stmt::If(_, c, t, els) => {
            rewrite_expr(c, v);
            rewrite_stmts(t, v);
            if let Some(e) = els {
                rewrite_stmts(e, v);
            }
        },
        Stmt::While(_, c, b) => {
            rewrite_expr(c, v);
            rewrite_stmts(b, v);
        },
        Stmt::Switch(_, c, arms) => {
            rewrite_expr(c, v);
            rewrite_arms(arms, v);
        },
        Stmt::Block(b) => {
            rewrite_stmts(b, v);
        },
        Stmt::Debug(_, args) => {
            rewrite_exprs(args, v);
        },
        Stmt::Tailcall(_, _, args) => {
            rewrite_exprs(args, v);
        },
        Stmt::Break => {},
        Stmt::Continue => {},
    }
}

fn rewrite_stmts<V: Visitor>(stmts: &mut Vec<Stmt>, v: &mut V)
    ensures
        (stmts_v(final(stmts)@), final(v)@) == rw_stmts::<V>(stmts_v(old(stmts)@), old(v)@),
    decreases *old(stmts),
{
    let ghost v0 = v@;
    let mut i: usize = 0;
    while i < stmts.len()
        invariant
            stmts@.len() == old(stmts)@.len(),
            0 <= i <= stmts@.len(),
            forall|k: int| i <= k < stmts@.len() ==> #[trigger] stmts@[k] == old(stmts)@[k],
            (stmts_v(stmts@).take(i as int), v@) == rw_stmts::<V>(stmts_v(old(stmts)@).take(i as int), v0),
        decreases stmts@.len() - i,
    {
        let ghost prev = stmts@;
        proof {
            vstd::std_specs::vec::axiom_vec_index_decreases(*old(stmts), i as int);
        }
        rewrite_stmt(&mut stmts[i], v);
        proof {
            let t1 = stmts_v(old(stmts)@).take(i + 1);
            assert(t1.drop_last() =~= stmts_v(old(stmts)@).take(i as int));
            assert(stmts_v(stmts@).take(i + 1) =~= stmts_v(prev).take(i as int).push(stmt_v(stmts@[i as int])));
        }
        i += 1;
    }
    assert(stmts_v(stmts@).take(stmts@.len() as int) =~= stmts_v(stmts@));
    assert(stmts_v(old(stmts)@).take(stmts@.len() as int) =~= stmts_v(old(stmts)@));
}

fn rewrite_arms<V: Visitor>(arms: &mut Vec<SwitchArm>, v: &mut V)
    ensures
        (crate::ast::arms_v(final(arms)@), final(v)@) == rw_arms::<V>(crate::ast::arms_v(old(arms)@), old(v)@),
    decreases *old(arms),
{
    let ghost v0 = v@;
    let mut i: usize = 0;
    while i < arms.len()
        invariant
            arms@.len() == old(arms)@.len(),
            0 <= i <= arms@.len(),
            forall|k: int| i <= k < arms@.len() ==> #[trigger] arms@[k] == old(arms)@[k],
            (crate::ast::arms_v(arms@).take(i as int), v@) == rw_arms::<V>(
                crate::ast::arms_v(old(arms)@).take(i as int),
                v0,
            ),
        decreases arms@.len() - i,
    {
        let ghost prev = arms@;
        proof {
            vstd::std_specs::vec::axiom_vec_index_decreases(*old(arms), i as int);
            assert(decreases_to!(old(arms)@[i as int] => old(arms)@[i as int].body));
        }
        rewrite_stmts(&mut arms[i].body, v);
        proof {
            let t1 = crate::ast::arms_v(old(arms)@).take(i + 1);
            assert(t1.drop_last() =~= crate::ast::arms_v(old(arms)@).take(i as int));
            assert(crate::ast::arms_v(arms@).take(i + 1) =~= crate::ast::arms_v(prev).take(i as int).push(
                arm_v(arms@[i as int]),
            ));
        }
        i += 1;
    }
    assert(crate::ast::arms_v(arms@).take(arms@.len() as int) =~= crate::ast::arms_v(arms@));
    assert(crate::ast::arms_v(old(arms)@).take(arms@.len() as int) =~= crate::ast::arms_v(old(arms)@));
}

/// Rewrite every localizable call of a tree body, in source order.
pub fn rewrite_body<V: Visitor>(stmts: &mut Vec<Stmt>, visitor: &mut V)
    ensures
        (stmts_v(final(stmts)@), final(visitor)@) == rw_stmts::<V>(stmts_v(old(stmts)@), old(visitor)@),
{
    rewrite_stmts(stmts, visitor);
}

/// Rewrite every localizable entry of a call table, in order.
pub fn rewrite_called<V: Visitor>(calls: &mut Vec<Call>, visitor: &mut V)
    ensures
        (calls_v(final(calls)@), final(visitor)@) == rw_calls::<V>(calls_v(old(calls)@), old(visitor)@),
{
    let ghost v0 = visitor@;
    let mut i: usize = 0;
    while i < calls.len()
        invariant
            calls@.len() == old(calls)@.len(),
            0 <= i <= calls@.len(),
            forall|k: int| i <= k < calls@.len() ==> #[trigger] calls@[k] == old(calls)@[k],
            (calls_v(calls@).take(i as int), visitor@) == rw_calls::<V>(calls_v(old(calls)@).take(i as int), v0),
        decreases calls@.len() - i,
    {
        let ghost prev = calls@;
        let cls = match &calls[i].kind {
            CallKind::Syscall(_, _) => classify_syscall_call(&calls[i].kind, calls[i].args.as_slice()),
            CallKind::Normal(name) => classify_named_call_call(name, calls[i].args.as_slice()),
            CallKind::Tailcall(_) => None,
        };
        visit_call_entry(cls, &mut calls[i].args, visitor);
        proof {
            let t1 = calls_v(old(calls)@).take(i + 1);
            assert(t1.drop_last() =~= calls_v(old(calls)@).take(i as int));
            assert(calls_v(calls@).take(i + 1) =~= calls_v(prev).take(i as int).push(call_v(calls@[i as int])));
        }
        i += 1;
    }
    assert(calls_v(calls@).take(calls@.len() as int) =~= calls_v(calls@));
    assert(calls_v(old(calls)@).take(calls@.len() as int) =~= calls_v(old(calls)@));
}

// ---------------------------------------------------------------- laws

/// The visitor's state after visiting `occs` in order.
pub open spec fn visit_fold<V: Visitor>(st: V::V, occs: Seq<Occ>) -> V::V
    decreases occs.len(),
{
    if occs.len() == 0 {
        st
    } else {
        let o = occs[occs.len() - 1];
        V::visit_spec(visit_fold::<V>(st, occs.drop_last()), o.site, o.line, o.key, o.run).0
    }
}

/// The visitor, in state `st`, answers the call `o` with no change.
pub open spec fn quiet_at<V: Visitor>(st: V::V, o: Occ) -> bool {
    let ans = V::visit_spec(st, o.site, o.line, o.key, o.run).1;
    ans is None || ans == Some(o.run)
}

/// Visiting `occs` in order, the visitor answers each with no change.
pub open spec fn quiet_along<V: Visitor>(st: V::V, occs: Seq<Occ>) -> bool
    decreases occs.len(),
{
    if occs.len() == 0 {
        true
    } else {
        quiet_along::<V>(st, occs.drop_last()) && quiet_at::<V>(
            visit_fold::<V>(st, occs.drop_last()),
            occs[occs.len() - 1],
        )
    }
}

pub proof fn lemma_visit_fold_append<V: Visitor>(st: V::V, a: Seq<Occ>, b: Seq<Occ>)
    ensures
        visit_fold::<V>(st, a + b) == visit_fold::<V>(visit_fold::<V>(st, a), b),
        quiet_along::<V>(st, a + b) == (quiet_along::<V>(st, a) && quiet_along::<V>(visit_fold::<V>(st, a), b)),
    decreases b.len(),
{
    if b.len() == 0 {
        assert(a + b =~= a);
    } else {
        lemma_visit_fold_append::<V>(st, a, b.drop_last());
        assert((a + b).drop_last() =~= a + b.drop_last());
        assert((a + b)[(a + b).len() - 1] == b[b.len() - 1]);
    }
}

pub proof fn lemma_visit_fold_small<V: Visitor>(st: V::V, o: Occ)
    ensures
        visit_fold::<V>(st, Seq::empty()) == st,
        quiet_along::<V>(st, Seq::empty()),
        visit_fold::<V>(st, seq![o]) == V::visit_spec(st, o.site, o.line, o.key, o.run).0,
        quiet_along::<V>(st, seq![o]) == quiet_at::<V>(st, o),
{
    let one = seq![o];
    assert(one.drop_last() =~= Seq::<Occ>::empty());
    assert(one[0] == o);
    assert(visit_fold::<V>(st, one.drop_last()) == st);
    assert(quiet_along::<V>(st, one.drop_last()));
    assert(visit_fold::<V>(st, one) == V::visit_spec(visit_fold::<V>(st, one.drop_last()), o.site, o.line, o.key, o.run).0);
}

pub(crate) proof fn lemma_visit_args<V: Visitor, A>(
    site: Site,
    line: Option<u16>,
    cls: Option<ClassificationV>,
    args: Seq<A>,
    sh: Seq<crate::anchor::Shape>,
    built: spec_fn(Seq<Seq<char>>) -> Seq<A>,
    st: V::V,
)
    ensures
        visit_args::<V, A>(site, line, cls, args, sh, built, st).1 == visit_fold::<V>(st, occ_of_call(site, line, cls, sh)),
        quiet_along::<V>(st, occ_of_call(site, line, cls, sh)) ==> visit_args::<V, A>(
            site,
            line,
            cls,
            args,
            sh,
            built,
            st,
        ).0 == args,
{
    if let Some(c) = cls {
        if let Some(r) = run_at(c, sh) {
            lemma_visit_fold_small::<V>(st, Occ { site, line, key: c.key, run: r, tight: empty_keeps(c, sh) });
        }
    }
}

pub(crate) proof fn lemma_rw_expr<V: Visitor>(e: ExprV, st: V::V)
    ensures
        crate::anchor::shape_of_expr(rw_expr::<V>(e, st).0) == crate::anchor::shape_of_expr(e),
        rw_expr::<V>(e, st).1 == visit_fold::<V>(st, occ_expr(e)),
        quiet_along::<V>(st, occ_expr(e)) ==> rw_expr::<V>(e, st).0 == e,
    decreases e,
{
    match e {
        ExprV::Syscall(l, a, b, args) => {
            lemma_rw_exprs::<V>(args, st);
            let (args2, st1) = rw_exprs::<V>(args, st);
            let sh = shapes_of_exprs(args2);
            let oc = occ_of_call(Site::Body, l, classify_spec(a, b, sh), sh);
            lemma_visit_args::<V, ExprV>(
                Site::Body,
                l,
                classify_spec(a, b, sh),
                args2,
                sh,
                |r: Seq<Seq<char>>| build_exprs_spec(r),
                st1,
            );
            lemma_visit_fold_append::<V>(st, occ_exprs(args), oc);
        },
        ExprV::Call(l, n, args) => {
            lemma_rw_exprs::<V>(args, st);
            let (args2, st1) = rw_exprs::<V>(args, st);
            let sh = shapes_of_exprs(args2);
            let oc = occ_of_call(Site::Body, l, classify_named_spec(n, sh), sh);
            lemma_visit_args::<V, ExprV>(
                Site::Body,
                l,
                classify_named_spec(n, sh),
                args2,
                sh,
                |r: Seq<Seq<char>>| build_exprs_spec(r),
                st1,
            );
            lemma_visit_fold_append::<V>(st, occ_exprs(args), oc);
        },
        ExprV::Unop(l, op, inner) => {
            lemma_rw_expr::<V>(*inner, st);
        },
        ExprV::Binop(l, op, x, y) => {
            lemma_rw_expr::<V>(*x, st);
            let st1 = rw_expr::<V>(*x, st).1;
            lemma_rw_expr::<V>(*y, st1);
            lemma_visit_fold_append::<V>(st, occ_expr(*x), occ_expr(*y));
        },
        _ => {
            lemma_visit_fold_small::<V>(st, Occ { site: Site::Body, line: None, key: AnchorKeyV::Letter, run: Seq::empty(), tight: false });
        },
    }
}

pub(crate) proof fn lemma_rw_exprs<V: Visitor>(s: Seq<ExprV>, st: V::V)
    ensures
        rw_exprs::<V>(s, st).0.len() == s.len(),
        shapes_of_exprs(rw_exprs::<V>(s, st).0) == shapes_of_exprs(s),
        rw_exprs::<V>(s, st).1 == visit_fold::<V>(st, occ_exprs(s)),
        quiet_along::<V>(st, occ_exprs(s)) ==> rw_exprs::<V>(s, st).0 == s,
    decreases s,
{
    if s.len() == 0 {
        lemma_visit_fold_small::<V>(st, Occ { site: Site::Body, line: None, key: AnchorKeyV::Letter, run: Seq::empty(), tight: false });
    } else {
        let s0 = s.drop_last();
        let x = s[s.len() - 1];
        lemma_rw_exprs::<V>(s0, st);
        let (init, st1) = rw_exprs::<V>(s0, st);
        lemma_rw_expr::<V>(x, st1);
        let last = rw_expr::<V>(x, st1).0;
        lemma_visit_fold_append::<V>(st, occ_exprs(s0), occ_expr(x));
        assert forall|i: int| 0 <= i < s.len() implies #[trigger] shapes_of_exprs(init.push(last))[i]
            == shapes_of_exprs(s)[i] by {
            if i < s.len() - 1 {
                assert(shapes_of_exprs(init)[i] == shapes_of_exprs(s0)[i]);
            }
        }
        assert(shapes_of_exprs(init.push(last)) =~= shapes_of_exprs(s));
        if quiet_along::<V>(st, occ_exprs(s)) {
            assert(init.push(last) =~= s);
        }
    }
}

pub(crate) proof fn lemma_rw_stmt<V: Visitor>(s: StmtV, st: V::V)
    ensures
        rw_stmt::<V>(s, st).1 == visit_fold::<V>(st, occ_stmt(s)),
        quiet_along::<V>(st, occ_stmt(s)) ==> rw_stmt::<V>(s, st).0 == s,
    decreases s,
{
    let dummy = Occ { site: Site::Body, line: None, key: AnchorKeyV::Letter, run: Seq::empty(), tight: false };
    lemma_visit_fold_small::<V>(st, dummy);
    match s {
        StmtV::Expr(e) => lemma_rw_expr::<V>(e, st),
        StmtV::Assign(_, _, e) => lemma_rw_expr::<V>(e, st),
        StmtV::Return(_, e) => {
            if let Some(e) = e {
                lemma_rw_expr::<V>(e, st);
            }
        },
        StmtV::PushVar(_, _, e) => {
            if let Some(e) = e {
                lemma_rw_expr::<V>(e, st);
            }
        },
        StmtV::If(l, c, t, els) => {
            lemma_rw_expr::<V>(c, st);
            let st1 = rw_expr::<V>(c, st).1;
            lemma_rw_stmts::<V>(t, st1);
            let st2 = rw_stmts::<V>(t, st1).1;
            lemma_visit_fold_append::<V>(st, occ_expr(c), occ_stmts(t));
            match els {
                Some(e) => {
                    lemma_rw_stmts::<V>(e, st2);
                    lemma_visit_fold_append::<V>(st, occ_expr(c) + occ_stmts(t), occ_stmts(e));
                },
                None => {
                    lemma_visit_fold_small::<V>(st2, dummy);
                    lemma_visit_fold_append::<V>(st, occ_expr(c) + occ_stmts(t), Seq::empty());
                },
            }
        },
        StmtV::While(_, c, b) => {
            lemma_rw_expr::<V>(c, st);
            let st1 = rw_expr::<V>(c, st).1;
            lemma_rw_stmts::<V>(b, st1);
            lemma_visit_fold_append::<V>(st, occ_expr(c), occ_stmts(b));
        },
        StmtV::Switch(_, c, arms) => {
            lemma_rw_expr::<V>(c, st);
            let st1 = rw_expr::<V>(c, st).1;
            lemma_rw_arms::<V>(arms, st1);
            lemma_visit_fold_append::<V>(st, occ_expr(c), occ_arms(arms));
        },
        StmtV::Block(b) => lemma_rw_stmts::<V>(b, st),
        StmtV::Debug(_, args) => lemma_rw_exprs::<V>(args, st),
        StmtV::Tailcall(_, _, args) => lemma_rw_exprs::<V>(args, st),
        StmtV::Break => {},
        StmtV::Continue => {},
    }
}

pub(crate) proof fn lemma_rw_stmts<V: Visitor>(s: Seq<StmtV>, st: V::V)
    ensures
        rw_stmts::<V>(s, st).1 == visit_fold::<V>(st, occ_stmts(s)),
        quiet_along::<V>(st, occ_stmts(s)) ==> rw_stmts::<V>(s, st).0 == s,
    decreases s,
{
    if s.len() == 0 {
        lemma_visit_fold_small::<V>(st, Occ { site: Site::Body, line: None, key: AnchorKeyV::Letter, run: Seq::empty(), tight: false });
    } else {
        let s0 = s.drop_last();
        let x = s[s.len() - 1];
        lemma_rw_stmts::<V>(s0, st);
        let (init, st1) = rw_stmts::<V>(s0, st);
        lemma_rw_stmt::<V>(x, st1);
        let last = rw_stmt::<V>(x, st1).0;
        lemma_visit_fold_append::<V>(st, occ_stmts(s0), occ_stmt(x));
        if quiet_along::<V>(st, occ_stmts(s)) {
            assert(init.push(last) =~= s);
        }
    }
}

pub(crate) proof fn lemma_rw_arms<V: Visitor>(s: Seq<ArmV>, st: V::V)
    ensures
        rw_arms::<V>(s, st).1 == visit_fold::<V>(st, occ_arms(s)),
        quiet_along::<V>(st, occ_arms(s)) ==> rw_arms::<V>(s, st).0 == s,
    decreases s,
{
    if s.len() == 0 {
        lemma_visit_fold_small::<V>(st, Occ { site: Site::Body, line: None, key: AnchorKeyV::Letter, run: Seq::empty(), tight: false });
    } else {
        let s0 = s.drop_last();
        let x = s[s.len() - 1];
        lemma_rw_arms::<V>(s0, st);
        let (init, st1) = rw_arms::<V>(s0, st);
        lemma_rw_stmts::<V>(x.body, st1);
        let body = rw_stmts::<V>(x.body, st1).0;
        lemma_visit_fold_append::<V>(st, occ_arms(s0), occ_stmts(x.body));
        if quiet_along::<V>(st, occ_arms(s)) {
            assert(init.push(ArmV { label: x.label, body }) =~= s);
        }
    }
}

pub(crate) proof fn lemma_rw_calls<V: Visitor>(s: Seq<CallV>, st: V::V)
    ensures
        rw_calls::<V>(s, st).1 == visit_fold::<V>(st, occ_calls(s)),
        quiet_along::<V>(st, occ_calls(s)) ==> rw_calls::<V>(s, st).0 == s,
    decreases s.len(),
{
    if s.len() == 0 {
        lemma_visit_fold_small::<V>(st, Occ { site: Site::Body, line: None, key: AnchorKeyV::Letter, run: Seq::empty(), tight: false });
    } else {
        let s0 = s.drop_last();
        let c = s[s.len() - 1];
        lemma_rw_calls::<V>(s0, st);
        let (init, st1) = rw_calls::<V>(s0, st);
        let oc = occ_of_call(Site::Called, None, classify_call_spec(c), shapes_of_args(c.args));
        lemma_visit_args::<V, CallArgV>(
            Site::Called,
            None,
            classify_call_spec(c),
            c.args,
            shapes_of_args(c.args),
            |r: Seq<Seq<char>>| build_args_spec(r),
            st1,
        );
        lemma_visit_fold_append::<V>(st, occ_calls(s0), oc);
        if quiet_along::<V>(st, occ_calls(s)) {
            assert(init.push(rw_call::<V>(c, st1).0) =~= s);
        }
    }
}

/// Rewriting a tree body hands the visitor exactly the body's localizable
/// calls, in source order; and where the visitor answers each with no
/// change, the body comes back as it was.
pub proof fn law_rewrite_body_visits<V: Visitor>(s: Seq<StmtV>, st: V::V)
    ensures
        rw_stmts::<V>(s, st).1 == visit_fold::<V>(st, occ_stmts(s)),
        quiet_along::<V>(st, occ_stmts(s)) ==> rw_stmts::<V>(s, st).0 == s,
{
    lemma_rw_stmts::<V>(s, st);
}

/// Rewriting a call table hands the visitor exactly its localizable
/// entries, in order; and where the visitor answers each with no change,
/// the table comes back as it was.
pub proof fn law_rewrite_called_visits<V: Visitor>(s: Seq<CallV>, st: V::V)
    ensures
        rw_calls::<V>(s, st).1 == visit_fold::<V>(st, occ_calls(s)),
        quiet_along::<V>(st, occ_calls(s)) ==> rw_calls::<V>(s, st).0 == s,
{
    lemma_rw_calls::<V>(s, st);
}

} // verus!
