//! How much of a function the merge can reach: its localizable calls
//! counted by the kind of their anchor, so that the two editions'
//! distributions can be compared function by function.

use vstd::prelude::*;
use crate::anchor::{
    AnchorKey, AnchorKeyV, ClassificationV, class_opt_v, classify_named_call_expr, classify_named_spec,
    classify_spec, classify_syscall_expr, shapes_of_exprs,
};
use crate::ast::{
    ArmV, Body, BodyV, Expr, ExprV, Function, FunctionV, Scena, Stmt, StmtV, SwitchArm, arms_v, expr_v, exprs_v,
    find_fn_from, function_v, scena_v, stmt_v, stmts_v,
};
use crate::swap::{sat_add, sat_add_exec, sat_inc, sat_inc_exec};
use crate::voice::{body_kind, body_kind_spec, sat_nat};
use crate::audit::{digits, push_digits};

verus! {

/// The kind of an anchor key, without its payload.
#[derive(Debug, Clone, Copy, PartialEq, Eq, Hash, Structural)]
pub enum AnchorKind {
    Portrait,
    Untagged,
    Voiced,
    Letter,
    Plain,
    Narration,
    MapName,
    MenuItem,
    DisplayName,
}

pub open spec fn kind_of(k: AnchorKeyV) -> AnchorKind {
    match k {
        AnchorKeyV::Portrait { .. } => AnchorKind::Portrait,
        AnchorKeyV::Untagged { .. } => AnchorKind::Untagged,
        AnchorKeyV::Voiced(_) => AnchorKind::Voiced,
        AnchorKeyV::Letter => AnchorKind::Letter,
        AnchorKeyV::Plain => AnchorKind::Plain,
        AnchorKeyV::Narration(_) => AnchorKind::Narration,
        AnchorKeyV::MapName => AnchorKind::MapName,
        AnchorKeyV::MenuItem => AnchorKind::MenuItem,
        AnchorKeyV::DisplayName { .. } => AnchorKind::DisplayName,
    }
}

impl AnchorKind {
    /// The kind of `key`.
    pub fn from(key: &AnchorKey) -> (r: Self)
        ensures
            r == kind_of(key@),
    {
        match key {
            AnchorKey::Portrait { .. } => AnchorKind::Portrait,
            AnchorKey::Untagged { .. } => AnchorKind::Untagged,
            AnchorKey::Voiced(_) => AnchorKind::Voiced,
            AnchorKey::Letter => AnchorKind::Letter,
            AnchorKey::Plain => AnchorKind::Plain,
            AnchorKey::Narration(_) => AnchorKind::Narration,
            AnchorKey::MapName => AnchorKind::MapName,
            AnchorKey::MenuItem => AnchorKind::MenuItem,
            AnchorKey::DisplayName { .. } => AnchorKind::DisplayName,
        }
    }
}

/// Localizable calls of one function body, by anchor kind (each count held
/// at `usize::MAX`).
#[derive(Debug, Clone, Copy, PartialEq, Eq, Structural)]
pub struct FnCounts {
    pub portrait: usize,
    pub untagged: usize,
    pub voiced: usize,
    pub letter: usize,
    pub plain: usize,
    pub narration: usize,
    pub map_name: usize,
    pub menu_item: usize,
    pub display_name: usize,
    pub total: usize,
}

pub open spec fn counts_zero() -> FnCounts {
    FnCounts {
        portrait: 0,
        untagged: 0,
        voiced: 0,
        letter: 0,
        plain: 0,
        narration: 0,
        map_name: 0,
        menu_item: 0,
        display_name: 0,
        total: 0,
    }
}

/// The counts after one more call of kind `k`.
pub open spec fn bump(c: FnCounts, k: AnchorKind) -> FnCounts {
    let c1 = FnCounts { total: sat_inc(c.total), ..c };
    match k {
        AnchorKind::Portrait => FnCounts { portrait: sat_inc(c.portrait), ..c1 },
        AnchorKind::Untagged => FnCounts { untagged: sat_inc(c.untagged), ..c1 },
        AnchorKind::Voiced => FnCounts { voiced: sat_inc(c.voiced), ..c1 },
        AnchorKind::Letter => FnCounts { letter: sat_inc(c.letter), ..c1 },
        AnchorKind::Plain => FnCounts { plain: sat_inc(c.plain), ..c1 },
        AnchorKind::Narration => FnCounts { narration: sat_inc(c.narration), ..c1 },
        AnchorKind::MapName => FnCounts { map_name: sat_inc(c.map_name), ..c1 },
        AnchorKind::MenuItem => FnCounts { menu_item: sat_inc(c.menu_item), ..c1 },
        AnchorKind::DisplayName => FnCounts { display_name: sat_inc(c.display_name), ..c1 },
    }
}

/// The counts after the calls of kinds `ks`, in order.
pub open spec fn tally(c: FnCounts, ks: Seq<AnchorKind>) -> FnCounts
    decreases ks.len(),
{
    if ks.len() == 0 {
        c
    } else {
        bump(tally(c, ks.drop_last()), ks[ks.len() - 1])
    }
}

proof fn lemma_tally_append(c: FnCounts, a: Seq<AnchorKind>, b: Seq<AnchorKind>)
    ensures
        tally(c, a + b) == tally(tally(c, a), b),
    decreases b.len(),
{
    if b.len() == 0 {
        assert(a + b =~= a);
    } else {
        lemma_tally_append(c, a, b.drop_last());
        assert((a + b).drop_last() =~= a + b.drop_last());
    }
}

proof fn lemma_tally_small(c: FnCounts, k: AnchorKind)
    ensures
        tally(c, Seq::empty()) == c,
        tally(c, seq![k]) == bump(c, k),
{
    assert(seq![k].drop_last() =~= Seq::<AnchorKind>::empty());
}

/// The kind of a classified call, if it is one.
pub open spec fn kinds_of_call(cls: Option<ClassificationV>) -> Seq<AnchorKind> {
    match cls {
        Some(c) => seq![kind_of(c.key)],
        None => Seq::empty(),
    }
}

/// Kinds of the localizable calls of an expression, in traversal order (a
/// call's arguments before the call itself).
pub open spec fn kinds_expr(e: ExprV) -> Seq<AnchorKind>
    decreases e,
{
    match e {
        ExprV::Syscall(_, a, b, args) => kinds_exprs(args) + kinds_of_call(classify_spec(a, b, shapes_of_exprs(args))),
        ExprV::Call(_, n, args) => kinds_exprs(args) + kinds_of_call(classify_named_spec(n, shapes_of_exprs(args))),
        ExprV::Unop(_, _, inner) => kinds_expr(*inner),
        ExprV::Binop(_, _, x, y) => kinds_expr(*x) + kinds_expr(*y),
        _ => Seq::empty(),
    }
}

pub open spec fn kinds_exprs(s: Seq<ExprV>) -> Seq<AnchorKind>
    decreases s,
{
    if s.len() == 0 {
        Seq::empty()
    } else {
        kinds_exprs(s.drop_last()) + kinds_expr(s[s.len() - 1])
    }
}

pub open spec fn kinds_stmt(s: StmtV) -> Seq<AnchorKind>
    decreases s,
{
    match s {
        StmtV::Expr(e) => kinds_expr(e),
        StmtV::Assign(_, _, e) => kinds_expr(e),
        StmtV::Return(_, e) => match e {
            Some(e) => kinds_expr(e),
            None => Seq::empty(),
        },
        StmtV::PushVar(_, _, e) => match e {
            Some(e) => kinds_expr(e),
            None => Seq::empty(),
        },
        StmtV::If(_, c, t, els) => kinds_expr(c) + kinds_stmts(t) + match els {
            Some(e) => kinds_stmts(e),
            None => Seq::empty(),
        },
        StmtV::While(_, c, b) => kinds_expr(c) + kinds_stmts(b),
        StmtV::Switch(_, c, arms) => kinds_expr(c) + kinds_arms(arms),
        StmtV::Block(b) => kinds_stmts(b),
        StmtV::Debug(_, args) => kinds_exprs(args),
        StmtV::Tailcall(_, _, args) => kinds_exprs(args),
        StmtV::Break => Seq::empty(),
        StmtV::Continue => Seq::empty(),
    }
}

pub open spec fn kinds_stmts(s: Seq<StmtV>) -> Seq<AnchorKind>
    decreases s,
{
    if s.len() == 0 {
        Seq::empty()
    } else {
        kinds_stmts(s.drop_last()) + kinds_stmt(s[s.len() - 1])
    }
}

pub open spec fn kinds_arms(s: Seq<ArmV>) -> Seq<AnchorKind>
    decreases s,
{
    if s.len() == 0 {
        Seq::empty()
    } else {
        kinds_arms(s.drop_last()) + kinds_stmts(s[s.len() - 1].body)
    }
}

fn bump_exec(out: &mut FnCounts, k: AnchorKind)
    ensures
        *final(out) == bump(*old(out), k),
{
    out.total = sat_inc_exec(out.total);
    match k {
        AnchorKind::Portrait => out.portrait = sat_inc_exec(out.portrait),
        AnchorKind::Untagged => out.untagged = sat_inc_exec(out.untagged),
        AnchorKind::Voiced => out.voiced = sat_inc_exec(out.voiced),
        AnchorKind::Letter => out.letter = sat_inc_exec(out.letter),
        AnchorKind::Plain => out.plain = sat_inc_exec(out.plain),
        AnchorKind::Narration => out.narration = sat_inc_exec(out.narration),
        AnchorKind::MapName => out.map_name = sat_inc_exec(out.map_name),
        AnchorKind::MenuItem => out.menu_item = sat_inc_exec(out.menu_item),
        AnchorKind::DisplayName => out.display_name = sat_inc_exec(out.display_name),
    }
}

fn count_call(cls: Option<crate::anchor::Classification>, out: &mut FnCounts)
    ensures
        *final(out) == tally(*old(out), kinds_of_call(class_opt_v(cls))),
{
    proof {
        lemma_tally_small(*out, AnchorKind::Letter);
    }
    if let Some(c) = cls {
        proof {
            lemma_tally_small(*out, kind_of(c.key@));
        }
        bump_exec(out, AnchorKind::from(&c.key));
    }
}

fn walk_expr(expr: &Expr, out: &mut FnCounts)
    ensures
        *final(out) == tally(*old(out), kinds_expr(expr_v(*expr))),
    decreases *expr,
{
    let ghost c0 = *out;
    proof {
        lemma_tally_small(c0, AnchorKind::Letter);
    }
    match expr {
        Expr::Syscall(_, a, b, args) => {
            walk_exprs(args, out);
            let cls = classify_syscall_expr(*a, *b, args.as_slice());
            count_call(cls, out);
            proof {
                lemma_tally_append(c0, kinds_exprs(exprs_v(args@)), kinds_of_call(class_opt_v(cls)));
            }
        },
        Expr::Call(_, name, args) => {
            walk_exprs(args, out);
            let cls = classify_named_call_expr(name, args.as_slice());
            count_call(cls, out);
            proof {
                lemma_tally_append(c0, kinds_exprs(exprs_v(args@)), kinds_of_call(class_opt_v(cls)));
            }
        },
        Expr::Unop(_, _, inner) => {
            walk_expr(&**inner, out);
        },
        Expr::Binop(_, _, x, y) => {
            walk_expr(&**x, out);
            walk_expr(&**y, out);
            proof {
                lemma_tally_append(c0, kinds_expr(expr_v(**x)), kinds_expr(expr_v(**y)));
            }
        },
        _ => {},
    }
}

fn walk_exprs(args: &Vec<Expr>, out: &mut FnCounts)
    ensures
        *final(out) == tally(*old(out), kinds_exprs(exprs_v(args@))),
    decreases *args,
{
    let ghost c0 = *out;
    let mut i: usize = 0;
    while i < args.len()
        invariant
            0 <= i <= args@.len(),
            *out == tally(c0, kinds_exprs(exprs_v(args@).take(i as int))),
        decreases args@.len() - i,
    {
        proof {
            vstd::std_specs::vec::axiom_vec_index_decreases(*args, i as int);
        }
        walk_expr(&args[i], out);
        proof {
            let t1 = exprs_v(args@).take(i + 1);
            assert(t1.drop_last() =~= exprs_v(args@).take(i as int));
            lemma_tally_append(c0, kinds_exprs(exprs_v(args@).take(i as int)), kinds_expr(expr_v(args@[i as int])));
        }
        i += 1;
    }
    assert(exprs_v(args@).take(args@.len() as int) =~= exprs_v(args@));
}

fn walk_stmt(stmt: &Stmt, out: &mut FnCounts)
    ensures
        *final(out) == tally(*old(out), kinds_stmt(stmt_v(*stmt))),
    decreases *stmt,
{
    let ghost c0 = *out;
    proof {
        lemma_tally_small(c0, AnchorKind::Letter);
    }
    match stmt {
        Stmt::Expr(e) => walk_expr(e, out),
        Stmt::Assign(_, _, e) => walk_expr(e, out),
        Stmt::Return(_, e) => {
            if let Some(e) = e {
                walk_expr(e, out);
            }
        },
        Stmt::PushVar(_, _, e) => {
            if let Some(e) = e {
                walk_expr(e, out);
            }
        },
        Stmt::If(_, c, t, els) => {
            walk_expr(c, out);
            walk_stmts(t, out);
            proof {
                lemma_tally_append(c0, kinds_expr(expr_v(*c)), kinds_stmts(stmts_v(t@)));
            }
            if let Some(e) = els {
                walk_stmts(e, out);
                proof {
                    lemma_tally_append(
                        c0,
                        kinds_expr(expr_v(*c)) + kinds_stmts(stmts_v(t@)),
                        kinds_stmts(stmts_v(e@)),
                    );
                }
            } else {
                assert(kinds_expr(expr_v(*c)) + kinds_stmts(stmts_v(t@)) + Seq::<AnchorKind>::empty()
                    =~= kinds_expr(expr_v(*c)) + kinds_stmts(stmts_v(t@)));
            }
        },
        Stmt::While(_, c, body) => {
            walk_expr(c, out);
            walk_stmts(body, out);
            proof {
                lemma_tally_append(c0, kinds_expr(expr_v(*c)), kinds_stmts(stmts_v(body@)));
            }
        },
        Stmt::Switch(_, c, arms) => {
            walk_expr(c, out);
            walk_arms(arms, out);
            proof {
                lemma_tally_append(c0, kinds_expr(expr_v(*c)), kinds_arms(arms_v(arms@)));
            }
        },
        Stmt::Block(s) => walk_stmts(s, out),
        Stmt::Debug(_, args) => walk_exprs(args, out),
        Stmt::Tailcall(_, _, args) => walk_exprs(args, out),
        Stmt::Break => {},
        Stmt::Continue => {},
    }
}

fn walk_stmts(stmts: &Vec<Stmt>, out: &mut FnCounts)
    ensures
        *final(out) == tally(*old(out), kinds_stmts(stmts_v(stmts@))),
    decreases *stmts,
{
    let ghost c0 = *out;
    let mut i: usize = 0;
    while i < stmts.len()
        invariant
            0 <= i <= stmts@.len(),
            *out == tally(c0, kinds_stmts(stmts_v(stmts@).take(i as int))),
        decreases stmts@.len() - i,
    {
        proof {
            vstd::std_specs::vec::axiom_vec_index_decreases(*stmts, i as int);
        }
        walk_stmt(&stmts[i], out);
        proof {
            let t1 = stmts_v(stmts@).take(i + 1);
            assert(t1.drop_last() =~= stmts_v(stmts@).take(i as int));
            lemma_tally_append(c0, kinds_stmts(stmts_v(stmts@).take(i as int)), kinds_stmt(stmt_v(stmts@[i as int])));
        }
        i += 1;
    }
    assert(stmts_v(stmts@).take(stmts@.len() as int) =~= stmts_v(stmts@));
}

fn walk_arms(arms: &Vec<SwitchArm>, out: &mut FnCounts)
    ensures
        *final(out) == tally(*old(out), kinds_arms(arms_v(arms@))),
    decreases *arms,
{
    let ghost c0 = *out;
    let mut i: usize = 0;
    while i < arms.len()
        invariant
            0 <= i <= arms@.len(),
            *out == tally(c0, kinds_arms(arms_v(arms@).take(i as int))),
        decreases arms@.len() - i,
    {
        proof {
            vstd::std_specs::vec::axiom_vec_index_decreases(*arms, i as int);
            assert(decreases_to!(arms@[i as int] => arms@[i as int].body));
        }
        walk_stmts(&arms[i].body, out);
        proof {
            let t1 = arms_v(arms@).take(i + 1);
            assert(t1.drop_last() =~= arms_v(arms@).take(i as int));
            lemma_tally_append(c0, kinds_arms(arms_v(arms@).take(i as int)), kinds_stmts(stmts_v(arms@[i as int].body@)));
        }
        i += 1;
    }
    assert(arms_v(arms@).take(arms@.len() as int) =~= arms_v(arms@));
}

/// The counts of a function with a tree body; nothing for any other.
pub open spec fn count_fn_spec(f: FunctionV) -> Option<FnCounts> {
    match f.body {
        BodyV::Tree(s) => Some(tally(counts_zero(), kinds_stmts(s))),
        _ => None,
    }
}

/// Count the localizable calls of a function's tree body by anchor kind;
/// a body that is not a tree cannot be walked and gives nothing.
pub fn count_fn(f: &Function) -> (r: Option<FnCounts>)
    ensures
        r == count_fn_spec(function_v(*f)),
{
    match &f.body {
        Body::Tree(stmts) => {
            let mut out = FnCounts {
                portrait: 0,
                untagged: 0,
                voiced: 0,
                letter: 0,
                plain: 0,
                narration: 0,
                map_name: 0,
                menu_item: 0,
                display_name: 0,
                total: 0,
            };
            walk_stmts(stmts, &mut out);
            Some(out)
        },
        _ => None,
    }
}

/// The distribution of a function's calls over the anchor kinds, as text.
pub open spec fn dist_text(c: FnCounts) -> Seq<char> {
    "Portrait="@ + digits(c.portrait as nat) + ", Untagged="@ + digits(c.untagged as nat) + ", Voiced="@ + digits(
        c.voiced as nat,
    ) + ", Letter="@ + digits(c.letter as nat) + ", Plain="@ + digits(c.plain as nat) + ", Narration="@ + digits(
        c.narration as nat,
    ) + ", MapName="@ + digits(c.map_name as nat) + ", MenuItem="@ + digits(c.menu_item as nat)
        + ", DisplayName="@ + digits(c.display_name as nat)
}

/// The distribution of a function's calls over the anchor kinds, as text.
pub fn fmt_anchor_dist(counts: &FnCounts) -> (r: String)
    ensures
        r@ == dist_text(*counts),
{
    let mut out = String::new();
    out.append("Portrait=");
    push_digits(&mut out, counts.portrait as u64);
    out.append(", Untagged=");
    push_digits(&mut out, counts.untagged as u64);
    out.append(", Voiced=");
    push_digits(&mut out, counts.voiced as u64);
    out.append(", Letter=");
    push_digits(&mut out, counts.letter as u64);
    out.append(", Plain=");
    push_digits(&mut out, counts.plain as u64);
    out.append(", Narration=");
    push_digits(&mut out, counts.narration as u64);
    out.append(", MapName=");
    push_digits(&mut out, counts.map_name as u64);
    out.append(", MenuItem=");
    push_digits(&mut out, counts.menu_item as u64);
    out.append(", DisplayName=");
    push_digits(&mut out, counts.display_name as u64);
    assert(out@ =~= dist_text(*counts));
    out
}


// ---------------------------------------------------------------- comparing two editions

/// What the comparison of two editions flags about one function.
#[derive(Debug, Clone)]
pub enum Finding {
    /// A function with localizable calls that the other edition lacks.
    EvoOnly { function: String, evo_total: usize },
    /// A function whose body in this edition is not a tree.
    EvoBody { function: String, evo_kind: &'static str, xseed_kind: &'static str },
    /// A function whose body in the other edition is not a tree.
    XseedBody { function: String, evo_kind: &'static str, xseed_kind: &'static str },
    /// Tree bodies with different numbers of localizable calls.
    CountDiff { function: String, evo: FnCounts, xseed: FnCounts },
    /// Tree bodies with as many localizable calls, spread differently over
    /// the anchor kinds.
    AnchorDiff { function: String, evo: FnCounts, xseed: FnCounts },
}

pub enum FindingV {
    EvoOnly { function: Seq<char>, evo_total: usize },
    EvoBody { function: Seq<char>, evo_kind: Seq<char>, xseed_kind: Seq<char> },
    XseedBody { function: Seq<char>, evo_kind: Seq<char>, xseed_kind: Seq<char> },
    CountDiff { function: Seq<char>, evo: FnCounts, xseed: FnCounts },
    AnchorDiff { function: Seq<char>, evo: FnCounts, xseed: FnCounts },
}

impl View for Finding {
    type V = FindingV;

    open spec fn view(&self) -> FindingV {
        match self {
            Finding::EvoOnly { function, evo_total } => FindingV::EvoOnly { function: function@, evo_total: *evo_total },
            Finding::EvoBody { function, evo_kind, xseed_kind } => FindingV::EvoBody {
                function: function@,
                evo_kind: evo_kind@,
                xseed_kind: xseed_kind@,
            },
            Finding::XseedBody { function, evo_kind, xseed_kind } => FindingV::XseedBody {
                function: function@,
                evo_kind: evo_kind@,
                xseed_kind: xseed_kind@,
            },
            Finding::CountDiff { function, evo, xseed } => FindingV::CountDiff { function: function@, evo: *evo, xseed: *xseed },
            Finding::AnchorDiff { function, evo, xseed } => FindingV::AnchorDiff {
                function: function@,
                evo: *evo,
                xseed: *xseed,
            },
        }
    }
}

/// The comparison of two editions of a script: the findings, function by
/// function in this edition's order, and their tallies (each held at
/// `usize::MAX`).
#[derive(Debug, Clone)]
pub struct CompareReport {
    pub findings: Vec<Finding>,
    /// Functions with localizable calls that the other edition lacks.
    pub evo_only_fns: usize,
    /// Shared functions whose tree bodies differ in their number of calls.
    pub count_diff_fns: usize,
    /// Shared functions whose tree bodies differ only in their anchor kinds.
    pub anchor_diff_fns: usize,
    /// Shared functions whose body here is not a tree.
    pub non_tree_evo: usize,
    /// Shared functions whose body in the other edition is not a tree.
    pub non_tree_xseed: usize,
    /// Localizable calls of the shared functions with two tree bodies, here.
    pub total_evo_lines: usize,
    /// The same, in the other edition.
    pub total_xseed_lines: usize,
}

pub struct CompareReportV {
    pub findings: Seq<FindingV>,
    pub evo_only_fns: usize,
    pub count_diff_fns: usize,
    pub anchor_diff_fns: usize,
    pub non_tree_evo: usize,
    pub non_tree_xseed: usize,
    pub total_evo_lines: usize,
    pub total_xseed_lines: usize,
}

impl View for CompareReport {
    type V = CompareReportV;

    open spec fn view(&self) -> CompareReportV {
        CompareReportV {
            findings: Seq::new(self.findings@.len(), |i: int| self.findings@[i]@),
            evo_only_fns: self.evo_only_fns,
            count_diff_fns: self.count_diff_fns,
            anchor_diff_fns: self.anchor_diff_fns,
            non_tree_evo: self.non_tree_evo,
            non_tree_xseed: self.non_tree_xseed,
            total_evo_lines: self.total_evo_lines,
            total_xseed_lines: self.total_xseed_lines,
        }
    }
}

pub open spec fn compare_zero() -> CompareReportV {
    CompareReportV {
        findings: Seq::empty(),
        evo_only_fns: 0,
        count_diff_fns: 0,
        anchor_diff_fns: 0,
        non_tree_evo: 0,
        non_tree_xseed: 0,
        total_evo_lines: 0,
        total_xseed_lines: 0,
    }
}

/// One function of this edition, named `name`, compared with its
/// counterpart `x` in the other edition, if there is one. A function
/// without a counterpart is flagged when its tree body has localizable
/// calls; a shared one when either body is not a tree, and, with two tree
/// bodies, when their call counts differ or else their anchor kinds do.
pub open spec fn compare_step(r: CompareReportV, name: Seq<char>, f: FunctionV, x: Option<FunctionV>) -> CompareReportV {
    match x {
        None => match count_fn_spec(f) {
            Some(c) => if c.total > 0 {
                CompareReportV {
                    findings: r.findings.push(FindingV::EvoOnly { function: name, evo_total: c.total }),
                    evo_only_fns: sat_inc(r.evo_only_fns),
                    ..r
                }
            } else {
                r
            },
            None => r,
        },
        Some(xf) => {
            let ek = body_kind_spec(f.body);
            let xk = body_kind_spec(xf.body);
            let r1 = if !(f.body is Tree) {
                CompareReportV {
                    findings: r.findings.push(FindingV::EvoBody { function: name, evo_kind: ek, xseed_kind: xk }),
                    non_tree_evo: sat_inc(r.non_tree_evo),
                    ..r
                }
            } else {
                r
            };
            let r2 = if !(xf.body is Tree) {
                CompareReportV {
                    findings: r1.findings.push(FindingV::XseedBody { function: name, evo_kind: ek, xseed_kind: xk }),
                    non_tree_xseed: sat_inc(r1.non_tree_xseed),
                    ..r1
                }
            } else {
                r1
            };
            match (count_fn_spec(f), count_fn_spec(xf)) {
                (Some(ec), Some(xc)) => {
                    let r3 = CompareReportV {
                        total_evo_lines: sat_add(r2.total_evo_lines, ec.total),
                        total_xseed_lines: sat_add(r2.total_xseed_lines, xc.total),
                        ..r2
                    };
                    if ec.total != xc.total {
                        CompareReportV {
                            findings: r3.findings.push(FindingV::CountDiff { function: name, evo: ec, xseed: xc }),
                            count_diff_fns: sat_inc(r3.count_diff_fns),
                            ..r3
                        }
                    } else if ec != xc {
                        CompareReportV {
                            findings: r3.findings.push(FindingV::AnchorDiff { function: name, evo: ec, xseed: xc }),
                            anchor_diff_fns: sat_inc(r3.anchor_diff_fns),
                            ..r3
                        }
                    } else {
                        r3
                    }
                },
                _ => r2,
            }
        },
    }
}

/// The comparison of the first `n` functions of `evo` with `xs`.
pub open spec fn compare_fold(evo: Seq<(Seq<char>, FunctionV)>, xs: Seq<(Seq<char>, FunctionV)>, n: int) -> CompareReportV
    decreases n,
{
    if n <= 0 {
        compare_zero()
    } else {
        let (name, f) = evo[n - 1];
        compare_step(
            compare_fold(evo, xs, n - 1),
            name,
            f,
            match find_fn_from(xs, 0, name) {
                Some(j) => Some(xs[j].1),
                None => None,
            },
        )
    }
}

/// How many of the calls of kinds `ks` are of kind `k`.
pub open spec fn calls_of_kind(ks: Seq<AnchorKind>, k: AnchorKind) -> nat
    decreases ks.len(),
{
    if ks.len() == 0 {
        0
    } else {
        calls_of_kind(ks.drop_last(), k) + if ks[ks.len() - 1] == k {
            1nat
        } else {
            0nat
        }
    }
}

/// The count that `c` holds for kind `k`.
pub open spec fn count_of_kind(c: FnCounts, k: AnchorKind) -> usize {
    match k {
        AnchorKind::Portrait => c.portrait,
        AnchorKind::Untagged => c.untagged,
        AnchorKind::Voiced => c.voiced,
        AnchorKind::Letter => c.letter,
        AnchorKind::Plain => c.plain,
        AnchorKind::Narration => c.narration,
        AnchorKind::MapName => c.map_name,
        AnchorKind::MenuItem => c.menu_item,
        AnchorKind::DisplayName => c.display_name,
    }
}

/// The counts of a function are its calls counted by kind: for each kind,
/// the number of calls of that kind, and in all, the number of calls (each
/// held at `usize::MAX`).
pub proof fn law_counts_by_kind(ks: Seq<AnchorKind>)
    ensures
        tally(counts_zero(), ks).total == sat_nat(ks.len()),
        forall|k: AnchorKind| #[trigger] count_of_kind(tally(counts_zero(), ks), k) == sat_nat(calls_of_kind(ks, k)),
    decreases ks.len(),
{
    if ks.len() > 0 {
        let pre = ks.drop_last();
        let j = ks[ks.len() - 1];
        let c = tally(counts_zero(), pre);
        law_counts_by_kind(pre);
        assert(tally(counts_zero(), ks) == bump(c, j));
        assert forall|k: AnchorKind| #[trigger] count_of_kind(tally(counts_zero(), ks), k) == sat_nat(
            calls_of_kind(ks, k),
        ) by {
            lemma_bump_kind(c, j, k);
            assert(count_of_kind(c, k) == sat_nat(calls_of_kind(pre, k)));
        }
    }
}

proof fn lemma_bump_kind(c: FnCounts, j: AnchorKind, k: AnchorKind)
    ensures
        count_of_kind(bump(c, j), k) == if j == k {
            sat_inc(count_of_kind(c, k))
        } else {
            count_of_kind(c, k)
        },
        bump(c, j).total == sat_inc(c.total),
{
}

/// Two tree bodies with as many localizable calls are flagged as an anchor
/// difference exactly when, for some anchor kind, they have a different
/// number of calls of that kind (counts held at `usize::MAX`): then the
/// finding is added and tallied, and otherwise the comparison records
/// nothing about them but their totals.
pub proof fn law_anchor_diff(r: CompareReportV, name: Seq<char>, f: FunctionV, xf: FunctionV)
    requires
        f.body is Tree,
        xf.body is Tree,
        kinds_stmts(f.body->Tree_0).len() == kinds_stmts(xf.body->Tree_0).len(),
    ensures
        ({
            let ek = kinds_stmts(f.body->Tree_0);
            let xk = kinds_stmts(xf.body->Tree_0);
            let differs = exists|k: AnchorKind| sat_nat(#[trigger] calls_of_kind(ek, k)) != sat_nat(calls_of_kind(xk, k));
            let s = compare_step(r, name, f, Some(xf));
            let ec = tally(counts_zero(), ek);
            let xc = tally(counts_zero(), xk);
            &&& count_fn_spec(f) == Some(ec)
            &&& count_fn_spec(xf) == Some(xc)
            &&& s.count_diff_fns == r.count_diff_fns
            &&& differs ==> s.findings == r.findings.push(FindingV::AnchorDiff { function: name, evo: ec, xseed: xc })
                && s.anchor_diff_fns == sat_inc(r.anchor_diff_fns)
            &&& !differs ==> s.findings == r.findings && s.anchor_diff_fns == r.anchor_diff_fns
        }),
{
    let ek = kinds_stmts(f.body->Tree_0);
    let xk = kinds_stmts(xf.body->Tree_0);
    law_counts_by_kind(ek);
    law_counts_by_kind(xk);
    let ec = tally(counts_zero(), ek);
    let xc = tally(counts_zero(), xk);
    let differs = exists|k: AnchorKind| sat_nat(#[trigger] calls_of_kind(ek, k)) != sat_nat(calls_of_kind(xk, k));
    if differs {
        let k = choose|k: AnchorKind| sat_nat(#[trigger] calls_of_kind(ek, k)) != sat_nat(calls_of_kind(xk, k));
        assert(count_of_kind(ec, k) != count_of_kind(xc, k));
        assert(ec != xc);
    } else {
        assert(count_of_kind(ec, AnchorKind::Portrait) == count_of_kind(xc, AnchorKind::Portrait));
        assert(count_of_kind(ec, AnchorKind::Untagged) == count_of_kind(xc, AnchorKind::Untagged));
        assert(count_of_kind(ec, AnchorKind::Voiced) == count_of_kind(xc, AnchorKind::Voiced));
        assert(count_of_kind(ec, AnchorKind::Letter) == count_of_kind(xc, AnchorKind::Letter));
        assert(count_of_kind(ec, AnchorKind::Plain) == count_of_kind(xc, AnchorKind::Plain));
        assert(count_of_kind(ec, AnchorKind::Narration) == count_of_kind(xc, AnchorKind::Narration));
        assert(count_of_kind(ec, AnchorKind::MapName) == count_of_kind(xc, AnchorKind::MapName));
        assert(count_of_kind(ec, AnchorKind::MenuItem) == count_of_kind(xc, AnchorKind::MenuItem));
        assert(count_of_kind(ec, AnchorKind::DisplayName) == count_of_kind(xc, AnchorKind::DisplayName));
        assert(ec == xc);
    }
}

/// Two tree bodies with different numbers of localizable calls (each
/// fitting a `usize`) are flagged as a count difference, whatever their
/// anchor kinds, and never as an anchor difference.
pub proof fn law_count_diff(r: CompareReportV, name: Seq<char>, f: FunctionV, xf: FunctionV)
    requires
        f.body is Tree,
        xf.body is Tree,
        kinds_stmts(f.body->Tree_0).len() != kinds_stmts(xf.body->Tree_0).len(),
        kinds_stmts(f.body->Tree_0).len() <= usize::MAX,
        kinds_stmts(xf.body->Tree_0).len() <= usize::MAX,
    ensures
        ({
            let ec = tally(counts_zero(), kinds_stmts(f.body->Tree_0));
            let xc = tally(counts_zero(), kinds_stmts(xf.body->Tree_0));
            let s = compare_step(r, name, f, Some(xf));
            &&& s.findings == r.findings.push(FindingV::CountDiff { function: name, evo: ec, xseed: xc })
            &&& s.count_diff_fns == sat_inc(r.count_diff_fns)
            &&& s.anchor_diff_fns == r.anchor_diff_fns
        }),
{
    law_counts_by_kind(kinds_stmts(f.body->Tree_0));
    law_counts_by_kind(kinds_stmts(xf.body->Tree_0));
}

fn push_finding(out: &mut Vec<Finding>, x: Finding)
    ensures
        final(out)@.len() == old(out)@.len() + 1,
        forall|i: int| 0 <= i < old(out)@.len() ==> (#[trigger] final(out)@[i])@ == old(out)@[i]@,
        final(out)@[old(out)@.len() as int]@ == x@,
{
    out.push(x);
}

/// Compare two editions of a script function by function (see
/// [`compare_step`]), to find what the merge cannot reach.
pub fn compare_scena(evo: &Scena, xseed: &Scena) -> (r: CompareReport)
    ensures
        r@ == compare_fold(scena_v(*evo).functions, scena_v(*xseed).functions, scena_v(*evo).functions.len() as int),
{
    let ghost ev = scena_v(*evo).functions;
    let ghost xv = scena_v(*xseed).functions;
    let mut r = CompareReport {
        findings: Vec::new(),
        evo_only_fns: 0,
        count_diff_fns: 0,
        anchor_diff_fns: 0,
        non_tree_evo: 0,
        non_tree_xseed: 0,
        total_evo_lines: 0,
        total_xseed_lines: 0,
    };
    assert(r@.findings =~= Seq::<FindingV>::empty());
    let mut i: usize = 0;
    while i < evo.functions.len()
        invariant
            0 <= i <= evo.functions@.len(),
            ev == scena_v(*evo).functions,
            xv == scena_v(*xseed).functions,
            ev.len() == evo.functions@.len(),
            r@ == compare_fold(ev, xv, i as int),
        decreases evo.functions@.len() - i,
    {
        let name = &evo.functions[i].0;
        let f = &evo.functions[i].1;
        assert(ev[i as int] == (name@, function_v(*f)));
        let ghost before = r@;
        match xseed.get(name.as_str()) {
            None => {
                if let Some(c) = count_fn(f) {
                    if c.total > 0 {
                        push_finding(&mut r.findings, Finding::EvoOnly { function: name.clone(), evo_total: c.total });
                        r.evo_only_fns = sat_inc_exec(r.evo_only_fns);
                    }
                }
            },
            Some(xf) => {
                let ek = body_kind(&f.body);
                let xk = body_kind(&xf.body);
                if !matches!(f.body, Body::Tree(_)) {
                    push_finding(&mut r.findings, Finding::EvoBody { function: name.clone(), evo_kind: ek, xseed_kind: xk });
                    r.non_tree_evo = sat_inc_exec(r.non_tree_evo);
                }
                if !matches!(xf.body, Body::Tree(_)) {
                    push_finding(&mut r.findings, Finding::XseedBody { function: name.clone(), evo_kind: ek, xseed_kind: xk });
                    r.non_tree_xseed = sat_inc_exec(r.non_tree_xseed);
                }
                if let (Some(ec), Some(xc)) = (count_fn(f), count_fn(xf)) {
                    r.total_evo_lines = sat_add_exec(r.total_evo_lines, ec.total);
                    r.total_xseed_lines = sat_add_exec(r.total_xseed_lines, xc.total);
                    if ec.total != xc.total {
                        push_finding(&mut r.findings, Finding::CountDiff { function: name.clone(), evo: ec, xseed: xc });
                        r.count_diff_fns = sat_inc_exec(r.count_diff_fns);
                    } else if ec != xc {
                        push_finding(&mut r.findings, Finding::AnchorDiff { function: name.clone(), evo: ec, xseed: xc });
                        r.anchor_diff_fns = sat_inc_exec(r.anchor_diff_fns);
                    }
                }
            },
        }
        proof {
            let x = match find_fn_from(xv, 0, name@) {
                Some(j) => Some(xv[j].1),
                None => None,
            };
            let want = compare_step(before, name@, function_v(*f), x);
            assert(r@.findings =~= want.findings);
        }
        i = i + 1;
    }
    r
}

/// The console line of a finding in the file `rel`.
pub open spec fn finding_text(rel: Seq<char>, f: FindingV) -> Seq<char> {
    match f {
        FindingV::EvoOnly { function, evo_total } => "[evo-only fn] "@ + rel + "  "@ + function + "  (evo total="@
            + digits(evo_total as nat) + ")"@,
        FindingV::EvoBody { function, evo_kind, xseed_kind } => "[evo "@ + evo_kind + "] "@ + rel + "  "@ + function
            + "  (xseed="@ + xseed_kind + ")"@,
        FindingV::XseedBody { function, evo_kind, xseed_kind } => "[xseed "@ + xseed_kind + "] "@ + rel + "  "@
            + function + "  (evo="@ + evo_kind + ")"@,
        FindingV::CountDiff { function, evo, xseed } => "[count diff] "@ + rel + "  "@ + function
            + "\n  evo:   total="@ + digits(evo.total as nat) + " ("@ + dist_text(evo) + ")\n  xseed: total="@
            + digits(xseed.total as nat) + " ("@ + dist_text(xseed) + ")"@,
        FindingV::AnchorDiff { function, evo, xseed } => "[anchor diff] "@ + rel + "  "@ + function + "  (total="@
            + digits(evo.total as nat) + ")\n  evo:   "@ + dist_text(evo) + "\n  xseed: "@ + dist_text(xseed),
    }
}

/// The console line of a finding in the file `rel` (see [`finding_text`]).
pub fn fmt_finding(rel: &str, f: &Finding) -> (r: String)
    ensures
        r@ == finding_text(rel@, f@),
{
    let mut out = String::new();
    match f {
        Finding::EvoOnly { function, evo_total } => {
            out.append("[evo-only fn] ");
            out.append(rel);
            out.append("  ");
            out.append(function.as_str());
            out.append("  (evo total=");
            push_digits(&mut out, *evo_total as u64);
            out.append(")");
        },
        Finding::EvoBody { function, evo_kind, xseed_kind } => {
            out.append("[evo ");
            out.append(evo_kind);
            out.append("] ");
            out.append(rel);
            out.append("  ");
            out.append(function.as_str());
            out.append("  (xseed=");
            out.append(xseed_kind);
            out.append(")");
        },
        Finding::XseedBody { function, evo_kind, xseed_kind } => {
            out.append("[xseed ");
            out.append(xseed_kind);
            out.append("] ");
            out.append(rel);
            out.append("  ");
            out.append(function.as_str());
            out.append("  (evo=");
            out.append(evo_kind);
            out.append(")");
        },
        Finding::CountDiff { function, evo, xseed } => {
            out.append("[count diff] ");
            out.append(rel);
            out.append("  ");
            out.append(function.as_str());
            out.append("\n  evo:   total=");
            push_digits(&mut out, evo.total as u64);
            out.append(" (");
            let d = fmt_anchor_dist(evo);
            out.append(d.as_str());
            out.append(")\n  xseed: total=");
            push_digits(&mut out, xseed.total as u64);
            out.append(" (");
            let d2 = fmt_anchor_dist(xseed);
            out.append(d2.as_str());
            out.append(")");
        },
        Finding::AnchorDiff { function, evo, xseed } => {
            out.append("[anchor diff] ");
            out.append(rel);
            out.append("  ");
            out.append(function.as_str());
            out.append("  (total=");
            push_digits(&mut out, evo.total as u64);
            out.append(")\n  evo:   ");
            let d = fmt_anchor_dist(evo);
            out.append(d.as_str());
            out.append("\n  xseed: ");
            let d2 = fmt_anchor_dist(xseed);
            out.append(d2.as_str());
        },
    }
    assert(out@ =~= finding_text(rel@, f@));
    out
}
} // verus!
