//! Voice cues of bodies that could not be decompiled: recovering each
//! dialogue call's `11, V` voice pair from bytecode, and putting it back
//! into a substituted tree at the same position.

use vstd::prelude::*;
use crate::anchor::{
    AnchorKeyV, Shape, classify_generic, classify_spec, classify_syscall_call, int_of, lits_of_values,
    shapes_of_args, shapes_of_values, class_opt_v,
};
use crate::swap::{sat_add, sat_add_exec, sat_inc, sat_inc_exec};
use crate::ast::{
    ArmV, BodyV, Body, Call, CallKindV, CallV, Called, CalledV, Expr, ExprV, Op, OpV, Stmt, StmtV,
    SwitchArm, Value, ValueV, arms_v, calls_v, copy_value, expr_v, exprs_v, ops_v, stmt_v, stmts_v,
    values_v,
};

verus! {

/// A voice pair recovered from bytecode: the `11` marker sits at arg
/// `index`, the voice line `value` after it.
#[derive(Debug, Clone, Copy, PartialEq, Eq)]
pub struct VoiceInsert {
    pub index: usize,
    pub value: i32,
}

/// `n`, held at `usize::MAX`.
pub open spec fn sat_nat(n: nat) -> usize {
    if n <= usize::MAX {
        n as usize
    } else {
        usize::MAX
    }
}

/// An `11` voice marker at `i` with an integer after it.
pub open spec fn voice_marker_at(sh: Seq<Shape>, i: int) -> bool {
    0 <= i && i + 1 < sh.len() && int_of(sh[i]) == Some(11i32) && int_of(sh[i + 1]) is Some
}

/// Whether a call-table syscall carries a voice ID in its preserved prefix.
pub open spec fn call_has_voice_spec(c: CallV) -> bool {
    let sh = shapes_of_args(c.args);
    match c.kind {
        CallKindV::Syscall(a, b) => match classify_spec(a, b, sh) {
            None => false,
            Some(cls) => match cls.key {
                AnchorKeyV::Voiced(_) => true,
                AnchorKeyV::Portrait { .. } => exists|i: int| 1 <= i < cls.prefix_len && voice_marker_at(sh, i),
                AnchorKeyV::Narration(_) => exists|i: int| 1 <= i < cls.prefix_len && voice_marker_at(sh, i),
                AnchorKeyV::Untagged { .. } => exists|i: int|
                    1 <= i < cls.prefix_len && voice_marker_at(sh, i),
                AnchorKeyV::Plain => cls.prefix_len == 3 && sh.len() > 1 && int_of(sh[1]) == Some(11i32),
                _ => false,
            },
        },
        _ => false,
    }
}

/// Whether any of the calls is a syscall with a voice ID.
pub open spec fn raw_calls_have_voice(calls: Seq<CallV>) -> bool {
    exists|i: int| 0 <= i < calls.len() && call_has_voice_spec(#[trigger] calls[i])
}

/// Whether a call table holds any syscall with a voice ID.
pub open spec fn calls_have_voice_spec(c: CalledV) -> bool {
    match c {
        CalledV::Raw(calls) => raw_calls_have_voice(calls),
        CalledV::Merged(_) => false,
    }
}

fn marker_at(lits: &Vec<crate::anchor::Lit>, i: usize) -> (m: bool)
    ensures
        m == voice_marker_at(crate::anchor::lits_v(lits@), i as int),
{
    i < lits.len() && i < lits.len() - 1 && match (&lits[i], &lits[i + 1]) {
        (crate::anchor::Lit::Int(11), crate::anchor::Lit::Int(_)) => true,
        _ => false,
    }
}

#[verifier::loop_isolation(false)]
fn call_has_voice(call: &Call) -> (r: bool)
    ensures
        r == call_has_voice_spec(crate::ast::call_v(*call)),
{
    let cls = match classify_syscall_call(&call.kind, call.args.as_slice()) {
        Some(c) => c,
        None => return false,
    };
    let lits = crate::anchor::lits_of_args(call.args.as_slice());
    let ghost sh = shapes_of_args(crate::ast::call_args_v(call.args@));
    assert(crate::anchor::lits_v(lits@) == sh);
    match cls.key {
        crate::anchor::AnchorKey::Voiced(_) => true,
        crate::anchor::AnchorKey::Plain => {
            cls.prefix_len == 3 && lits.len() > 1 && match &lits[1] {
                crate::anchor::Lit::Int(11) => true,
                _ => false,
            }
        },
        crate::anchor::AnchorKey::Portrait { .. } | crate::anchor::AnchorKey::Narration(_)
        | crate::anchor::AnchorKey::Untagged { .. } => {
            let mut i: usize = 1;
            while i < cls.prefix_len
                invariant
                    1 <= i,
                    crate::anchor::lits_v(lits@) == sh,
                    forall|j: int| 1 <= j < i ==> !voice_marker_at(sh, j),
                decreases cls.prefix_len - i,
            {
                if marker_at(&lits, i) {
                    assert(1 <= i < cls.prefix_len && voice_marker_at(sh, i as int));
                    return true;
                }
                i += 1;
            }
            false
        },
        _ => false,
    }
}

/// Whether the call table carries any voice ID, which a wholesale body
/// substitution would lose.
#[verifier::loop_isolation(false)]
pub fn evo_calls_have_voice_ids(called: &Called) -> (r: bool)
    ensures
        r == calls_have_voice_spec(crate::ast::called_v(*called)),
{
    let calls = match called {
        Called::Raw(calls) => calls,
        Called::Merged(_) => return false,
    };
    let ghost cv = calls_v(calls@);
    let mut i: usize = 0;
    while i < calls.len()
        invariant
            0 <= i <= calls@.len(),
            cv == calls_v(calls@),
            forall|j: int| 0 <= j < i ==> !call_has_voice_spec(#[trigger] cv[j]),
        decreases calls@.len() - i,
    {
        if call_has_voice(&calls[i]) {
            assert(cv[i as int] == crate::ast::call_v(calls@[i as int]));
            assert(call_has_voice_spec(cv[i as int]));
            assert(crate::ast::called_v(*called) == CalledV::Raw(cv));
            assert(raw_calls_have_voice(cv));
            return true;
        }
        i += 1;
    }
    false
}

pub open spec fn body_kind_spec(b: BodyV) -> Seq<char> {
    match b {
        BodyV::Tree(_) => "tree"@,
        BodyV::Flat(_) => "flat"@,
        BodyV::Asm(_) => "asm"@,
    }
}

/// The name of a body's kind.
pub fn body_kind(body: &Body) -> (r: &'static str)
    ensures
        r@ == body_kind_spec(crate::ast::body_v(*body)),
{
    match body {
        Body::Tree(_) => "tree",
        Body::Flat(_) => "flat",
        Body::Asm(_) => "asm",
    }
}

// ---------------------------------------------------------------- bytecode

/// The `need` literal arguments pushed before position `i`, nearest first;
/// labels and line markers are skipped, anything else gives up.
pub open spec fn reconstruct_spec(ops: Seq<OpV>, i: int, need: nat) -> Option<Seq<ValueV>>
    decreases i,
{
    if need == 0 {
        Some(Seq::empty())
    } else if i <= 0 || i > ops.len() {
        None
    } else {
        match ops[i - 1] {
            OpV::Push(v) => match reconstruct_spec(ops, i - 1, (need - 1) as nat) {
                Some(rest) => Some(seq![v] + rest),
                None => None,
            },
            OpV::Label(_) => reconstruct_spec(ops, i - 1, need),
            OpV::Line(_) => reconstruct_spec(ops, i - 1, need),
            _ => None,
        }
    }
}

/// The first voice pair at an index in `[i, p)`.
pub open spec fn first_voice_from(vals: Seq<ValueV>, i: int, p: int) -> Option<VoiceInsert>
    decreases p - i,
{
    if i >= p || i < 0 {
        None
    } else if i + 1 < vals.len() && vals[i] == ValueV::Int(11) && vals[i + 1] is Int {
        Some(VoiceInsert { index: i as usize, value: vals[i + 1]->Int_0 })
    } else {
        first_voice_from(vals, i + 1, p)
    }
}

/// The voice pair of a dialogue call with arguments `vals`, looked for only
/// in the call's classified prefix.
pub open spec fn find_voice_pair_spec(a: u8, b: u8, vals: Seq<ValueV>) -> Option<VoiceInsert> {
    match classify_spec(a, b, shapes_of_values(vals)) {
        None => None,
        Some(cls) => first_voice_from(vals, 1, cls.prefix_len),
    }
}

pub open spec fn is_dialogue_op(a: u8, b: u8) -> bool {
    a == 5 && (b == 0 || b == 6 || b == 8)
}

/// The voice pairs of the dialogue calls among the first `n` ops, one entry
/// per call; `None` once a call's arguments cannot be read back.
pub open spec fn voice_ids_upto(ops: Seq<OpV>, n: int) -> Option<Seq<Option<VoiceInsert>>>
    decreases n,
{
    if n <= 0 || n > ops.len() {
        Some(Seq::empty())
    } else {
        match voice_ids_upto(ops, n - 1) {
            None => None,
            Some(out) => match ops[n - 1] {
                OpV::CallSystem(a, b, argc) => if is_dialogue_op(a, b) {
                    match reconstruct_spec(ops, n - 1, argc as nat) {
                        None => None,
                        Some(vals) => Some(out.push(find_voice_pair_spec(a, b, vals))),
                    }
                } else {
                    Some(out)
                },
                _ => Some(out),
            },
        }
    }
}

pub proof fn lemma_voice_ids_none(ops: Seq<OpV>, n: int, m: int)
    requires
        0 <= n <= m <= ops.len(),
        voice_ids_upto(ops, n) is None,
    ensures
        voice_ids_upto(ops, m) is None,
    decreases m - n,
{
    if n < m {
        lemma_voice_ids_none(ops, n, m - 1);
    }
}

/// Read back the arguments of the syscall at `call_idx` from the literal
/// pushes before it, nearest push first.
pub fn reconstruct_call_args(ops: &Vec<Op>, call_idx: usize, argc: usize) -> (r: Option<Vec<Value>>)
    ensures
        match r {
            Some(vals) => reconstruct_spec(ops_v(ops@), call_idx as int, argc as nat) == Some(values_v(vals@)),
            None => reconstruct_spec(ops_v(ops@), call_idx as int, argc as nat) is None,
        },
{
    let ghost ov = ops_v(ops@);
    let mut vals: Vec<Value> = Vec::new();
    if call_idx > ops.len() {
        if argc == 0 {
            assert(values_v(vals@) =~= Seq::<ValueV>::empty());
            return Some(vals);
        }
        return None;
    }
    let mut i = call_idx;
    while vals.len() < argc
        invariant
            i <= call_idx <= ops@.len(),
            vals@.len() <= argc,
            ov == ops_v(ops@),
            reconstruct_spec(ov, call_idx as int, argc as nat) == match reconstruct_spec(
                ov,
                i as int,
                (argc - vals@.len()) as nat,
            ) {
                Some(rest) => Some(values_v(vals@) + rest),
                None => None,
            },
        decreases i,
    {
        if i == 0 {
            return None;
        }
        i -= 1;
        match &ops[i] {
            Op::Push(v) => {
                let ghost before = values_v(vals@);
                vals.push(copy_value(v));
                proof {
                    assert(values_v(vals@) =~= before.push(crate::ast::value_v(*v)));
                    assert forall|rest: Seq<ValueV>| #![auto] before + (seq![crate::ast::value_v(*v)] + rest)
                        =~= values_v(vals@) + rest by {}
                }
            },
            Op::Label(_) => {},
            Op::Line(_) => {},
            _ => return None,
        }
    }
    assert(values_v(vals@) + Seq::<ValueV>::empty() =~= values_v(vals@));
    Some(vals)
}

/// The voice pair of a reconstructed dialogue call, if its classified prefix
/// carries one.
#[verifier::loop_isolation(false)]
pub fn find_voice_pair(a: u8, b: u8, args: &Vec<Value>) -> (r: Option<VoiceInsert>)
    ensures
        r == find_voice_pair_spec(a, b, values_v(args@)),
{
    let lits = lits_of_values(args);
    let cls = match classify_generic(a, b, &lits) {
        Some(c) => c,
        None => return None,
    };
    let ghost vals = values_v(args@);
    let mut i: usize = 1;
    while i < cls.prefix_len
        invariant
            1 <= i,
            vals == values_v(args@),
            first_voice_from(vals, 1, cls.prefix_len as int) == first_voice_from(vals, i as int, cls.prefix_len as int),
        decreases cls.prefix_len - i,
    {
        if i + 1 < args.len() {
            if let (Value::Int(11), Value::Int(value)) = (&args[i], &args[i + 1]) {
                assert(vals[i as int] == ValueV::Int(11));
                assert(vals[i + 1] == ValueV::Int(*value));
                return Some(VoiceInsert { index: i, value: *value });
            }
        }
        i += 1;
    }
    None
}

/// The voice pairs of a bytecode body's dialogue calls, in body order; `None`
/// when a dialogue call's arguments are not all literal pushes.
pub fn extract_body_voice_ids(ops: &Vec<Op>) -> (r: Option<Vec<Option<VoiceInsert>>>)
    ensures
        match r {
            Some(v) => voice_ids_upto(ops_v(ops@), ops@.len() as int) == Some(v@),
            None => voice_ids_upto(ops_v(ops@), ops@.len() as int) is None,
        },
{
    let ghost ov = ops_v(ops@);
    let mut out: Vec<Option<VoiceInsert>> = Vec::new();
    let mut i: usize = 0;
    while i < ops.len()
        invariant
            0 <= i <= ops@.len(),
            ov == ops_v(ops@),
            voice_ids_upto(ov, i as int) == Some(out@),
        decreases ops@.len() - i,
    {
        if let Op::CallSystem(a, b, argc) = &ops[i] {
            if *a == 5 && (*b == 0 || *b == 6 || *b == 8) {
                match reconstruct_call_args(ops, i, *argc as usize) {
                    Some(call_args) => {
                        out.push(find_voice_pair(*a, *b, &call_args));
                    },
                    None => {
                        proof {
                            lemma_voice_ids_none(ov, i + 1, ov.len() as int);
                        }
                        return None;
                    },
                }
            }
        }
        i += 1;
    }
    Some(out)
}

// ---------------------------------------------------------------- counting

/// Number of dialogue syscalls `system[5, {0,6,8}]` in an expression.
pub open spec fn cd_expr(e: ExprV) -> nat
    decreases e,
{
    match e {
        ExprV::Syscall(_, a, b, args) => cd_exprs(args) + if is_dialogue_op(a, b) {
            1nat
        } else {
            0nat
        },
        ExprV::Call(_, _, args) => cd_exprs(args),
        ExprV::Unop(_, _, inner) => cd_expr(*inner),
        ExprV::Binop(_, _, x, y) => cd_expr(*x) + cd_expr(*y),
        _ => 0,
    }
}

pub open spec fn cd_exprs(s: Seq<ExprV>) -> nat
    decreases s,
{
    if s.len() == 0 {
        0
    } else {
        cd_exprs(s.drop_last()) + cd_expr(s[s.len() - 1])
    }
}

pub open spec fn cd_stmt(s: StmtV) -> nat
    decreases s,
{
    match s {
        StmtV::Expr(e) => cd_expr(e),
        StmtV::Assign(_, _, e) => cd_expr(e),
        StmtV::Return(_, e) => match e {
            Some(e) => cd_expr(e),
            None => 0,
        },
        StmtV::PushVar(_, _, e) => match e {
            Some(e) => cd_expr(e),
            None => 0,
        },
        StmtV::If(_, c, t, els) => cd_expr(c) + cd_stmts(t) + match els {
            Some(e) => cd_stmts(e),
            None => 0,
        },
        StmtV::While(_, c, b) => cd_expr(c) + cd_stmts(b),
        StmtV::Switch(_, c, arms) => cd_expr(c) + cd_arms(arms),
        StmtV::Block(b) => cd_stmts(b),
        StmtV::Debug(_, args) => cd_exprs(args),
        StmtV::Tailcall(_, _, args) => cd_exprs(args),
        StmtV::Break => 0,
        StmtV::Continue => 0,
    }
}

pub open spec fn cd_stmts(s: Seq<StmtV>) -> nat
    decreases s,
{
    if s.len() == 0 {
        0
    } else {
        cd_stmts(s.drop_last()) + cd_stmt(s[s.len() - 1])
    }
}

pub open spec fn cd_arms(s: Seq<ArmV>) -> nat
    decreases s,
{
    if s.len() == 0 {
        0
    } else {
        cd_arms(s.drop_last()) + cd_stmts(s[s.len() - 1].body)
    }
}

proof fn lemma_sat_sum(a: nat, b: nat)
    ensures
        sat_add(sat_nat(a), sat_nat(b)) == sat_nat(a + b),
{
}

fn walk_dialogue_expr(expr: &Expr) -> (r: usize)
    ensures
        r == sat_nat(cd_expr(expr_v(*expr))),
    decreases *expr,
{
    match expr {
        Expr::Syscall(_, a, b, args) => {
            let n = walk_dialogue_exprs(args);
            if *a == 5 && (*b == 0 || *b == 6 || *b == 8) {
                proof {
                    lemma_sat_sum(cd_exprs(exprs_v(args@)), 1);
                }
                sat_add_exec(n, 1)
            } else {
                n
            }
        },
        Expr::Call(_, _, args) => walk_dialogue_exprs(args),
        Expr::Unop(_, _, inner) => walk_dialogue_expr(&**inner),
        Expr::Binop(_, _, x, y) => {
            let n = walk_dialogue_expr(&**x);
            let m = walk_dialogue_expr(&**y);
            proof {
                lemma_sat_sum(cd_expr(expr_v(**x)), cd_expr(expr_v(**y)));
            }
            sat_add_exec(n, m)
        },
        _ => 0,
    }
}

fn walk_dialogue_exprs(args: &Vec<Expr>) -> (r: usize)
    ensures
        r == sat_nat(cd_exprs(exprs_v(args@))),
    decreases *args,
{
    let mut n: usize = 0;
    let mut i: usize = 0;
    while i < args.len()
        invariant
            0 <= i <= args@.len(),
            n == sat_nat(cd_exprs(exprs_v(args@).take(i as int))),
        decreases args@.len() - i,
    {
        proof {
            vstd::std_specs::vec::axiom_vec_index_decreases(*args, i as int);
        }
        let m = walk_dialogue_expr(&args[i]);
        proof {
            let t1 = exprs_v(args@).take(i + 1);
            assert(t1.drop_last() =~= exprs_v(args@).take(i as int));
            lemma_sat_sum(cd_exprs(exprs_v(args@).take(i as int)), cd_expr(expr_v(args@[i as int])));
        }
        n = sat_add_exec(n, m);
        i += 1;
    }
    assert(exprs_v(args@).take(args@.len() as int) =~= exprs_v(args@));
    n
}

/// Number of dialogue syscalls in a statement.
fn walk_dialogue_stmt(stmt: &Stmt) -> (r: usize)
    ensures
        r == sat_nat(cd_stmt(stmt_v(*stmt))),
    decreases *stmt,
{
    match stmt {
        Stmt::Expr(e) => walk_dialogue_expr(e),
        Stmt::Assign(_, _, e) => walk_dialogue_expr(e),
        Stmt::Return(_, e) => match e {
            Some(e) => walk_dialogue_expr(e),
            None => 0,
        },
        Stmt::PushVar(_, _, e) => match e {
            Some(e) => walk_dialogue_expr(e),
            None => 0,
        },
        Stmt::If(_, c, t, els) => {
            let n1 = walk_dialogue_expr(c);
            let n2 = walk_dialogue_stmts(t);
            proof {
                lemma_sat_sum(cd_expr(expr_v(*c)), cd_stmts(stmts_v(t@)));
            }
            let n12 = sat_add_exec(n1, n2);
            match els {
                Some(e) => {
                    let n3 = walk_dialogue_stmts(e);
                    proof {
                        lemma_sat_sum(cd_expr(expr_v(*c)) + cd_stmts(stmts_v(t@)), cd_stmts(stmts_v(e@)));
                    }
                    sat_add_exec(n12, n3)
                },
                None => n12,
            }
        },
        Stmt::While(_, c, b) => {
            let n1 = walk_dialogue_expr(c);
            let n2 = walk_dialogue_stmts(b);
            proof {
                lemma_sat_sum(cd_expr(expr_v(*c)), cd_stmts(stmts_v(b@)));
            }
            sat_add_exec(n1, n2)
        },
        Stmt::Switch(_, c, arms) => {
            let n1 = walk_dialogue_expr(c);
            let n2 = walk_dialogue_arms(arms);
            proof {
                lemma_sat_sum(cd_expr(expr_v(*c)), cd_arms(arms_v(arms@)));
            }
            sat_add_exec(n1, n2)
        },
        Stmt::Block(b) => walk_dialogue_stmts(b),
        Stmt::Debug(_, args) => walk_dialogue_exprs(args),
        Stmt::Tailcall(_, _, args) => walk_dialogue_exprs(args),
        Stmt::Break => 0,
        Stmt::Continue => 0,
    }
}

fn walk_dialogue_stmts(stmts: &Vec<Stmt>) -> (r: usize)
    ensures
        r == sat_nat(cd_stmts(stmts_v(stmts@))),
    decreases *stmts,
{
    let mut n: usize = 0;
    let mut i: usize = 0;
    while i < stmts.len()
        invariant
            0 <= i <= stmts@.len(),
            n == sat_nat(cd_stmts(stmts_v(stmts@).take(i as int))),
        decreases stmts@.len() - i,
    {
        proof {
            vstd::std_specs::vec::axiom_vec_index_decreases(*stmts, i as int);
        }
        let m = walk_dialogue_stmt(&stmts[i]);
        proof {
            let t1 = stmts_v(stmts@).take(i + 1);
            assert(t1.drop_last() =~= stmts_v(stmts@).take(i as int));
            lemma_sat_sum(cd_stmts(stmts_v(stmts@).take(i as int)), cd_stmt(stmt_v(stmts@[i as int])));
        }
        n = sat_add_exec(n, m);
        i += 1;
    }
    assert(stmts_v(stmts@).take(stmts@.len() as int) =~= stmts_v(stmts@));
    n
}

fn walk_dialogue_arms(arms: &Vec<SwitchArm>) -> (r: usize)
    ensures
        r == sat_nat(cd_arms(arms_v(arms@))),
    decreases *arms,
{
    let mut n: usize = 0;
    let mut i: usize = 0;
    while i < arms.len()
        invariant
            0 <= i <= arms@.len(),
            n == sat_nat(cd_arms(arms_v(arms@).take(i as int))),
        decreases arms@.len() - i,
    {
        proof {
            vstd::std_specs::vec::axiom_vec_index_decreases(*arms, i as int);
            assert(decreases_to!(arms@[i as int] => arms@[i as int].body));
        }
        let m = walk_dialogue_stmts(&arms[i].body);
        proof {
            let t1 = arms_v(arms@).take(i + 1);
            assert(t1.drop_last() =~= arms_v(arms@).take(i as int));
            lemma_sat_sum(cd_arms(arms_v(arms@).take(i as int)), cd_stmts(stmts_v(arms@[i as int].body@)));
        }
        n = sat_add_exec(n, m);
        i += 1;
    }
    assert(arms_v(arms@).take(arms@.len() as int) =~= arms_v(arms@));
    n
}

/// Number of dialogue syscalls in a tree body, counted in the order that
/// [`inject_voice_ids`] visits them.
pub fn count_dialogue_syscalls(stmts: &Vec<Stmt>) -> (r: usize)
    ensures
        r == sat_nat(cd_stmts(stmts_v(stmts@))),
{
    walk_dialogue_stmts(stmts)
}

// ---------------------------------------------------------------- re-injection

/// Progress of a re-injection: dialogue calls visited, voice pairs put back.
pub struct InjectState {
    pub idx: usize,
    pub injected: usize,
}

/// The arguments of the next dialogue call after re-injection: when its
/// recovered pair exists and fits, `11, V` is put back at the recorded index.
pub open spec fn inject_args(args: Seq<ExprV>, ins: Seq<Option<VoiceInsert>>, st: InjectState) -> (Seq<ExprV>, InjectState) {
    let cur = st.idx as int;
    if cur < ins.len() && ins[cur] is Some && ins[cur]->0.index <= args.len() {
        let vi = ins[cur]->0;
        (
            args.take(vi.index as int) + seq![
                ExprV::Value(None, ValueV::Int(11)),
                ExprV::Value(None, ValueV::Int(vi.value)),
            ] + args.skip(vi.index as int),
            InjectState { idx: sat_inc(st.idx), injected: sat_inc(st.injected) },
        )
    } else {
        (args, InjectState { idx: sat_inc(st.idx), injected: st.injected })
    }
}

pub open spec fn inj_expr(e: ExprV, ins: Seq<Option<VoiceInsert>>, st: InjectState) -> (ExprV, InjectState)
    decreases e,
{
    match e {
        ExprV::Syscall(l, a, b, args) => {
            let (a2, st1) = inj_exprs(args, ins, st);
            if is_dialogue_op(a, b) {
                let (a3, st2) = inject_args(a2, ins, st1);
                (ExprV::Syscall(l, a, b, a3), st2)
            } else {
                (ExprV::Syscall(l, a, b, a2), st1)
            }
        },
        ExprV::Call(l, n, args) => {
            let (a2, st1) = inj_exprs(args, ins, st);
            (ExprV::Call(l, n, a2), st1)
        },
        ExprV::Unop(l, op, inner) => {
            let (i2, st1) = inj_expr(*inner, ins, st);
            (ExprV::Unop(l, op, Box::new(i2)), st1)
        },
        ExprV::Binop(l, op, x, y) => {
            let (x2, st1) = inj_expr(*x, ins, st);
            let (y2, st2) = inj_expr(*y, ins, st1);
            (ExprV::Binop(l, op, Box::new(x2), Box::new(y2)), st2)
        },
        _ => (e, st),
    }
}

pub open spec fn inj_exprs(s: Seq<ExprV>, ins: Seq<Option<VoiceInsert>>, st: InjectState) -> (Seq<ExprV>, InjectState)
    decreases s,
{
    if s.len() == 0 {
        (s, st)
    } else {
        let (init, st1) = inj_exprs(s.drop_last(), ins, st);
        let (last, st2) = inj_expr(s[s.len() - 1], ins, st1);
        (init.push(last), st2)
    }
}

pub open spec fn inj_stmt(s: StmtV, ins: Seq<Option<VoiceInsert>>, st: InjectState) -> (StmtV, InjectState)
    decreases s,
{
    match s {
        StmtV::Expr(e) => {
            let (e2, st1) = inj_expr(e, ins, st);
            (StmtV::Expr(e2), st1)
        },
        StmtV::Assign(l, p, e) => {
            let (e2, st1) = inj_expr(e, ins, st);
            (StmtV::Assign(l, p, e2), st1)
        },
        StmtV::Return(l, e) => match e {
            Some(e) => {
                let (e2, st1) = inj_expr(e, ins, st);
                (StmtV::Return(l, Some(e2)), st1)
            },
            None => (s, st),
        },
        StmtV::PushVar(l, h, e) => match e {
            Some(e) => {
                let (e2, st1) = inj_expr(e, ins, st);
                (StmtV::PushVar(l, h, Some(e2)), st1)
            },
            None => (s, st),
        },
        StmtV::If(l, c, t, els) => {
            let (c2, st1) = inj_expr(c, ins, st);
            let (t2, st2) = inj_stmts(t, ins, st1);
            match els {
                Some(e) => {
                    let (e2, st3) = inj_stmts(e, ins, st2);
                    (StmtV::If(l, c2, t2, Some(e2)), st3)
                },
                None => (StmtV::If(l, c2, t2, None), st2),
            }
        },
        StmtV::While(l, c, b) => {
            let (c2, st1) = inj_expr(c, ins, st);
            let (b2, st2) = inj_stmts(b, ins, st1);
            (StmtV::While(l, c2, b2), st2)
        },
        StmtV::Switch(l, c, arms) => {
            let (c2, st1) = inj_expr(c, ins, st);
            let (arms2, st2) = inj_arms(arms, ins, st1);
            (StmtV::Switch(l, c2, arms2), st2)
        },
        StmtV::Block(b) => {
            let (b2, st1) = inj_stmts(b, ins, st);
            (StmtV::Block(b2), st1)
        },
        StmtV::Debug(l, args) => {
            let (a2, st1) = inj_exprs(args, ins, st);
            (StmtV::Debug(l, a2), st1)
        },
        StmtV::Tailcall(l, n, args) => {
            let (a2, st1) = inj_exprs(args, ins, st);
            (StmtV::Tailcall(l, n, a2), st1)
        },
        StmtV::Break => (s, st),
        StmtV::Continue => (s, st),
    }
}

pub open spec fn inj_stmts(s: Seq<StmtV>, ins: Seq<Option<VoiceInsert>>, st: InjectState) -> (Seq<StmtV>, InjectState)
    decreases s,
{
    if s.len() == 0 {
        (s, st)
    } else {
        let (init, st1) = inj_stmts(s.drop_last(), ins, st);
        let (last, st2) = inj_stmt(s[s.len() - 1], ins, st1);
        (init.push(last), st2)
    }
}

pub open spec fn inj_arms(s: Seq<ArmV>, ins: Seq<Option<VoiceInsert>>, st: InjectState) -> (Seq<ArmV>, InjectState)
    decreases s,
{
    if s.len() == 0 {
        (s, st)
    } else {
        let (init, st1) = inj_arms(s.drop_last(), ins, st);
        let (body, st2) = inj_stmts(s[s.len() - 1].body, ins, st1);
        (init.push(ArmV { label: s[s.len() - 1].label, body }), st2)
    }
}

fn inject_into_args(args: &mut Vec<Expr>, ins: &Vec<Option<VoiceInsert>>, idx: &mut usize, injected: &mut usize)
    ensures
        (exprs_v(final(args)@), InjectState { idx: *final(idx), injected: *final(injected) }) == inject_args(
            exprs_v(old(args)@),
            ins@,
            InjectState { idx: *old(idx), injected: *old(injected) },
        ),
{
    let cur = *idx;
    *idx = sat_inc_exec(*idx);
    if cur < ins.len() {
        if let Some(vi) = ins[cur] {
            if vi.index <= args.len() {
                let ghost before = exprs_v(args@);
                args.insert(vi.index, Expr::Value(None, Value::Int(vi.value)));
                args.insert(vi.index, Expr::Value(None, Value::Int(11)));
                *injected = sat_inc_exec(*injected);
                assert(exprs_v(args@) =~= before.take(vi.index as int) + seq![
                    ExprV::Value(None, ValueV::Int(11)),
                    ExprV::Value(None, ValueV::Int(vi.value)),
                ] + before.skip(vi.index as int));
            }
        }
    }
}

fn walk_dialogue_expr_mut(expr: &mut Expr, ins: &Vec<Option<VoiceInsert>>, idx: &mut usize, injected: &mut usize)
    ensures
        (expr_v(*final(expr)), InjectState { idx: *final(idx), injected: *final(injected) }) == inj_expr(
            expr_v(*old(expr)),
            ins@,
            InjectState { idx: *old(idx), injected: *old(injected) },
        ),
    decreases *old(expr),
{
    match expr {
        Expr::Syscall(_, a, b, args) => {
            walk_dialogue_exprs_mut(args, ins, idx, injected);
            if *a == 5 && (*b == 0 || *b == 6 || *b == 8) {
                inject_into_args(args, ins, idx, injected);
            }
        },
        Expr::Call(_, _, args) => {
            walk_dialogue_exprs_mut(args, ins, idx, injected);
        },
        Expr::Unop(_, _, inner) => {
            walk_dialogue_expr_mut(&mut **inner, ins, idx, injected);
        },
        Expr::Binop(_, _, x, y) => {
            walk_dialogue_expr_mut(&mut **x, ins, idx, injected);
            walk_dialogue_expr_mut(&mut **y, ins, idx, injected);
        },
        _ => {},
    }
}

fn walk_dialogue_exprs_mut(args: &mut Vec<Expr>, ins: &Vec<Option<VoiceInsert>>, idx: &mut usize, injected: &mut usize)
    ensures
        (exprs_v(final(args)@), InjectState { idx: *final(idx), injected: *final(injected) }) == inj_exprs(
            exprs_v(old(args)@),
            ins@,
            InjectState { idx: *old(idx), injected: *old(injected) },
        ),
    decreases *old(args),
{
    let ghost st0 = InjectState { idx: *idx, injected: *injected };
    let mut i: usize = 0;
    while i < args.len()
        invariant
            args@.len() == old(args)@.len(),
            0 <= i <= args@.len(),
            forall|k: int| i <= k < args@.len() ==> #[trigger] args@[k] == old(args)@[k],
            (exprs_v(args@).take(i as int), InjectState { idx: *idx, injected: *injected }) == inj_exprs(
                exprs_v(old(args)@).take(i as int),
                ins@,
                st0,
            ),
        decreases args@.len() - i,
    {
        let ghost prev = args@;
        proof {
            vstd::std_specs::vec::axiom_vec_index_decreases(*old(args), i as int);
        }
        walk_dialogue_expr_mut(&mut args[i], ins, idx, injected);
        proof {
            let t1 = exprs_v(old(args)@).take(i + 1);
            assert(t1.drop_last() =~= exprs_v(old(args)@).take(i as int));
            assert(exprs_v(args@).take(i + 1) =~= exprs_v(prev).take(i as int).push(expr_v(args@[i as int])));
        }
        i += 1;
    }
    assert(exprs_v(args@).take(args@.len() as int) =~= exprs_v(args@));
    assert(exprs_v(old(args)@).take(args@.len() as int) =~= exprs_v(old(args)@));
}

/// Put recovered voice pairs back into the dialogue calls of a statement,
/// in source order.
fn walk_dialogue_stmt_mut(stmt: &mut Stmt, ins: &Vec<Option<VoiceInsert>>, idx: &mut usize, injected: &mut usize)
    ensures
        (stmt_v(*final(stmt)), InjectState { idx: *final(idx), injected: *final(injected) }) == inj_stmt(
            stmt_v(*old(stmt)),
            ins@,
            InjectState { idx: *old(idx), injected: *old(injected) },
        ),
    decreases *old(stmt),
{
    match stmt {
        Stmt::Expr(e) => {
            walk_dialogue_expr_mut(e, ins, idx, injected);
        },
        Stmt::Assign(_, _, e) => {
            walk_dialogue_expr_mut(e, ins, idx, injected);
        },
        Stmt::Return(_, e) => {
            if let Some(e) = e {
                walk_dialogue_expr_mut(e, ins, idx, injected);
            }
        },
        Stmt::PushVar(_, _, e) => {
            if let Some(e) = e {
                walk_dialogue_expr_mut(e, ins, idx, injected);
            }
        },
        Stmt::If(_, c, t, els) => {
            walk_dialogue_expr_mut(c, ins, idx, injected);
            walk_dialogue_stmts_mut(t, ins, idx, injected);
            if let Some(e) = els {
                walk_dialogue_stmts_mut(e, ins, idx, injected);
            }
        },
        Stmt::While(_, c, b) => {
            walk_dialogue_expr_mut(c, ins, idx, injected);
            walk_dialogue_stmts_mut(b, ins, idx, injected);
        },
        Stmt::Switch(_, c, arms) => {
            walk_dialogue_expr_mut(c, ins, idx, injected);
            walk_dialogue_arms_mut(arms, ins, idx, injected);
        },
        Stmt::Block(b) => {
            walk_dialogue_stmts_mut(b, ins, idx, injected);
        },
        Stmt::Debug(_, args) => {
            walk_dialogue_exprs_mut(args, ins, idx, injected);
        },
        Stmt::Tailcall(_, _, args) => {
            walk_dialogue_exprs_mut(args, ins, idx, injected);
        },
        Stmt::Break => {},
        Stmt::Continue => {},
    }
}

fn walk_dialogue_stmts_mut(stmts: &mut Vec<Stmt>, ins: &Vec<Option<VoiceInsert>>, idx: &mut usize, injected: &mut usize)
    ensures
        (stmts_v(final(stmts)@), InjectState { idx: *final(idx), injected: *final(injected) }) == inj_stmts(
            stmts_v(old(stmts)@),
            ins@,
            InjectState { idx: *old(idx), injected: *old(injected) },
        ),
    decreases *old(stmts),
{
    let ghost st0 = InjectState { idx: *idx, injected: *injected };
    let mut i: usize = 0;
    while i < stmts.len()
        invariant
            stmts@.len() == old(stmts)@.len(),
            0 <= i <= stmts@.len(),
            forall|k: int| i <= k < stmts@.len() ==> #[trigger] stmts@[k] == old(stmts)@[k],
            (stmts_v(stmts@).take(i as int), InjectState { idx: *idx, injected: *injected }) == inj_stmts(
                stmts_v(old(stmts)@).take(i as int),
                ins@,
                st0,
            ),
        decreases stmts@.len() - i,
    {
        let ghost prev = stmts@;
        proof {
            vstd::std_specs::vec::axiom_vec_index_decreases(*old(stmts), i as int);
        }
        walk_dialogue_stmt_mut(&mut stmts[i], ins, idx, injected);
        proof {
            let t1 = stmts_v(old(stmts)@).take(i + 1);
            assert(t1.drop_last() =~= stmts_v(old(stmts)@).take(i as int));
            assert(stmts_v(stmts@).take(i + 1) =~= stmts_v(prev).take(i as int).push(stmt_v(stmts@[i as int])));
        }
        i += 1;
    }
    assert(stmts_v(stmts@).take(stmts@.len() as int) =~= stmts_v(stmts@));
    assert(stmts_v(old(stmts)@).take(stmts@.len() as int) =~= stmts_v(old(stmts)@));
}

fn walk_dialogue_arms_mut(arms: &mut Vec<SwitchArm>, ins: &Vec<Option<VoiceInsert>>, idx: &mut usize, injected: &mut usize)
    ensures
        (arms_v(final(arms)@), InjectState { idx: *final(idx), injected: *final(injected) }) == inj_arms(
            arms_v(old(arms)@),
            ins@,
            InjectState { idx: *old(idx), injected: *old(injected) },
        ),
    decreases *old(arms),
{
    let ghost st0 = InjectState { idx: *idx, injected: *injected };
    let mut i: usize = 0;
    while i < arms.len()
        invariant
            arms@.len() == old(arms)@.len(),
            0 <= i <= arms@.len(),
            forall|k: int| i <= k < arms@.len() ==> #[trigger] arms@[k] == old(arms)@[k],
            (arms_v(arms@).take(i as int), InjectState { idx: *idx, injected: *injected }) == inj_arms(
                arms_v(old(arms)@).take(i as int),
                ins@,
                st0,
            ),
        decreases arms@.len() - i,
    {
        let ghost prev = arms@;
        proof {
            vstd::std_specs::vec::axiom_vec_index_decreases(*old(arms), i as int);
            assert(decreases_to!(old(arms)@[i as int] => old(arms)@[i as int].body));
        }
        walk_dialogue_stmts_mut(&mut arms[i].body, ins, idx, injected);
        proof {
            let t1 = arms_v(old(arms)@).take(i + 1);
            assert(t1.drop_last() =~= arms_v(old(arms)@).take(i as int));
            assert(arms_v(arms@).take(i + 1) =~= arms_v(prev).take(i as int).push(crate::ast::arm_v(arms@[i as int])));
        }
        i += 1;
    }
    assert(arms_v(arms@).take(arms@.len() as int) =~= arms_v(arms@));
    assert(arms_v(old(arms)@).take(arms@.len() as int) =~= arms_v(old(arms)@));
}

/// Put recovered voice pairs back into a substituted tree body: the `n`-th
/// dialogue call (in source order) receives the `n`-th recovered pair, if it
/// has one that fits. Returns how many pairs were put back.
pub fn inject_voice_ids(stmts: &mut Vec<Stmt>, inserts: &Vec<Option<VoiceInsert>>) -> (r: usize)
    ensures
        stmts_v(final(stmts)@) == inj_stmts(stmts_v(old(stmts)@), inserts@, InjectState { idx: 0, injected: 0 }).0,
        r == inj_stmts(stmts_v(old(stmts)@), inserts@, InjectState { idx: 0, injected: 0 }).1.injected,
{
    let mut idx: usize = 0;
    let mut injected: usize = 0;
    walk_dialogue_stmts_mut(stmts, inserts, &mut idx, &mut injected);
    injected
}

} // verus!
