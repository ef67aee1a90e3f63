//! The scene-script model the merge works on: statements, expressions, call
//! tables and function bodies, together with their mathematical views.
//!
//! Leaves that the merge never inspects (variable places, operators, floats,
//! argument declarations, flat bodies, labels) are carried as opaque handles
//! so a script survives a round trip through this model unchanged.

use vstd::prelude::*;

verus! {

/// A literal value.
#[derive(Debug, Clone, PartialEq, Eq)]
pub enum Value {
    Int(i32),
    Str(String),
    /// Any other literal (a float, for instance), kept by handle.
    Other(u64),
}

/// A possibly module-qualified function name.
#[derive(Debug, Clone, PartialEq, Eq)]
pub struct Name {
    pub module: String,
    pub local: String,
}

/// An expression of a tree body. The leading `Option<u16>` is the source-line
/// annotation, where the script has one.
#[derive(Debug, PartialEq, Eq)]
pub enum Expr {
    Value(Option<u16>, Value),
    Var(Option<u16>, u64),
    Ref(Option<u16>, u64),
    Syscall(Option<u16>, u8, u8, Vec<Expr>),
    Call(Option<u16>, Name, Vec<Expr>),
    Unop(Option<u16>, u64, Box<Expr>),
    Binop(Option<u16>, u64, Box<Expr>, Box<Expr>),
}

/// One arm of a `switch`: its case label (`None` for `default`) and body.
#[derive(Debug, PartialEq, Eq)]
pub struct SwitchArm {
    pub label: Option<i32>,
    pub body: Vec<Stmt>,
}

/// A statement of a tree body.
#[derive(Debug, PartialEq, Eq)]
pub enum Stmt {
    Expr(Expr),
    Assign(Option<u16>, u64, Expr),
    Return(Option<u16>, Option<Expr>),
    PushVar(Option<u16>, u64, Option<Expr>),
    If(Option<u16>, Expr, Vec<Stmt>, Option<Vec<Stmt>>),
    While(Option<u16>, Expr, Vec<Stmt>),
    Switch(Option<u16>, Expr, Vec<SwitchArm>),
    Block(Vec<Stmt>),
    Debug(Option<u16>, Vec<Expr>),
    Tailcall(Option<u16>, Name, Vec<Expr>),
    Break,
    Continue,
}

/// An argument of a call-table entry.
#[derive(Debug, Clone, PartialEq, Eq)]
pub enum CallArg {
    Value(Value),
    Other(u64),
}

/// What a call-table entry calls.
#[derive(Debug, Clone, PartialEq, Eq)]
pub enum CallKind {
    Normal(Name),
    Tailcall(Name),
    Syscall(u8, u8),
}

/// A call-table entry.
#[derive(Debug, Clone, PartialEq, Eq)]
pub struct Call {
    pub kind: CallKind,
    pub args: Vec<CallArg>,
}

/// A bytecode instruction of an assembly body.
#[derive(Debug, Clone, PartialEq, Eq)]
pub enum Op {
    Push(Value),
    /// `system[a, b]` called with `argc` arguments.
    CallSystem(u8, u8, u8),
    Label(u64),
    Line(u16),
    Pop(u8),
    Other(u64),
}

/// A function body: a decompiled tree, a flat body (kept by handle), or raw
/// bytecode.
#[derive(Debug, PartialEq, Eq)]
pub enum Body {
    Tree(Vec<Stmt>),
    Flat(u64),
    Asm(Vec<Op>),
}

/// A function's call table: written out, or left for the compiler to infer.
#[derive(Debug, PartialEq, Eq)]
pub enum Called {
    Raw(Vec<Call>),
    Merged(bool),
}

#[derive(Debug, PartialEq, Eq)]
pub struct Function {
    /// Argument declarations, kept by handle.
    pub args: Vec<u64>,
    pub called: Called,
    pub is_prelude: bool,
    pub body: Body,
}

/// A scene script: its functions in order, each with its name.
#[derive(Debug, PartialEq, Eq, Default)]
pub struct Scena {
    pub functions: Vec<(String, Function)>,
}

// ---------------------------------------------------------------- views

pub enum ValueV {
    Int(i32),
    Str(Seq<char>),
    Other(u64),
}

pub struct NameV {
    pub module: Seq<char>,
    pub local: Seq<char>,
}

pub enum ExprV {
    Value(Option<u16>, ValueV),
    Var(Option<u16>, u64),
    Ref(Option<u16>, u64),
    Syscall(Option<u16>, u8, u8, Seq<ExprV>),
    Call(Option<u16>, NameV, Seq<ExprV>),
    Unop(Option<u16>, u64, Box<ExprV>),
    Binop(Option<u16>, u64, Box<ExprV>, Box<ExprV>),
}

pub struct ArmV {
    pub label: Option<i32>,
    pub body: Seq<StmtV>,
}

pub enum StmtV {
    Expr(ExprV),
    Assign(Option<u16>, u64, ExprV),
    Return(Option<u16>, Option<ExprV>),
    PushVar(Option<u16>, u64, Option<ExprV>),
    If(Option<u16>, ExprV, Seq<StmtV>, Option<Seq<StmtV>>),
    While(Option<u16>, ExprV, Seq<StmtV>),
    Switch(Option<u16>, ExprV, Seq<ArmV>),
    Block(Seq<StmtV>),
    Debug(Option<u16>, Seq<ExprV>),
    Tailcall(Option<u16>, NameV, Seq<ExprV>),
    Break,
    Continue,
}

pub enum CallArgV {
    Value(ValueV),
    Other(u64),
}

pub enum CallKindV {
    Normal(NameV),
    Tailcall(NameV),
    Syscall(u8, u8),
}

pub struct CallV {
    pub kind: CallKindV,
    pub args: Seq<CallArgV>,
}

pub enum OpV {
    Push(ValueV),
    CallSystem(u8, u8, u8),
    Label(u64),
    Line(u16),
    Pop(u8),
    Other(u64),
}

pub enum BodyV {
    Tree(Seq<StmtV>),
    Flat(u64),
    Asm(Seq<OpV>),
}

pub enum CalledV {
    Raw(Seq<CallV>),
    Merged(bool),
}

pub struct FunctionV {
    pub args: Seq<u64>,
    pub called: CalledV,
    pub is_prelude: bool,
    pub body: BodyV,
}

pub struct ScenaV {
    pub functions: Seq<(Seq<char>, FunctionV)>,
}

pub open spec fn value_v(v: Value) -> ValueV {
    match v {
        Value::Int(n) => ValueV::Int(n),
        Value::Str(s) => ValueV::Str(s@),
        Value::Other(h) => ValueV::Other(h),
    }
}

pub open spec fn values_v(s: Seq<Value>) -> Seq<ValueV> {
    Seq::new(s.len(), |i: int| value_v(s[i]))
}

pub open spec fn name_v(n: Name) -> NameV {
    NameV { module: n.module@, local: n.local@ }
}

pub open spec fn expr_v(e: Expr) -> ExprV
    decreases e,
{
    match e {
        Expr::Value(l, v) => ExprV::Value(l, value_v(v)),
        Expr::Var(l, h) => ExprV::Var(l, h),
        Expr::Ref(l, h) => ExprV::Ref(l, h),
        Expr::Syscall(l, a, b, args) => ExprV::Syscall(
            l,
            a,
            b,
            exprs_v(args@),
        ),
        Expr::Call(l, n, args) => ExprV::Call(
            l,
            name_v(n),
            exprs_v(args@),
        ),
        Expr::Unop(l, op, inner) => ExprV::Unop(l, op, Box::new(expr_v(*inner))),
        Expr::Binop(l, op, a, b) => ExprV::Binop(l, op, Box::new(expr_v(*a)), Box::new(expr_v(*b))),
    }
}

/// The views of a sequence of expressions.
pub open spec fn exprs_v(s: Seq<Expr>) -> Seq<ExprV>
    decreases s,
{
    Seq::new(
        s.len(),
        |i: int|
            if 0 <= i < s.len() {
                expr_v(s[i])
            } else {
                ExprV::Var(None, 0)
            },
    )
}

pub open spec fn stmt_v(s: Stmt) -> StmtV
    decreases s,
{
    match s {
        Stmt::Expr(e) => StmtV::Expr(expr_v(e)),
        Stmt::Assign(l, p, e) => StmtV::Assign(l, p, expr_v(e)),
        Stmt::Return(l, e) => StmtV::Return(
            l,
            match e {
                Some(e) => Some(expr_v(e)),
                None => None,
            },
        ),
        Stmt::PushVar(l, h, e) => StmtV::PushVar(
            l,
            h,
            match e {
                Some(e) => Some(expr_v(e)),
                None => None,
            },
        ),
        Stmt::If(l, c, t, e) => StmtV::If(
            l,
            expr_v(c),
            stmts_v(t@),
            match e {
                Some(e) => Some(
                    stmts_v(e@),
                ),
                None => None,
            },
        ),
        Stmt::While(l, c, b) => StmtV::While(
            l,
            expr_v(c),
            stmts_v(b@),
        ),
        Stmt::Switch(l, c, arms) => StmtV::Switch(
            l,
            expr_v(c),
            arms_v(arms@),
        ),
        Stmt::Block(b) => StmtV::Block(
            stmts_v(b@),
        ),
        Stmt::Debug(l, args) => StmtV::Debug(
            l,
            exprs_v(args@),
        ),
        Stmt::Tailcall(l, n, args) => StmtV::Tailcall(
            l,
            name_v(n),
            exprs_v(args@),
        ),
        Stmt::Break => StmtV::Break,
        Stmt::Continue => StmtV::Continue,
    }
}

pub open spec fn arm_v(a: SwitchArm) -> ArmV
    decreases a,
{
    ArmV {
        label: a.label,
        body: stmts_v(a.body@),
    }
}

/// The views of a sequence of statements.
pub open spec fn stmts_v(s: Seq<Stmt>) -> Seq<StmtV>
    decreases s,
{
    Seq::new(
        s.len(),
        |i: int|
            if 0 <= i < s.len() {
                stmt_v(s[i])
            } else {
                StmtV::Break
            },
    )
}

/// The views of a sequence of switch arms.
pub open spec fn arms_v(s: Seq<SwitchArm>) -> Seq<ArmV>
    decreases s,
{
    Seq::new(
        s.len(),
        |i: int|
            if 0 <= i < s.len() {
                arm_v(s[i])
            } else {
                ArmV { label: None, body: Seq::empty() }
            },
    )
}

pub open spec fn call_arg_v(c: CallArg) -> CallArgV {
    match c {
        CallArg::Value(v) => CallArgV::Value(value_v(v)),
        CallArg::Other(h) => CallArgV::Other(h),
    }
}

pub open spec fn call_args_v(s: Seq<CallArg>) -> Seq<CallArgV> {
    Seq::new(s.len(), |i: int| call_arg_v(s[i]))
}

pub open spec fn call_kind_v(k: CallKind) -> CallKindV {
    match k {
        CallKind::Normal(n) => CallKindV::Normal(name_v(n)),
        CallKind::Tailcall(n) => CallKindV::Tailcall(name_v(n)),
        CallKind::Syscall(a, b) => CallKindV::Syscall(a, b),
    }
}

pub open spec fn call_v(c: Call) -> CallV {
    CallV { kind: call_kind_v(c.kind), args: call_args_v(c.args@) }
}

pub open spec fn calls_v(s: Seq<Call>) -> Seq<CallV> {
    Seq::new(s.len(), |i: int| call_v(s[i]))
}

pub open spec fn op_v(o: Op) -> OpV {
    match o {
        Op::Push(v) => OpV::Push(value_v(v)),
        Op::CallSystem(a, b, n) => OpV::CallSystem(a, b, n),
        Op::Label(h) => OpV::Label(h),
        Op::Line(n) => OpV::Line(n),
        Op::Pop(n) => OpV::Pop(n),
        Op::Other(h) => OpV::Other(h),
    }
}

pub open spec fn ops_v(s: Seq<Op>) -> Seq<OpV> {
    Seq::new(s.len(), |i: int| op_v(s[i]))
}

pub open spec fn body_v(b: Body) -> BodyV {
    match b {
        Body::Tree(s) => BodyV::Tree(stmts_v(s@)),
        Body::Flat(h) => BodyV::Flat(h),
        Body::Asm(ops) => BodyV::Asm(ops_v(ops@)),
    }
}

pub open spec fn called_v(c: Called) -> CalledV {
    match c {
        Called::Raw(calls) => CalledV::Raw(calls_v(calls@)),
        Called::Merged(b) => CalledV::Merged(b),
    }
}

pub open spec fn function_v(f: Function) -> FunctionV {
    FunctionV { args: f.args@, called: called_v(f.called), is_prelude: f.is_prelude, body: body_v(f.body) }
}

pub open spec fn scena_v(s: Scena) -> ScenaV {
    ScenaV {
        functions: Seq::new(
            s.functions@.len(),
            |i: int| (s.functions@[i].0@, function_v(s.functions@[i].1)),
        ),
    }
}

impl View for Value {
    type V = ValueV;

    open spec fn view(&self) -> ValueV {
        value_v(*self)
    }
}

impl View for Name {
    type V = NameV;

    open spec fn view(&self) -> NameV {
        name_v(*self)
    }
}

impl View for Expr {
    type V = ExprV;

    open spec fn view(&self) -> ExprV {
        expr_v(*self)
    }
}

impl View for Stmt {
    type V = StmtV;

    open spec fn view(&self) -> StmtV {
        stmt_v(*self)
    }
}

impl View for CallArg {
    type V = CallArgV;

    open spec fn view(&self) -> CallArgV {
        call_arg_v(*self)
    }
}

impl View for Call {
    type V = CallV;

    open spec fn view(&self) -> CallV {
        call_v(*self)
    }
}

impl View for Op {
    type V = OpV;

    open spec fn view(&self) -> OpV {
        op_v(*self)
    }
}

impl View for Body {
    type V = BodyV;

    open spec fn view(&self) -> BodyV {
        body_v(*self)
    }
}

impl View for Called {
    type V = CalledV;

    open spec fn view(&self) -> CalledV {
        called_v(*self)
    }
}

impl View for Function {
    type V = FunctionV;

    open spec fn view(&self) -> FunctionV {
        function_v(*self)
    }
}

impl View for Scena {
    type V = ScenaV;

    open spec fn view(&self) -> ScenaV {
        scena_v(*self)
    }
}

// ---------------------------------------------------------------- copies

pub fn copy_value(v: &Value) -> (r: Value)
    ensures
        value_v(r) == value_v(*v),
{
    match v {
        Value::Int(n) => Value::Int(*n),
        Value::Str(s) => Value::Str(s.clone()),
        Value::Other(h) => Value::Other(*h),
    }
}

pub fn copy_name(n: &Name) -> (r: Name)
    ensures
        name_v(r) == name_v(*n),
{
    Name { module: n.module.clone(), local: n.local.clone() }
}

fn copy_u64s(a: &Vec<u64>) -> (r: Vec<u64>)
    ensures
        r@ == a@,
{
    let mut out: Vec<u64> = Vec::new();
    let mut i: usize = 0;
    while i < a.len()
        invariant
            0 <= i <= a@.len(),
            out@ == a@.take(i as int),
        decreases a@.len() - i,
    {
        out.push(a[i]);
        proof {
            assert(a@.take(i + 1) =~= a@.take(i as int).push(a@[i as int]));
        }
        i += 1;
    }
    assert(a@.take(a@.len() as int) =~= a@);
    out
}

pub fn copy_expr(e: &Expr) -> (r: Expr)
    ensures
        expr_v(r) == expr_v(*e),
    decreases *e,
{
    match e {
        Expr::Value(l, v) => Expr::Value(*l, copy_value(v)),
        Expr::Var(l, h) => Expr::Var(*l, *h),
        Expr::Ref(l, h) => Expr::Ref(*l, *h),
        Expr::Syscall(l, a, b, args) => Expr::Syscall(*l, *a, *b, copy_exprs(args)),
        Expr::Call(l, n, args) => Expr::Call(*l, copy_name(n), copy_exprs(args)),
        Expr::Unop(l, op, inner) => Expr::Unop(*l, *op, Box::new(copy_expr(&**inner))),
        Expr::Binop(l, op, x, y) => Expr::Binop(*l, *op, Box::new(copy_expr(&**x)), Box::new(copy_expr(&**y))),
    }
}

pub fn copy_exprs(s: &Vec<Expr>) -> (r: Vec<Expr>)
    ensures
        exprs_v(r@) == exprs_v(s@),
    decreases *s,
{
    let mut out: Vec<Expr> = Vec::new();
    let mut i: usize = 0;
    while i < s.len()
        invariant
            0 <= i <= s@.len(),
            out@.len() == i,
            forall|k: int| 0 <= k < i ==> expr_v(#[trigger] out@[k]) == expr_v(s@[k]),
        decreases s@.len() - i,
    {
        proof {
            vstd::std_specs::vec::axiom_vec_index_decreases(*s, i as int);
        }
        out.push(copy_expr(&s[i]));
        i += 1;
    }
    assert(exprs_v(out@) =~= exprs_v(s@));
    out
}

fn copy_opt_expr(e: &Option<Expr>) -> (r: Option<Expr>)
    ensures
        match (r, *e) {
            (Some(x), Some(y)) => expr_v(x) == expr_v(y),
            (None, None) => true,
            _ => false,
        },
    decreases *e,
{
    match e {
        Some(x) => Some(copy_expr(x)),
        None => None,
    }
}

pub fn copy_stmt(s: &Stmt) -> (r: Stmt)
    ensures
        stmt_v(r) == stmt_v(*s),
    decreases *s,
{
    match s {
        Stmt::Expr(e) => Stmt::Expr(copy_expr(e)),
        Stmt::Assign(l, p, e) => Stmt::Assign(*l, *p, copy_expr(e)),
        Stmt::Return(l, e) => Stmt::Return(*l, copy_opt_expr(e)),
        Stmt::PushVar(l, h, e) => Stmt::PushVar(*l, *h, copy_opt_expr(e)),
        Stmt::If(l, c, t, els) => {
            let c2 = copy_expr(c);
            let t2 = copy_stmts(t);
            let e2 = match els {
                Some(e) => Some(copy_stmts(e)),
                None => None,
            };
            Stmt::If(*l, c2, t2, e2)
        },
        Stmt::While(l, c, b) => Stmt::While(*l, copy_expr(c), copy_stmts(b)),
        Stmt::Switch(l, c, arms) => Stmt::Switch(*l, copy_expr(c), copy_arms(arms)),
        Stmt::Block(b) => Stmt::Block(copy_stmts(b)),
        Stmt::Debug(l, args) => Stmt::Debug(*l, copy_exprs(args)),
        Stmt::Tailcall(l, n, args) => Stmt::Tailcall(*l, copy_name(n), copy_exprs(args)),
        Stmt::Break => Stmt::Break,
        Stmt::Continue => Stmt::Continue,
    }
}

pub fn copy_stmts(s: &Vec<Stmt>) -> (r: Vec<Stmt>)
    ensures
        stmts_v(r@) == stmts_v(s@),
    decreases *s,
{
    let mut out: Vec<Stmt> = Vec::new();
    let mut i: usize = 0;
    while i < s.len()
        invariant
            0 <= i <= s@.len(),
            out@.len() == i,
            forall|k: int| 0 <= k < i ==> stmt_v(#[trigger] out@[k]) == stmt_v(s@[k]),
        decreases s@.len() - i,
    {
        proof {
            vstd::std_specs::vec::axiom_vec_index_decreases(*s, i as int);
        }
        out.push(copy_stmt(&s[i]));
        i += 1;
    }
    assert(stmts_v(out@) =~= stmts_v(s@));
    out
}

fn copy_arms(s: &Vec<SwitchArm>) -> (r: Vec<SwitchArm>)
    ensures
        arms_v(r@) == arms_v(s@),
    decreases *s,
{
    let mut out: Vec<SwitchArm> = Vec::new();
    let mut i: usize = 0;
    while i < s.len()
        invariant
            0 <= i <= s@.len(),
            out@.len() == i,
            forall|k: int| 0 <= k < i ==> arm_v(#[trigger] out@[k]) == arm_v(s@[k]),
        decreases s@.len() - i,
    {
        proof {
            vstd::std_specs::vec::axiom_vec_index_decreases(*s, i as int);
            assert(decreases_to!(s@[i as int] => s@[i as int].body));
        }
        let body = copy_stmts(&s[i].body);
        out.push(SwitchArm { label: s[i].label, body });
        i += 1;
    }
    assert(arms_v(out@) =~= arms_v(s@));
    out
}

pub fn copy_call(c: &Call) -> (r: Call)
    ensures
        call_v(r) == call_v(*c),
{
    let kind = match &c.kind {
        CallKind::Normal(n) => CallKind::Normal(copy_name(n)),
        CallKind::Tailcall(n) => CallKind::Tailcall(copy_name(n)),
        CallKind::Syscall(a, b) => CallKind::Syscall(*a, *b),
    };
    let mut args: Vec<CallArg> = Vec::new();
    let mut i: usize = 0;
    while i < c.args.len()
        invariant
            0 <= i <= c.args@.len(),
            args@.len() == i,
            forall|k: int| 0 <= k < i ==> call_arg_v(#[trigger] args@[k]) == call_arg_v(c.args@[k]),
        decreases c.args@.len() - i,
    {
        let a = match &c.args[i] {
            CallArg::Value(v) => CallArg::Value(copy_value(v)),
            CallArg::Other(h) => CallArg::Other(*h),
        };
        args.push(a);
        i += 1;
    }
    assert(call_args_v(args@) =~= call_args_v(c.args@));
    Call { kind, args }
}

pub fn copy_calls(s: &Vec<Call>) -> (r: Vec<Call>)
    ensures
        calls_v(r@) == calls_v(s@),
{
    let mut out: Vec<Call> = Vec::new();
    let mut i: usize = 0;
    while i < s.len()
        invariant
            0 <= i <= s@.len(),
            out@.len() == i,
            forall|k: int| 0 <= k < i ==> call_v(#[trigger] out@[k]) == call_v(s@[k]),
        decreases s@.len() - i,
    {
        out.push(copy_call(&s[i]));
        i += 1;
    }
    assert(calls_v(out@) =~= calls_v(s@));
    out
}

pub fn copy_ops(s: &Vec<Op>) -> (r: Vec<Op>)
    ensures
        ops_v(r@) == ops_v(s@),
{
    let mut out: Vec<Op> = Vec::new();
    let mut i: usize = 0;
    while i < s.len()
        invariant
            0 <= i <= s@.len(),
            out@.len() == i,
            forall|k: int| 0 <= k < i ==> op_v(#[trigger] out@[k]) == op_v(s@[k]),
        decreases s@.len() - i,
    {
        let o = match &s[i] {
            Op::Push(v) => Op::Push(copy_value(v)),
            Op::CallSystem(a, b, n) => Op::CallSystem(*a, *b, *n),
            Op::Label(h) => Op::Label(*h),
            Op::Line(n) => Op::Line(*n),
            Op::Pop(n) => Op::Pop(*n),
            Op::Other(h) => Op::Other(*h),
        };
        out.push(o);
        i += 1;
    }
    assert(ops_v(out@) =~= ops_v(s@));
    out
}

pub fn copy_body(b: &Body) -> (r: Body)
    ensures
        body_v(r) == body_v(*b),
{
    match b {
        Body::Tree(s) => Body::Tree(copy_stmts(s)),
        Body::Flat(h) => Body::Flat(*h),
        Body::Asm(ops) => Body::Asm(copy_ops(ops)),
    }
}

pub fn copy_called(c: &Called) -> (r: Called)
    ensures
        called_v(r) == called_v(*c),
{
    match c {
        Called::Raw(calls) => Called::Raw(copy_calls(calls)),
        Called::Merged(b) => Called::Merged(*b),
    }
}

pub fn copy_function(f: &Function) -> (r: Function)
    ensures
        function_v(r) == function_v(*f),
{
    Function {
        args: copy_u64s(&f.args),
        called: copy_called(&f.called),
        is_prelude: f.is_prelude,
        body: copy_body(&f.body),
    }
}

pub fn copy_scena(s: &Scena) -> (r: Scena)
    ensures
        scena_v(r) == scena_v(*s),
{
    let mut out: Vec<(String, Function)> = Vec::new();
    let mut i: usize = 0;
    while i < s.functions.len()
        invariant
            0 <= i <= s.functions@.len(),
            out@.len() == i,
            forall|k: int|
                0 <= k < i ==> (#[trigger] out@[k]).0@ == s.functions@[k].0@ && function_v(out@[k].1)
                    == function_v(s.functions@[k].1),
        decreases s.functions@.len() - i,
    {
        let name = s.functions[i].0.clone();
        let f = copy_function(&s.functions[i].1);
        out.push((name, f));
        i += 1;
    }
    let r = Scena { functions: out };
    assert(scena_v(r).functions =~= scena_v(*s).functions);
    r
}

impl Name {
    /// A name with no module qualifier.
    pub fn local(local: String) -> (r: Name)
        ensures
            r.module@ == Seq::<char>::empty(),
            r.local@ == local@,
    {
        Name { module: String::new(), local }
    }
}

/// Position of the first function at or after `k` named `name`.
pub open spec fn find_fn_from(fs: Seq<(Seq<char>, FunctionV)>, k: int, name: Seq<char>) -> Option<int>
    decreases fs.len() - k,
{
    if k < 0 || k >= fs.len() {
        None
    } else if fs[k].0 == name {
        Some(k)
    } else {
        find_fn_from(fs, k + 1, name)
    }
}

pub proof fn lemma_find_fn_from(fs: Seq<(Seq<char>, FunctionV)>, k: int, name: Seq<char>)
    ensures
        find_fn_from(fs, k, name) matches Some(i) ==> k <= i < fs.len() && fs[i].0 == name,
    decreases fs.len() - k,
{
    if 0 <= k < fs.len() && fs[k].0 != name {
        lemma_find_fn_from(fs, k + 1, name);
    }
}

pub(crate) fn find_fn_exec(fs: &Vec<(String, Function)>, name: &String) -> (r: Option<usize>)
    ensures
        match r {
            Some(i) => i < fs@.len() && find_fn_from(
                Seq::new(fs@.len(), |k: int| (fs@[k].0@, function_v(fs@[k].1))),
                0,
                name@,
            ) == Some(i as int),
            None => find_fn_from(
                Seq::new(fs@.len(), |k: int| (fs@[k].0@, function_v(fs@[k].1))),
                0,
                name@,
            ) is None,
        },
{
    let ghost fv = Seq::new(fs@.len(), |k: int| (fs@[k].0@, function_v(fs@[k].1)));
    let mut i: usize = 0;
    while i < fs.len()
        invariant
            0 <= i <= fs@.len(),
            fv == Seq::new(fs@.len(), |k: int| (fs@[k].0@, function_v(fs@[k].1))),
            find_fn_from(fv, 0, name@) == find_fn_from(fv, i as int, name@),
        decreases fs@.len() - i,
    {
        if fs[i].0 == *name {
            return Some(i);
        }
        i += 1;
    }
    None
}

impl Scena {
    /// The first function named `name`, if any.
    pub fn get(&self, name: &str) -> (r: Option<&Function>)
        ensures
            match find_fn_from(scena_v(*self).functions, 0, name@) {
                Some(i) => r matches Some(f) && function_v(*f) == scena_v(*self).functions[i].1,
                None => r is None,
            },
    {
        let owned = name.to_owned();
        match find_fn_exec(&self.functions, &owned) {
            Some(i) => Some(&self.functions[i].1),
            None => None,
        }
    }
}

impl Clone for Expr {
    fn clone(&self) -> (r: Self)
        ensures
            expr_v(r) == expr_v(*self),
    {
        copy_expr(self)
    }
}

impl Clone for Stmt {
    fn clone(&self) -> (r: Self)
        ensures
            stmt_v(r) == stmt_v(*self),
    {
        copy_stmt(self)
    }
}

impl Clone for Function {
    fn clone(&self) -> (r: Self)
        ensures
            function_v(r) == function_v(*self),
    {
        copy_function(self)
    }
}

impl Clone for Scena {
    fn clone(&self) -> (r: Self)
        ensures
            scena_v(r) == scena_v(*self),
    {
        copy_scena(self)
    }
}

impl Clone for SwitchArm {
    fn clone(&self) -> (r: Self)
        ensures
            arm_v(r) == arm_v(*self),
    {
        SwitchArm { label: self.label, body: copy_stmts(&self.body) }
    }
}

impl Clone for Body {
    fn clone(&self) -> (r: Self)
        ensures
            body_v(r) == body_v(*self),
    {
        copy_body(self)
    }
}

impl Clone for Called {
    fn clone(&self) -> (r: Self)
        ensures
            called_v(r) == called_v(*self),
    {
        copy_called(self)
    }
}

} // verus!
