//! Classification of localizable calls: which calls carry translatable text,
//! the key that pairs a call with its counterpart in the other edition, and
//! where in the argument list the text run sits.

use vstd::prelude::*;
use crate::ast::{CallArg, CallArgV, CallKind, Expr, ExprV, Name, NameV, Value, ValueV};

verus! {

/// The prelude alias of the map-name syscall `system[22,38]`.
pub const MAPNAME_FN: &'static str = "ui_mapname_effect";

/// The prelude alias of the menu-item-add syscall.
pub const MENU_ADDITEM_FN: &'static str = "menu_additem";

/// The prelude alias of the set-display-name syscall.
pub const CHR_SET_DISPLAY_NAME_FN: &'static str = "chr_set_display_name";

/// What pairs a localizable call with its counterpart in the other edition.
#[derive(Debug, Clone, PartialEq, Eq, Hash)]
#[allow(inconsistent_fields)]
pub enum AnchorKey {
    /// A `[5,0]`/`[5,6]` message with a `<#…>` portrait tag.
    Portrait { char_id: i32, tag: String },
    /// A `[5,0]`/`[5,6]` message without a portrait tag, bucketed by its
    /// integer `char_id` (`None` for a variable speaker).
    Untagged { char_id: Option<i32> },
    /// `[5,8]` voiced narration, keyed by its voice ID.
    Voiced(i32),
    /// `[5,8]` letter narration.
    Letter,
    /// `[5,8]` plain narration (also the voiced-plain shape).
    Plain,
    /// `[5,8]` narration after any other integer prefix, bucketed by that
    /// prefix without its `11, V` voice marker.
    Narration(Vec<i32>),
    /// A map-name label.
    MapName,
    /// A menu-entry label.
    MenuItem,
    /// A speaker label, keyed by the integer `char_id` whose slot it sets.
    DisplayName { char_id: i32 },
}

#[allow(inconsistent_fields)]
pub enum AnchorKeyV {
    Portrait { char_id: i32, tag: Seq<char> },
    Untagged { char_id: Option<i32> },
    Voiced(i32),
    Letter,
    Plain,
    Narration(Seq<i32>),
    MapName,
    MenuItem,
    DisplayName { char_id: i32 },
}

impl View for AnchorKey {
    type V = AnchorKeyV;

    open spec fn view(&self) -> AnchorKeyV {
        match self {
            AnchorKey::Portrait { char_id, tag } => AnchorKeyV::Portrait { char_id: *char_id, tag: tag@ },
            AnchorKey::Untagged { char_id } => AnchorKeyV::Untagged { char_id: *char_id },
            AnchorKey::Voiced(v) => AnchorKeyV::Voiced(*v),
            AnchorKey::Letter => AnchorKeyV::Letter,
            AnchorKey::Plain => AnchorKeyV::Plain,
            AnchorKey::Narration(sig) => AnchorKeyV::Narration(sig@),
            AnchorKey::MapName => AnchorKeyV::MapName,
            AnchorKey::MenuItem => AnchorKeyV::MenuItem,
            AnchorKey::DisplayName { char_id } => AnchorKeyV::DisplayName { char_id: *char_id },
        }
    }
}

/// Where a localizable call's text run sits.
#[derive(Debug, Clone, PartialEq)]
pub struct Classification {
    pub key: AnchorKey,
    /// Number of leading args before the text run begins.
    pub prefix_len: usize,
    /// Length of the run in args; `None` means it runs to the end of the list.
    pub run_len: Option<usize>,
}

pub struct ClassificationV {
    pub key: AnchorKeyV,
    pub prefix_len: int,
    pub run_len: Option<int>,
}

impl View for Classification {
    type V = ClassificationV;

    open spec fn view(&self) -> ClassificationV {
        ClassificationV {
            key: self.key@,
            prefix_len: self.prefix_len as int,
            run_len: match self.run_len {
                Some(n) => Some(n as int),
                None => None,
            },
        }
    }
}

pub open spec fn class_opt_v(c: Option<Classification>) -> Option<ClassificationV> {
    match c {
        Some(c) => Some(c@),
        None => None,
    }
}

/// What the classifier reads of one argument.
pub enum Shape {
    Int(i32),
    Str(Seq<char>),
    Other,
}

/// An argument reduced to what the classifier reads of it.
pub enum Lit {
    Int(i32),
    Str(String),
    Other,
}

impl View for Lit {
    type V = Shape;

    open spec fn view(&self) -> Shape {
        match self {
            Lit::Int(n) => Shape::Int(*n),
            Lit::Str(s) => Shape::Str(s@),
            Lit::Other => Shape::Other,
        }
    }
}

pub open spec fn lits_v(s: Seq<Lit>) -> Seq<Shape> {
    Seq::new(s.len(), |i: int| s[i]@)
}

pub open spec fn shape_of_value(v: ValueV) -> Shape {
    match v {
        ValueV::Int(n) => Shape::Int(n),
        ValueV::Str(s) => Shape::Str(s),
        ValueV::Other(_) => Shape::Other,
    }
}

pub open spec fn shape_of_expr(e: ExprV) -> Shape {
    match e {
        ExprV::Value(_, v) => shape_of_value(v),
        _ => Shape::Other,
    }
}

pub open spec fn shape_of_arg(c: CallArgV) -> Shape {
    match c {
        CallArgV::Value(v) => shape_of_value(v),
        CallArgV::Other(_) => Shape::Other,
    }
}

pub open spec fn shapes_of_exprs(s: Seq<ExprV>) -> Seq<Shape> {
    Seq::new(s.len(), |i: int| shape_of_expr(s[i]))
}

pub open spec fn shapes_of_args(s: Seq<CallArgV>) -> Seq<Shape> {
    Seq::new(s.len(), |i: int| shape_of_arg(s[i]))
}

pub open spec fn shapes_of_values(s: Seq<ValueV>) -> Seq<Shape> {
    Seq::new(s.len(), |i: int| shape_of_value(s[i]))
}

pub open spec fn int_of(x: Shape) -> Option<i32> {
    match x {
        Shape::Int(n) => Some(n),
        _ => None,
    }
}

pub open spec fn is_str(x: Shape) -> bool {
    x is Str
}

/// A portrait tag: `<#` followed by an uppercase face-set letter.
pub open spec fn portrait_tag_spec(s: Seq<char>) -> bool {
    s.len() >= 3 && s[0] == '<' && s[1] == '#' && 'A' <= s[2] && s[2] <= 'Z'
}

pub open spec fn is_portrait(x: Shape) -> bool {
    match x {
        Shape::Str(s) => portrait_tag_spec(s),
        _ => false,
    }
}

/// Index of the first string at or after `k`.
pub open spec fn first_str_from(sh: Seq<Shape>, k: int) -> Option<int>
    decreases sh.len() - k,
{
    if k < 0 || k >= sh.len() {
        None
    } else if is_str(sh[k]) {
        Some(k)
    } else {
        first_str_from(sh, k + 1)
    }
}

pub proof fn lemma_first_str_from(sh: Seq<Shape>, k: int)
    ensures
        first_str_from(sh, k) matches Some(j) ==> k <= j < sh.len() && is_str(sh[j]),
    decreases sh.len() - k,
{
    if 0 <= k < sh.len() && !is_str(sh[k]) {
        lemma_first_str_from(sh, k + 1);
    }
}

pub proof fn lemma_first_portrait_from(sh: Seq<Shape>, k: int)
    ensures
        first_portrait_from(sh, k) matches Some(j) ==> k <= j < sh.len() && is_portrait(sh[j]),
    decreases sh.len() - k,
{
    if 0 <= k < sh.len() && !is_portrait(sh[k]) {
        lemma_first_portrait_from(sh, k + 1);
    }
}

/// Index of the first portrait tag at or after `k`.
pub open spec fn first_portrait_from(sh: Seq<Shape>, k: int) -> Option<int>
    decreases sh.len() - k,
{
    if k < 0 || k >= sh.len() {
        None
    } else if is_portrait(sh[k]) {
        Some(k)
    } else {
        first_portrait_from(sh, k + 1)
    }
}

/// `[5,0]`/`[5,6]` messages: a portrait message when an integer `char_id`
/// is followed by a portrait tag (the run starts at the first string after
/// the tag, so a voice ID placed after the tag stays in the prefix);
/// otherwise a portrait-less message whose run starts at the first string.
pub open spec fn classify_dialogue_spec(sh: Seq<Shape>) -> Option<ClassificationV> {
    if sh.len() == 0 {
        None
    } else if int_of(sh[0]) is Some && first_portrait_from(sh, 1) is Some {
        let i = first_portrait_from(sh, 1)->0;
        Some(
            ClassificationV {
                key: AnchorKeyV::Portrait { char_id: int_of(sh[0])->0, tag: sh[i]->Str_0 },
                prefix_len: match first_str_from(sh, i + 1) {
                    Some(j) => j,
                    None => i + 1,
                },
                run_len: None,
            },
        )
    } else {
        match first_str_from(sh, 0) {
            Some(j) => Some(
                ClassificationV {
                    key: AnchorKeyV::Untagged { char_id: int_of(sh[0]) },
                    prefix_len: j,
                    run_len: None,
                },
            ),
            None => None,
        }
    }
}

/// The integer signature of a narration prefix: the ints in `[i, f)`, with
/// every `11, V` voice marker (an `11` that is not the last of them) left out.
pub open spec fn narration_sig_spec(sh: Seq<Shape>, i: int, f: int, acc: Seq<i32>) -> Option<Seq<i32>>
    decreases f - i,
{
    if i >= f {
        Some(acc)
    } else {
        match int_of(sh[i]) {
            None => None,
            Some(v) => if v == 11 && i + 1 < f {
                narration_sig_spec(sh, i + 2, f, acc)
            } else {
                narration_sig_spec(sh, i + 1, f, acc.push(v))
            },
        }
    }
}

/// `[5,8]`: the anchor key and where the text begins.
pub open spec fn s58_key_spec(sh: Seq<Shape>) -> Option<(AnchorKeyV, int)> {
    if sh.len() > 5 && int_of(sh[1]) == Some(19i32) && int_of(sh[2]) == Some(13i32) && int_of(sh[3])
        == Some(11i32) && int_of(sh[4]) is Some && is_str(sh[5]) {
        Some((AnchorKeyV::Voiced(int_of(sh[4])->0), 5))
    } else if sh.len() > 3 && int_of(sh[1]) == Some(19i32) && int_of(sh[2]) == Some(13i32) && is_str(
        sh[3],
    ) {
        Some((AnchorKeyV::Letter, 3))
    } else if sh.len() > 3 && int_of(sh[1]) == Some(11i32) && int_of(sh[2]) is Some && is_str(sh[3]) {
        Some((AnchorKeyV::Plain, 3))
    } else if sh.len() > 1 && is_str(sh[1]) {
        Some((AnchorKeyV::Plain, 1))
    } else {
        match first_str_from(sh, 0) {
            None => None,
            Some(f) => match narration_sig_spec(sh, 1, f, Seq::empty()) {
                Some(sig) => Some((AnchorKeyV::Narration(sig), f)),
                None => None,
            },
        }
    }
}

/// End of the contiguous string / `Int(10)` span that starts at `k`.
pub open spec fn run_end_from(sh: Seq<Shape>, k: int) -> int
    decreases sh.len() - k,
{
    if k < 0 || k >= sh.len() {
        k
    } else if is_str(sh[k]) || int_of(sh[k]) == Some(10i32) {
        run_end_from(sh, k + 1)
    } else {
        k
    }
}

/// Length of the `[5,8]` text run at `p`; `None` when a string follows the
/// run (a message split around a value placeholder).
pub open spec fn s58_run_len_spec(sh: Seq<Shape>, p: int) -> Option<int> {
    let end = run_end_from(sh, p);
    if first_str_from(sh, end) is Some {
        None
    } else {
        Some(end - p)
    }
}

pub open spec fn classify_s58_spec(sh: Seq<Shape>) -> Option<ClassificationV> {
    if sh.len() == 0 || int_of(sh[0]) is None || first_str_from(sh, 1) is None {
        None
    } else {
        match s58_key_spec(sh) {
            None => None,
            Some(kp) => match s58_run_len_spec(sh, kp.1) {
                None => None,
                Some(n) => Some(ClassificationV { key: kp.0, prefix_len: kp.1, run_len: Some(n) }),
            },
        }
    }
}

/// A map-name label: the leading string, followed by coordinates.
pub open spec fn classify_mapname_spec(sh: Seq<Shape>) -> Option<ClassificationV> {
    if sh.len() > 0 && is_str(sh[0]) {
        Some(ClassificationV { key: AnchorKeyV::MapName, prefix_len: 0, run_len: Some(1) })
    } else {
        None
    }
}

/// A menu entry: the label is the string at arg 1.
pub open spec fn classify_menuitem_spec(sh: Seq<Shape>) -> Option<ClassificationV> {
    if sh.len() > 1 && is_str(sh[1]) {
        Some(ClassificationV { key: AnchorKeyV::MenuItem, prefix_len: 1, run_len: Some(1) })
    } else {
        None
    }
}

/// A speaker label: the string at arg 1, for an integer `char_id` at arg 0.
pub open spec fn classify_displayname_spec(sh: Seq<Shape>) -> Option<ClassificationV> {
    if sh.len() > 1 && is_str(sh[1]) && int_of(sh[0]) is Some {
        Some(
            ClassificationV {
                key: AnchorKeyV::DisplayName { char_id: int_of(sh[0])->0 },
                prefix_len: 1,
                run_len: Some(1),
            },
        )
    } else {
        None
    }
}

pub open spec fn localized_opcode_spec(a: u8, b: u8) -> bool {
    (a == 5 && (b == 0 || b == 6 || b == 8)) || (a == 22 && b == 38)
}

/// Classification of `system[a, b]` called with arguments of shapes `sh`.
pub open spec fn classify_spec(a: u8, b: u8, sh: Seq<Shape>) -> Option<ClassificationV> {
    if a == 5 && (b == 0 || b == 6) {
        classify_dialogue_spec(sh)
    } else if a == 5 && b == 8 {
        classify_s58_spec(sh)
    } else if a == 22 && b == 38 {
        classify_mapname_spec(sh)
    } else {
        None
    }
}

proof fn lemma_no_portrait_from(sh: Seq<Shape>, k: int)
    requires
        k >= 1,
        forall|m: int| 1 <= m < sh.len() ==> !is_portrait(#[trigger] sh[m]),
    ensures
        first_portrait_from(sh, k) is None,
    decreases sh.len() - k,
{
    if k < sh.len() {
        lemma_no_portrait_from(sh, k + 1);
    }
}

/// A portrait key is only ever made from a tag that starts with `<#` and an
/// ASCII uppercase face-set letter: an in-text control code such as `<#20I>`
/// never becomes a portrait anchor.
pub proof fn law_portrait_tag_shape(a: u8, b: u8, sh: Seq<Shape>)
    ensures
        classify_spec(a, b, sh) matches Some(c) ==> (c.key matches AnchorKeyV::Portrait { tag, .. } ==> {
            &&& tag.len() >= 3
            &&& tag[0] == '<'
            &&& tag[1] == '#'
            &&& 'A' <= tag[2] <= 'Z'
        }),
{
    if a == 5 && (b == 0 || b == 6) && sh.len() > 0 && int_of(sh[0]) is Some && first_portrait_from(sh, 1) is Some {
        lemma_first_portrait_from(sh, 1);
    }
}

/// A `[5,0]`/`[5,6]` message that opens with an integer and has no string
/// starting with `<#` and an ASCII uppercase letter (a string such as
/// `<#20I>...`, a control code followed by a digit, does not count) is a
/// message without portrait: it is keyed by its character alone and its
/// run starts at its first string.
pub proof fn law_untagged_without_portrait(b: u8, sh: Seq<Shape>)
    requires
        b == 0 || b == 6,
        sh.len() > 0,
        int_of(sh[0]) is Some,
        forall|m: int|
            1 <= m < sh.len() ==> (#[trigger] sh[m] matches Shape::Str(s) ==> !(s.len() >= 3 && s[0] == '<' && s[1]
                == '#' && 'A' <= s[2] <= 'Z')),
    ensures
        classify_spec(5, b, sh) == match first_str_from(sh, 0) {
            Some(j) => Some(
                ClassificationV { key: AnchorKeyV::Untagged { char_id: int_of(sh[0]) }, prefix_len: j, run_len: None },
            ),
            None => None,
        },
{
    assert forall|m: int| 1 <= m < sh.len() implies !is_portrait(#[trigger] sh[m]) by {
        assert(sh[m] matches Shape::Str(s) ==> !(s.len() >= 3 && s[0] == '<' && s[1] == '#' && 'A' <= s[2] <= 'Z'));
    }
    lemma_no_portrait_from(sh, 1);
}

/// Classification of a call of the named prelude alias `n`.
pub open spec fn classify_named_spec(n: NameV, sh: Seq<Shape>) -> Option<ClassificationV> {
    if n.module.len() != 0 {
        None
    } else if n.local == MAPNAME_FN@ {
        classify_mapname_spec(sh)
    } else if n.local == MENU_ADDITEM_FN@ {
        classify_menuitem_spec(sh)
    } else if n.local == CHR_SET_DISPLAY_NAME_FN@ {
        classify_displayname_spec(sh)
    } else {
        None
    }
}

/// Whether the system opcode `[a, b]` carries localizable text.
pub fn is_localized_opcode(a: u8, b: u8) -> (r: bool)
    ensures
        r == localized_opcode_spec(a, b),
{
    (a == 5 && (b == 0 || b == 6 || b == 8)) || (a == 22 && b == 38)
}

fn is_portrait_tag(s: &String) -> (r: bool)
    ensures
        r == portrait_tag_spec(s@),
{
    let st = s.as_str();
    if st.unicode_len() < 3 {
        return false;
    }
    let c = st.get_char(2);
    st.get_char(0) == '<' && st.get_char(1) == '#' && 'A' <= c && c <= 'Z'
}

fn str_matches(s: &String, lit: &str) -> (r: bool)
    ensures
        r == (s@ == lit@),
{
    let owned = String::from_str(lit);
    *s == owned
}

fn lit_of_value(v: &Value) -> (r: Lit)
    ensures
        r@ == shape_of_value(v@),
{
    match v {
        Value::Int(n) => Lit::Int(*n),
        Value::Str(s) => Lit::Str(s.clone()),
        Value::Other(_) => Lit::Other,
    }
}

fn lit_of_expr(e: &Expr) -> (r: Lit)
    ensures
        r@ == shape_of_expr(e@),
{
    match e {
        Expr::Value(_, v) => lit_of_value(v),
        _ => Lit::Other,
    }
}

fn lit_of_arg(c: &CallArg) -> (r: Lit)
    ensures
        r@ == shape_of_arg(c@),
{
    match c {
        CallArg::Value(v) => lit_of_value(v),
        CallArg::Other(_) => Lit::Other,
    }
}

/// The shapes of a list of expressions.
pub fn lits_of_exprs(args: &[Expr]) -> (r: Vec<Lit>)
    ensures
        lits_v(r@) == shapes_of_exprs(crate::ast::exprs_v(args@)),
{
    let mut out: Vec<Lit> = Vec::new();
    let mut i: usize = 0;
    while i < args.len()
        invariant
            0 <= i <= args@.len(),
            out@.len() == i,
            forall|k: int| 0 <= k < i ==> #[trigger] out@[k]@ == shape_of_expr(args@[k]@),
        decreases args@.len() - i,
    {
        out.push(lit_of_expr(&args[i]));
        i += 1;
    }
    assert(lits_v(out@) =~= shapes_of_exprs(crate::ast::exprs_v(args@)));
    out
}

/// The shapes of a list of literal values.
pub fn lits_of_values(args: &Vec<Value>) -> (r: Vec<Lit>)
    ensures
        lits_v(r@) == shapes_of_values(crate::ast::values_v(args@)),
{
    let mut out: Vec<Lit> = Vec::new();
    let mut i: usize = 0;
    while i < args.len()
        invariant
            0 <= i <= args@.len(),
            out@.len() == i,
            forall|k: int| 0 <= k < i ==> #[trigger] out@[k]@ == shape_of_value(args@[k]@),
        decreases args@.len() - i,
    {
        out.push(lit_of_value(&args[i]));
        i += 1;
    }
    assert(lits_v(out@) =~= shapes_of_values(crate::ast::values_v(args@)));
    out
}

/// The shapes of a list of call-table arguments.
pub fn lits_of_args(args: &[CallArg]) -> (r: Vec<Lit>)
    ensures
        lits_v(r@) == shapes_of_args(crate::ast::call_args_v(args@)),
{
    let mut out: Vec<Lit> = Vec::new();
    let mut i: usize = 0;
    while i < args.len()
        invariant
            0 <= i <= args@.len(),
            out@.len() == i,
            forall|k: int| 0 <= k < i ==> #[trigger] out@[k]@ == shape_of_arg(args@[k]@),
        decreases args@.len() - i,
    {
        out.push(lit_of_arg(&args[i]));
        i += 1;
    }
    assert(lits_v(out@) =~= shapes_of_args(crate::ast::call_args_v(args@)));
    out
}

fn int_at(args: &Vec<Lit>, i: usize) -> (r: Option<i32>)
    requires
        i < args@.len(),
    ensures
        r == int_of(args@[i as int]@),
{
    match &args[i] {
        Lit::Int(n) => Some(*n),
        _ => None,
    }
}

fn str_at(args: &Vec<Lit>, i: usize) -> (r: bool)
    requires
        i < args@.len(),
    ensures
        r == is_str(args@[i as int]@),
{
    match &args[i] {
        Lit::Str(_) => true,
        _ => false,
    }
}

fn first_str(args: &Vec<Lit>, k: usize) -> (r: Option<usize>)
    ensures
        match r {
            Some(j) => first_str_from(lits_v(args@), k as int) == Some(j as int),
            None => first_str_from(lits_v(args@), k as int) is None,
        },
        r matches Some(j) ==> k <= j < args@.len(),
{
    let ghost sh = lits_v(args@);
    let mut i = k;
    while i < args.len()
        invariant
            k <= i,
            sh == lits_v(args@),
            first_str_from(sh, k as int) == first_str_from(sh, i as int),
        decreases args@.len() - i,
    {
        if str_at(args, i) {
            return Some(i);
        }
        i += 1;
    }
    None
}

fn first_portrait(args: &Vec<Lit>, k: usize) -> (r: Option<usize>)
    ensures
        match r {
            Some(j) => first_portrait_from(lits_v(args@), k as int) == Some(j as int),
            None => first_portrait_from(lits_v(args@), k as int) is None,
        },
        r matches Some(j) ==> k <= j < args@.len() && args@[j as int] is Str,
{
    let ghost sh = lits_v(args@);
    let mut i = k;
    while i < args.len()
        invariant
            k <= i,
            sh == lits_v(args@),
            first_portrait_from(sh, k as int) == first_portrait_from(sh, i as int),
        decreases args@.len() - i,
    {
        if let Lit::Str(s) = &args[i] {
            if is_portrait_tag(s) {
                proof { lemma_first_portrait_from(sh, k as int); }
                return Some(i);
            }
        }
        i += 1;
    }
    None
}

fn classify_dialogue(args: &Vec<Lit>) -> (r: Option<Classification>)
    ensures
        class_opt_v(r) == classify_dialogue_spec(lits_v(args@)),
{
    let ghost sh = lits_v(args@);
    if args.len() == 0 {
        return None;
    }
    let char_id = int_at(args, 0);
    if let Some(c) = char_id {
        if let Some(i) = first_portrait(args, 1) {
            if let Lit::Str(tag) = &args[i] {
                let prefix_len = match first_str(args, i + 1) {
                    Some(j) => j,
                    None => i + 1,
                };
                return Some(
                    Classification {
                        key: AnchorKey::Portrait { char_id: c, tag: tag.clone() },
                        prefix_len,
                        run_len: None,
                    },
                );
            }
        }
    }
    match first_str(args, 0) {
        Some(j) => Some(Classification { key: AnchorKey::Untagged { char_id }, prefix_len: j, run_len: None }),
        None => None,
    }
}

fn narration_sig(args: &Vec<Lit>, f: usize) -> (r: Option<Vec<i32>>)
    requires
        f <= args@.len(),
    ensures
        match r {
            Some(sig) => narration_sig_spec(lits_v(args@), 1, f as int, Seq::empty()) == Some(sig@),
            None => narration_sig_spec(lits_v(args@), 1, f as int, Seq::empty()) is None,
        },
{
    let ghost sh = lits_v(args@);
    let mut sig: Vec<i32> = Vec::new();
    let mut i: usize = 1;
    while i < f
        invariant
            1 <= i,
            f <= args@.len(),
            sh == lits_v(args@),
            narration_sig_spec(sh, i as int, f as int, sig@) == narration_sig_spec(sh, 1, f as int, Seq::empty()),
        decreases f - i,
    {
        let v = match int_at(args, i) {
            Some(v) => v,
            None => return None,
        };
        if v == 11 && i + 1 < f {
            i += 2;
        } else {
            sig.push(v);
            i += 1;
        }
    }
    Some(sig)
}

fn s58_key(args: &Vec<Lit>) -> (r: Option<(AnchorKey, usize)>)
    ensures
        match r {
            Some(kp) => s58_key_spec(lits_v(args@)) == Some((kp.0@, kp.1 as int)),
            None => s58_key_spec(lits_v(args@)) is None,
        },
        r matches Some(kp) ==> kp.1 < args@.len(),
{
    let n = args.len();
    if n > 5 && int_at(args, 1) == Some(19i32) && int_at(args, 2) == Some(13i32) && int_at(args, 3)
        == Some(11i32) && str_at(args, 5) {
        if let Some(v) = int_at(args, 4) {
            return Some((AnchorKey::Voiced(v), 5));
        }
    }
    if n > 3 && int_at(args, 1) == Some(19i32) && int_at(args, 2) == Some(13i32) && str_at(args, 3) {
        return Some((AnchorKey::Letter, 3));
    }
    if n > 3 && int_at(args, 1) == Some(11i32) && int_at(args, 2).is_some() && str_at(args, 3) {
        return Some((AnchorKey::Plain, 3));
    }
    if n > 1 && str_at(args, 1) {
        return Some((AnchorKey::Plain, 1));
    }
    let f = match first_str(args, 0) {
        Some(f) => f,
        None => return None,
    };
    match narration_sig(args, f) {
        Some(sig) => Some((AnchorKey::Narration(sig), f)),
        None => None,
    }
}

fn s58_run_len(args: &Vec<Lit>, p: usize) -> (r: Option<usize>)
    requires
        p <= args@.len(),
    ensures
        match r {
            Some(n) => s58_run_len_spec(lits_v(args@), p as int) == Some(n as int),
            None => s58_run_len_spec(lits_v(args@), p as int) is None,
        },
{
    let ghost sh = lits_v(args@);
    let mut end = p;
    while end < args.len() && (str_at(args, end) || int_at(args, end) == Some(10i32))
        invariant
            p <= end <= args@.len(),
            sh == lits_v(args@),
            run_end_from(sh, end as int) == run_end_from(sh, p as int),
        decreases args@.len() - end,
    {
        end += 1;
    }
    if first_str(args, end).is_some() {
        None
    } else {
        Some(end - p)
    }
}

fn classify_s58(args: &Vec<Lit>) -> (r: Option<Classification>)
    ensures
        class_opt_v(r) == classify_s58_spec(lits_v(args@)),
{
    if args.len() == 0 || int_at(args, 0).is_none() || first_str(args, 1).is_none() {
        return None;
    }
    let (key, prefix_len) = match s58_key(args) {
        Some(kp) => kp,
        None => return None,
    };
    assert(prefix_len <= args@.len());
    let run_len = match s58_run_len(args, prefix_len) {
        Some(n) => n,
        None => return None,
    };
    Some(Classification { key, prefix_len, run_len: Some(run_len) })
}

fn classify_mapname(args: &Vec<Lit>) -> (r: Option<Classification>)
    ensures
        class_opt_v(r) == classify_mapname_spec(lits_v(args@)),
{
    if args.len() > 0 && str_at(args, 0) {
        Some(Classification { key: AnchorKey::MapName, prefix_len: 0, run_len: Some(1) })
    } else {
        None
    }
}

fn classify_menuitem(args: &Vec<Lit>) -> (r: Option<Classification>)
    ensures
        class_opt_v(r) == classify_menuitem_spec(lits_v(args@)),
{
    if args.len() > 1 && str_at(args, 1) {
        Some(Classification { key: AnchorKey::MenuItem, prefix_len: 1, run_len: Some(1) })
    } else {
        None
    }
}

fn classify_displayname(args: &Vec<Lit>) -> (r: Option<Classification>)
    ensures
        class_opt_v(r) == classify_displayname_spec(lits_v(args@)),
{
    if args.len() > 1 && str_at(args, 1) {
        if let Some(char_id) = int_at(args, 0) {
            return Some(
                Classification { key: AnchorKey::DisplayName { char_id }, prefix_len: 1, run_len: Some(1) },
            );
        }
    }
    None
}

/// Classify `system[a, b]` with arguments `args`.
pub fn classify_generic(a: u8, b: u8, args: &Vec<Lit>) -> (r: Option<Classification>)
    ensures
        class_opt_v(r) == classify_spec(a, b, lits_v(args@)),
{
    if a == 5 && (b == 0 || b == 6) {
        classify_dialogue(args)
    } else if a == 5 && b == 8 {
        classify_s58(args)
    } else if a == 22 && b == 38 {
        classify_mapname(args)
    } else {
        None
    }
}

/// Classify a call of the named alias `name` with arguments `args`.
pub fn classify_named(name: &Name, args: &Vec<Lit>) -> (r: Option<Classification>)
    ensures
        class_opt_v(r) == classify_named_spec(name@, lits_v(args@)),
{
    if name.module.as_str().unicode_len() != 0 {
        None
    } else if str_matches(&name.local, MAPNAME_FN) {
        classify_mapname(args)
    } else if str_matches(&name.local, MENU_ADDITEM_FN) {
        classify_menuitem(args)
    } else if str_matches(&name.local, CHR_SET_DISPLAY_NAME_FN) {
        classify_displayname(args)
    } else {
        None
    }
}

/// Classify a body syscall `system[a, b](args)`.
pub fn classify_syscall_expr(a: u8, b: u8, args: &[Expr]) -> (r: Option<Classification>)
    ensures
        class_opt_v(r) == classify_spec(a, b, shapes_of_exprs(crate::ast::exprs_v(args@))),
{
    let lits = lits_of_exprs(args);
    classify_generic(a, b, &lits)
}

/// Classify a call-table entry; only syscalls are classified here.
pub fn classify_syscall_call(kind: &CallKind, args: &[CallArg]) -> (r: Option<Classification>)
    ensures
        class_opt_v(r) == match crate::ast::call_kind_v(*kind) {
            crate::ast::CallKindV::Syscall(a, b) => classify_spec(
                a,
                b,
                shapes_of_args(crate::ast::call_args_v(args@)),
            ),
            _ => None,
        },
{
    match kind {
        CallKind::Syscall(a, b) => {
            let lits = lits_of_args(args);
            classify_generic(*a, *b, &lits)
        },
        _ => None,
    }
}

/// Classify a body call of a named prelude alias.
pub fn classify_named_call_expr(name: &Name, args: &[Expr]) -> (r: Option<Classification>)
    ensures
        class_opt_v(r) == classify_named_spec(name@, shapes_of_exprs(crate::ast::exprs_v(args@))),
{
    let lits = lits_of_exprs(args);
    classify_named(name, &lits)
}

/// Classify a call-table entry that calls a named prelude alias.
pub fn classify_named_call_call(name: &Name, args: &[CallArg]) -> (r: Option<Classification>)
    ensures
        class_opt_v(r) == classify_named_spec(name@, shapes_of_args(crate::ast::call_args_v(args@))),
{
    let lits = lits_of_args(args);
    classify_named(name, &lits)
}

fn vec_i32_eq(a: &Vec<i32>, b: &Vec<i32>) -> (r: bool)
    ensures
        r == (a@ == b@),
{
    if a.len() != b.len() {
        return false;
    }
    let mut i: usize = 0;
    while i < a.len()
        invariant
            0 <= i <= a@.len(),
            a@.len() == b@.len(),
            forall|k: int| 0 <= k < i ==> a@[k] == b@[k],
        decreases a@.len() - i,
    {
        if a[i] != b[i] {
            return false;
        }
        i += 1;
    }
    assert(a@ =~= b@);
    true
}

fn copy_vec_i32(a: &Vec<i32>) -> (r: Vec<i32>)
    ensures
        r@ == a@,
{
    let mut out: Vec<i32> = Vec::new();
    let mut i: usize = 0;
    while i < a.len()
        invariant
            0 <= i <= a@.len(),
            out@ == a@.take(i as int),
        decreases a@.len() - i,
    {
        out.push(a[i]);
        proof {
            assert(a@.take(i + 1) =~= a@.take(i as int).push(a@[i as int]));
        }
        i += 1;
    }
    assert(a@.take(a@.len() as int) =~= a@);
    out
}

/// Whether two anchor keys are the same key.
pub fn key_eq(a: &AnchorKey, b: &AnchorKey) -> (r: bool)
    ensures
        r == (a@ == b@),
{
    match (a, b) {
        (AnchorKey::Portrait { char_id: c1, tag: t1 }, AnchorKey::Portrait { char_id: c2, tag: t2 }) => *c1
            == *c2 && *t1 == *t2,
        (AnchorKey::Untagged { char_id: c1 }, AnchorKey::Untagged { char_id: c2 }) => match (c1, c2) {
            (Some(x), Some(y)) => *x == *y,
            (None, None) => true,
            _ => false,
        },
        (AnchorKey::Voiced(v1), AnchorKey::Voiced(v2)) => *v1 == *v2,
        (AnchorKey::Letter, AnchorKey::Letter) => true,
        (AnchorKey::Plain, AnchorKey::Plain) => true,
        (AnchorKey::Narration(s1), AnchorKey::Narration(s2)) => vec_i32_eq(s1, s2),
        (AnchorKey::MapName, AnchorKey::MapName) => true,
        (AnchorKey::MenuItem, AnchorKey::MenuItem) => true,
        (AnchorKey::DisplayName { char_id: c1 }, AnchorKey::DisplayName { char_id: c2 }) => *c1 == *c2,
        _ => false,
    }
}

/// A copy of an anchor key.
pub fn copy_key(k: &AnchorKey) -> (r: AnchorKey)
    ensures
        r@ == k@,
{
    match k {
        AnchorKey::Portrait { char_id, tag } => AnchorKey::Portrait { char_id: *char_id, tag: tag.clone() },
        AnchorKey::Untagged { char_id } => AnchorKey::Untagged { char_id: *char_id },
        AnchorKey::Voiced(v) => AnchorKey::Voiced(*v),
        AnchorKey::Letter => AnchorKey::Letter,
        AnchorKey::Plain => AnchorKey::Plain,
        AnchorKey::Narration(sig) => AnchorKey::Narration(copy_vec_i32(sig)),
        AnchorKey::MapName => AnchorKey::MapName,
        AnchorKey::MenuItem => AnchorKey::MenuItem,
        AnchorKey::DisplayName { char_id } => AnchorKey::DisplayName { char_id: *char_id },
    }
}

} // verus!
