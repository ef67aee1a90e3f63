//! A call keeps its classification when its text run is replaced by a run
//! that fits the call's anchor: same key, same prefix, and the new run is
//! what the call now spells.

use vstd::prelude::*;
use crate::anchor::{
    AnchorKeyV, ClassificationV, Shape, classify_dialogue_spec, classify_named_spec, classify_s58_spec,
    classify_spec, first_portrait_from, first_str_from, int_of, is_portrait, is_str, narration_sig_spec,
    portrait_tag_spec, run_end_from, s58_key_spec, s58_run_len_spec,
};
use crate::ast::{CallArgV, ExprV, NameV};
use crate::text_run::{build_args_spec, build_exprs_spec, built_len, run_of_shapes, run_shape_ok};
use crate::walker::{run_at, run_end_of, splice};

verus! {

/// The argument shapes that spell `r`.
pub open spec fn run_shapes(r: Seq<Seq<char>>) -> Seq<Shape> {
    Seq::new(
        built_len(r.len() as int) as nat,
        |i: int|
            if i % 2 == 0 {
                Shape::Str(r[i / 2])
            } else {
                Shape::Int(10)
            },
    )
}

/// Whether one of the strings of `r` reads as a portrait tag.
pub open spec fn has_portrait(r: Seq<Seq<char>>) -> bool {
    exists|k: int| 0 <= k < r.len() && portrait_tag_spec(#[trigger] r[k])
}

/// Whether `r` can stand in a call anchored by `key` and be read back
/// there: it holds a string; under a portrait-less key with a speaker, no
/// string of it reads as a portrait tag; under a single-label key, it is
/// one string.
pub open spec fn fits(key: AnchorKeyV, r: Seq<Seq<char>>) -> bool {
    &&& r.len() > 0
    &&& (key matches AnchorKeyV::Untagged { char_id: Some(_) } ==> !has_portrait(r))
    &&& (key is MapName || key is MenuItem || key is DisplayName ==> r.len() == 1)
}

pub proof fn lemma_run_shapes(r: Seq<Seq<char>>)
    ensures
        shapes_of_exprs_build(r),
        crate::anchor::shapes_of_args(build_args_spec(r)) == run_shapes(r),
        run_of_shapes(run_shapes(r)) == Some(r),
        run_shapes(r).len() == built_len(r.len() as int),
        r.len() > 0 ==> run_shapes(r)[0] == Shape::Str(r[0]),
        forall|i: int| 0 <= i < run_shapes(r).len() ==> is_str(#[trigger] run_shapes(r)[i]) || int_of(run_shapes(r)[i]) == Some(10i32),
{
    assert(crate::anchor::shapes_of_exprs(build_exprs_spec(r)) =~= run_shapes(r));
    assert(crate::anchor::shapes_of_args(build_args_spec(r)) =~= run_shapes(r));
    let s = run_shapes(r);
    assert forall|i: int| 0 <= i < s.len() implies (i % 2 == 0 ==> is_str(#[trigger] s[i])) && (i % 2 == 1
        ==> int_of(s[i]) == Some(10i32)) by {}
    assert(run_shape_ok(s));
    assert(Seq::new((s.len() + 1) / 2, |k: int| s[2 * k]->Str_0) =~= r);
}

pub open spec fn shapes_of_exprs_build(r: Seq<Seq<char>>) -> bool {
    crate::anchor::shapes_of_exprs(build_exprs_spec(r)) == run_shapes(r)
}

// ---------------------------------------------------------------- scans

proof fn lemma_first_str_char(sh: Seq<Shape>, k: int)
    requires
        0 <= k,
    ensures
        match first_str_from(sh, k) {
            Some(j) => k <= j < sh.len() && is_str(sh[j]) && forall|i: int| k <= i < j ==> !is_str(#[trigger] sh[i]),
            None => forall|i: int| k <= i < sh.len() ==> !is_str(#[trigger] sh[i]),
        },
    decreases sh.len() - k,
{
    if k < sh.len() && !is_str(sh[k]) {
        lemma_first_str_char(sh, k + 1);
    }
}

proof fn lemma_first_str_at(sh: Seq<Shape>, k: int, j: int)
    requires
        0 <= k <= j < sh.len(),
        is_str(sh[j]),
        forall|i: int| k <= i < j ==> !is_str(#[trigger] sh[i]),
    ensures
        first_str_from(sh, k) == Some(j),
    decreases j - k,
{
    if k < j {
        lemma_first_str_at(sh, k + 1, j);
    }
}

proof fn lemma_first_str_none(sh: Seq<Shape>, k: int)
    requires
        0 <= k,
        forall|i: int| k <= i < sh.len() ==> !is_str(#[trigger] sh[i]),
    ensures
        first_str_from(sh, k) is None,
    decreases sh.len() - k,
{
    if k < sh.len() {
        lemma_first_str_none(sh, k + 1);
    }
}

proof fn lemma_first_portrait_char(sh: Seq<Shape>, k: int)
    requires
        0 <= k,
    ensures
        match first_portrait_from(sh, k) {
            Some(j) => k <= j < sh.len() && is_portrait(sh[j]) && forall|i: int| k <= i < j ==> !is_portrait(#[trigger] sh[i]),
            None => forall|i: int| k <= i < sh.len() ==> !is_portrait(#[trigger] sh[i]),
        },
    decreases sh.len() - k,
{
    if k < sh.len() && !is_portrait(sh[k]) {
        lemma_first_portrait_char(sh, k + 1);
    }
}

proof fn lemma_first_portrait_at(sh: Seq<Shape>, k: int, j: int)
    requires
        0 <= k <= j < sh.len(),
        is_portrait(sh[j]),
        forall|i: int| k <= i < j ==> !is_portrait(#[trigger] sh[i]),
    ensures
        first_portrait_from(sh, k) == Some(j),
    decreases j - k,
{
    if k < j {
        lemma_first_portrait_at(sh, k + 1, j);
    }
}

proof fn lemma_first_portrait_none(sh: Seq<Shape>, k: int)
    requires
        0 <= k,
        forall|i: int| k <= i < sh.len() ==> !is_portrait(#[trigger] sh[i]),
    ensures
        first_portrait_from(sh, k) is None,
    decreases sh.len() - k,
{
    if k < sh.len() {
        lemma_first_portrait_none(sh, k + 1);
    }
}

// ---------------------------------------------------------------- dialogue

proof fn lemma_dialogue_stable(sh: Seq<Shape>, nr: Seq<Seq<char>>)
    requires
        classify_dialogue_spec(sh) is Some,
        run_at(classify_dialogue_spec(sh)->0, sh) is Some,
        fits(classify_dialogue_spec(sh)->0.key, nr),
    ensures
        ({
            let c = classify_dialogue_spec(sh)->0;
            let sh2 = splice(sh, c.prefix_len, run_end_of(c, sh.len() as int), run_shapes(nr));
            &&& classify_dialogue_spec(sh2) is Some
            &&& classify_dialogue_spec(sh2)->0.key == c.key
            &&& classify_dialogue_spec(sh2)->0.prefix_len == c.prefix_len
            &&& run_at(classify_dialogue_spec(sh2)->0, sh2) == Some(nr)
        }),
{
    let c = classify_dialogue_spec(sh)->0;
    let p = c.prefix_len;
    lemma_run_shapes(nr);
    let rs = run_shapes(nr);
    let sh2 = splice(sh, p, sh.len() as int, rs);
    assert(0 <= p <= sh.len());
    assert(sh2 =~= sh.take(p) + rs);
    assert(sh2.len() == p + rs.len());
    assert forall|i: int| 0 <= i < p implies #[trigger] sh2[i] == sh[i] by {}
    assert(sh2[p] == Shape::Str(nr[0]));
    assert(sh2.subrange(p, sh2.len() as int) =~= rs);
    lemma_first_portrait_char(sh, 1);
    if int_of(sh[0]) is Some && first_portrait_from(sh, 1) is Some {
        let i = first_portrait_from(sh, 1)->0;
        lemma_first_str_char(sh, i + 1);
        assert(i < p);
        lemma_first_portrait_at(sh2, 1, i);
        if first_str_from(sh, i + 1) is Some {
            assert(p == first_str_from(sh, i + 1)->0);
        }
        lemma_first_str_at(sh2, i + 1, p);
    } else {
        lemma_first_str_char(sh, 0);
        let j = first_str_from(sh, 0)->0;
        assert(j == p);
        lemma_first_str_at(sh2, 0, p);
        if int_of(sh[0]) is Some {
            assert(p > 0);
            assert(int_of(sh2[0]) == int_of(sh[0]));
            assert(c.key matches AnchorKeyV::Untagged { char_id: Some(_) });
            assert forall|x: int| 1 <= x < sh2.len() implies !is_portrait(#[trigger] sh2[x]) by {
                if x >= p {
                    let y = x - p;
                    if y % 2 == 0 {
                        assert(sh2[x] == Shape::Str(nr[y / 2]));
                        if portrait_tag_spec(nr[y / 2]) {
                            assert(has_portrait(nr));
                        }
                    }
                }
            }
            lemma_first_portrait_none(sh2, 1);
        } else if p > 0 {
            assert(int_of(sh2[0]) is None);
        } else {
            assert(is_str(sh2[0]));
        }
    }
}

// ---------------------------------------------------------------- [5,8]

pub open spec fn run_like(x: Shape) -> bool {
    is_str(x) || int_of(x) == Some(10i32)
}

proof fn lemma_run_end_char(sh: Seq<Shape>, k: int)
    requires
        0 <= k <= sh.len(),
    ensures
        k <= run_end_from(sh, k) <= sh.len(),
        forall|i: int| k <= i < run_end_from(sh, k) ==> run_like(#[trigger] sh[i]),
        run_end_from(sh, k) < sh.len() ==> !run_like(sh[run_end_from(sh, k)]),
    decreases sh.len() - k,
{
    if k < sh.len() && run_like(sh[k]) {
        lemma_run_end_char(sh, k + 1);
    }
}

proof fn lemma_run_end_at(sh: Seq<Shape>, k: int, r: int)
    requires
        0 <= k <= r <= sh.len(),
        forall|i: int| k <= i < r ==> run_like(#[trigger] sh[i]),
        r < sh.len() ==> !run_like(sh[r]),
    ensures
        run_end_from(sh, k) == r,
    decreases r - k,
{
    if k < r {
        lemma_run_end_at(sh, k + 1, r);
    }
}

proof fn lemma_sig_agree(sh: Seq<Shape>, sh2: Seq<Shape>, i: int, f: int, acc: Seq<i32>)
    requires
        0 <= i,
        f <= sh.len(),
        f <= sh2.len(),
        forall|x: int| 0 <= x < f ==> #[trigger] sh[x] == sh2[x],
    ensures
        narration_sig_spec(sh, i, f, acc) == narration_sig_spec(sh2, i, f, acc),
    decreases f - i,
{
    if i < f {
        assert(sh[i] == sh2[i]);
        match int_of(sh[i]) {
            None => {},
            Some(v) => {
                if v == 11 && i + 1 < f {
                    lemma_sig_agree(sh, sh2, i + 2, f, acc);
                } else {
                    lemma_sig_agree(sh, sh2, i + 1, f, acc.push(v));
                }
            },
        }
    }
}

#[verifier::spinoff_prover]
proof fn lemma_s58_stable(sh: Seq<Shape>, nr: Seq<Seq<char>>)
    requires
        classify_s58_spec(sh) is Some,
        run_at(classify_s58_spec(sh)->0, sh) is Some,
        nr.len() > 0,
    ensures
        ({
            let c = classify_s58_spec(sh)->0;
            let sh2 = splice(sh, c.prefix_len, run_end_of(c, sh.len() as int), run_shapes(nr));
            &&& classify_s58_spec(sh2) is Some
            &&& classify_s58_spec(sh2)->0.key == c.key
            &&& classify_s58_spec(sh2)->0.prefix_len == c.prefix_len
            &&& run_at(classify_s58_spec(sh2)->0, sh2) == Some(nr)
        }),
{
    let c = classify_s58_spec(sh)->0;
    let (key, p) = s58_key_spec(sh)->0;
    assert(c.prefix_len == p && c.key == key);
    let n = s58_run_len_spec(sh, p)->0;
    let e = p + n;
    lemma_first_str_char(sh, 0);
    lemma_first_str_char(sh, 1);
    assert(1 <= p < sh.len() && is_str(sh[p])) by {
        if !(sh.len() > 5 && int_of(sh[1]) == Some(19i32) && int_of(sh[2]) == Some(13i32) && int_of(sh[3])
            == Some(11i32) && int_of(sh[4]) is Some && is_str(sh[5])) && !(sh.len() > 3 && int_of(sh[1])
            == Some(19i32) && int_of(sh[2]) == Some(13i32) && is_str(sh[3])) && !(sh.len() > 3 && int_of(
            sh[1],
        ) == Some(11i32) && int_of(sh[2]) is Some && is_str(sh[3])) && !(sh.len() > 1 && is_str(sh[1])) {
            assert(p == first_str_from(sh, 0)->0);
            assert(!is_str(sh[0]));
        }
    }
    lemma_run_end_char(sh, p);
    assert(run_end_from(sh, p) == e);
    lemma_first_str_char(sh, e);
    lemma_run_shapes(nr);
    let rs = run_shapes(nr);
    let m = rs.len() as int;
    let sh2 = splice(sh, p, e, rs);
    assert(sh2 =~= sh.take(p) + rs + sh.skip(e));
    assert(sh2.len() == sh.len() - n + m);
    assert forall|i: int| 0 <= i < p implies #[trigger] sh2[i] == sh[i] by {}
    assert forall|i: int| p <= i < p + m implies #[trigger] sh2[i] == rs[i - p] by {}
    assert forall|i: int| p + m <= i < sh2.len() implies #[trigger] sh2[i] == sh[i - m + n] by {}
    assert(sh2[p] == Shape::Str(nr[0]));
    // the scan of the new run stops where the old one did
    assert forall|i: int| p <= i < p + m implies run_like(#[trigger] sh2[i]) by {
        assert(sh2[i] == rs[i - p]);
    }
    if p + m < sh2.len() {
        assert(sh2[p + m] == sh[e]);
    }
    lemma_run_end_at(sh2, p, p + m);
    assert forall|i: int| p + m <= i < sh2.len() implies !is_str(#[trigger] sh2[i]) by {
        assert(sh2[i] == sh[i - m + n]);
    }
    lemma_first_str_none(sh2, p + m);
    assert(s58_run_len_spec(sh2, p) == Some(m));
    // the head of the call reads the same
    assert(int_of(sh2[0]) == int_of(sh[0]));
    assert(first_str_from(sh2, 1) is Some) by {
        let q = first_str_from(sh, 1)->0;
        if q < p {
            assert(sh2[q] == sh[q]);
            lemma_first_str_char(sh2, 1);
            if first_str_from(sh2, 1) is None {
                assert(!is_str(sh2[q]));
            }
        } else {
            lemma_first_str_char(sh2, 1);
            if first_str_from(sh2, 1) is None {
                assert(!is_str(sh2[p]));
            }
        }
    }
    assert(p <= 5 ==> forall|i: int| 0 <= i <= p ==> #[trigger] is_str(sh2[i]) == is_str(sh[i]));
    if !(sh.len() > 5 && int_of(sh[1]) == Some(19i32) && int_of(sh[2]) == Some(13i32) && int_of(sh[3])
        == Some(11i32) && int_of(sh[4]) is Some && is_str(sh[5])) && !(sh.len() > 3 && int_of(sh[1])
        == Some(19i32) && int_of(sh[2]) == Some(13i32) && is_str(sh[3])) && !(sh.len() > 3 && int_of(sh[1])
        == Some(11i32) && int_of(sh[2]) is Some && is_str(sh[3])) && !(sh.len() > 1 && is_str(sh[1])) {
        // narration
        assert(p == first_str_from(sh, 0)->0);
        lemma_first_str_at(sh2, 0, p);
        lemma_sig_agree(sh, sh2, 1, p, Seq::empty());
        if p <= 5 {
            assert(sh2[p] == Shape::Str(nr[0]));
        }
    }
    assert(sh2.subrange(p, p + m) =~= rs);
}

// ---------------------------------------------------------------- all calls

/// What a call classified as `c` (arguments of shapes `sh`) is after its
/// run is replaced by `nr`: classified with the same key and prefix, and
/// spelling `nr`.
pub open spec fn stays_classified(
    after: Option<ClassificationV>,
    c: ClassificationV,
    sh2: Seq<Shape>,
    nr: Seq<Seq<char>>,
) -> bool {
    &&& after is Some
    &&& after->0.key == c.key
    &&& after->0.prefix_len == c.prefix_len
    &&& run_at(after->0, sh2) == Some(nr)
}

proof fn lemma_label_stable(sh: Seq<Shape>, c: ClassificationV, nr: Seq<Seq<char>>)
    requires
        c.run_len == Some(1int),
        0 <= c.prefix_len,
        c.prefix_len + 1 <= sh.len(),
        nr.len() == 1,
    ensures
        ({
            let sh2 = splice(sh, c.prefix_len, run_end_of(c, sh.len() as int), run_shapes(nr));
            &&& sh2.len() == sh.len()
            &&& forall|i: int| 0 <= i < sh.len() && i != c.prefix_len ==> #[trigger] sh2[i] == sh[i]
            &&& sh2[c.prefix_len] == Shape::Str(nr[0])
            &&& run_at(c, sh2) == Some(nr)
        }),
{
    lemma_run_shapes(nr);
    let p = c.prefix_len;
    let sh2 = splice(sh, p, p + 1, run_shapes(nr));
    assert(run_shapes(nr).len() == 1);
    assert(sh2 =~= sh.take(p) + run_shapes(nr) + sh.skip(p + 1));
    assert(sh2.subrange(p, p + 1) =~= run_shapes(nr));
}

/// A `system[a, b]` call keeps its classification when its run is replaced
/// by a run that fits its key.
pub proof fn lemma_syscall_stable(a: u8, b: u8, sh: Seq<Shape>, nr: Seq<Seq<char>>)
    requires
        classify_spec(a, b, sh) is Some,
        run_at(classify_spec(a, b, sh)->0, sh) is Some,
        fits(classify_spec(a, b, sh)->0.key, nr),
    ensures
        ({
            let c = classify_spec(a, b, sh)->0;
            let sh2 = splice(sh, c.prefix_len, run_end_of(c, sh.len() as int), run_shapes(nr));
            stays_classified(classify_spec(a, b, sh2), c, sh2, nr)
        }),
{
    if a == 5 && (b == 0 || b == 6) {
        lemma_dialogue_stable(sh, nr);
    } else if a == 5 && b == 8 {
        lemma_s58_stable(sh, nr);
    } else {
        let c = classify_spec(a, b, sh)->0;
        lemma_label_stable(sh, c, nr);
    }
}

/// A call of a named prelude alias keeps its classification when its run
/// is replaced by a run that fits its key.
pub proof fn lemma_named_stable(n: NameV, sh: Seq<Shape>, nr: Seq<Seq<char>>)
    requires
        classify_named_spec(n, sh) is Some,
        run_at(classify_named_spec(n, sh)->0, sh) is Some,
        fits(classify_named_spec(n, sh)->0.key, nr),
    ensures
        ({
            let c = classify_named_spec(n, sh)->0;
            let sh2 = splice(sh, c.prefix_len, run_end_of(c, sh.len() as int), run_shapes(nr));
            stays_classified(classify_named_spec(n, sh2), c, sh2, nr)
        }),
{
    let c = classify_named_spec(n, sh)->0;
    lemma_label_stable(sh, c, nr);
}

// ---------------------------------------------------------------- runs read out of calls

proof fn lemma_run_strings(sh: Seq<Shape>, p: int, e: int, k: int)
    requires
        0 <= p <= e <= sh.len(),
        run_of_shapes(sh.subrange(p, e)) is Some,
        0 <= k < run_of_shapes(sh.subrange(p, e))->0.len(),
    ensures
        p + 2 * k < e,
        sh[p + 2 * k] == Shape::Str(run_of_shapes(sh.subrange(p, e))->0[k]),
{
    let t = sh.subrange(p, e);
    assert(run_shape_ok(t));
    assert(2 * k < t.len());
    assert(crate::anchor::is_str(t[2 * k]));
    assert(t[2 * k] == sh[p + 2 * k]);
}

/// A run read out of a `system[a, b]` call fits the call's key, when it
/// holds a string.
pub proof fn lemma_syscall_run_fits(a: u8, b: u8, sh: Seq<Shape>)
    requires
        classify_spec(a, b, sh) is Some,
        run_at(classify_spec(a, b, sh)->0, sh) is Some,
        run_at(classify_spec(a, b, sh)->0, sh)->0.len() > 0,
    ensures
        fits(classify_spec(a, b, sh)->0.key, run_at(classify_spec(a, b, sh)->0, sh)->0),
{
    let c = classify_spec(a, b, sh)->0;
    let p = c.prefix_len;
    let e = run_end_of(c, sh.len() as int);
    let r = run_at(c, sh)->0;
    if c.key matches AnchorKeyV::Untagged { char_id: Some(_) } {
        assert(a == 5 && (b == 0 || b == 6));
        lemma_first_portrait_char(sh, 1);
        lemma_first_str_char(sh, 0);
        assert(p >= 1);
        if has_portrait(r) {
            let k = choose|k: int| 0 <= k < r.len() && portrait_tag_spec(#[trigger] r[k]);
            lemma_run_strings(sh, p, e, k);
            assert(is_portrait(sh[p + 2 * k]));
        }
    }
    if c.key is MapName || c.key is MenuItem || c.key is DisplayName {
        assert(e == p + 1);
    }
}

/// A run read out of a call of a named prelude alias fits the call's key.
pub proof fn lemma_named_run_fits(n: NameV, sh: Seq<Shape>)
    requires
        classify_named_spec(n, sh) is Some,
        run_at(classify_named_spec(n, sh)->0, sh) is Some,
    ensures
        fits(classify_named_spec(n, sh)->0.key, run_at(classify_named_spec(n, sh)->0, sh)->0),
{
    let c = classify_named_spec(n, sh)->0;
    let p = c.prefix_len;
    assert(run_end_of(c, sh.len() as int) == p + 1);
    assert(sh.subrange(p, p + 1).len() == 1);
}


/// A `system` call's text run, where it can be read, starts with a string:
/// the argument at the start of the run is no integer.
pub proof fn lemma_syscall_run_start(a: u8, b: u8, sh: Seq<Shape>)
    requires
        classify_spec(a, b, sh) is Some,
        run_at(classify_spec(a, b, sh)->0, sh) is Some,
    ensures
        ({
            let p = classify_spec(a, b, sh)->0.prefix_len;
            0 <= p <= sh.len() && (p < sh.len() ==> is_str(sh[p]))
        }),
{
    let c = classify_spec(a, b, sh)->0;
    let p = c.prefix_len;
    let e = run_end_of(c, sh.len() as int);
    if p < e {
        lemma_run_strings(sh, p, e, 0);
    } else if a == 5 && (b == 0 || b == 6) {
        if int_of(sh[0]) is Some && first_portrait_from(sh, 1) is Some {
            let i = first_portrait_from(sh, 1)->0;
            lemma_first_portrait_char(sh, 1);
            lemma_first_str_char(sh, i + 1);
        } else {
            lemma_first_str_char(sh, 0);
        }
    } else if a == 5 && b == 8 {
        lemma_first_str_char(sh, 0);
    }
}


// ---------------------------------------------------------------- narration keys and voice pairs

/// The shapes of `ints`, as integer arguments.
pub open spec fn int_shapes(ints: Seq<i32>) -> Seq<Shape> {
    Seq::new(ints.len(), |i: int| Shape::Int(ints[i]))
}

/// Over a stretch of integers none of which is `11`, the narration
/// signature takes each integer as it is.
proof fn lemma_sig_plain(sh: Seq<Shape>, i: int, k: int, f: int, acc: Seq<i32>, ints: Seq<i32>)
    requires
        0 <= i <= k <= f <= sh.len(),
        ints.len() == k - i,
        forall|j: int| 0 <= j < ints.len() ==> sh[i + j] == Shape::Int(#[trigger] ints[j]) && ints[j] != 11,
    ensures
        narration_sig_spec(sh, i, f, acc) == narration_sig_spec(sh, k, f, acc + ints),
    decreases k - i,
{
    if i == k {
        assert(acc + ints =~= acc);
    } else {
        assert(sh[i] == Shape::Int(ints[0]));
        let rest = ints.subrange(1, ints.len() as int);
        assert forall|j: int| 0 <= j < rest.len() implies sh[i + 1 + j] == Shape::Int(#[trigger] rest[j])
            && rest[j] != 11 by {
            assert(rest[j] == ints[j + 1]);
        }
        lemma_sig_plain(sh, i + 1, k, f, acc.push(ints[0]), rest);
        assert(acc.push(ints[0]) + rest =~= acc + ints);
    }
}

/// An `11, V` voice pair that EVO inserts after a `[5,8]` narration's
/// integer prefix moves the start of the text past it, and leaves the
/// call's anchor key, `Narration(P)`, as it was: for a non-empty prefix `P`
/// holding no `11` and not starting `19, 13`, and text shapes `S` that
/// begin with a string, `65535, P, S` is keyed `Narration(P)` with its text
/// at `1 + |P|`, and `65535, P, 11, V, S` is keyed `Narration(P)` with its
/// text at `3 + |P|`.
pub proof fn law_narration_voice_pair(p: Seq<i32>, v: i32, s: Seq<Shape>)
    requires
        p.len() > 0,
        forall|j: int| 0 <= j < p.len() ==> #[trigger] p[j] != 11,
        !(p.len() >= 2 && p[0] == 19 && p[1] == 13),
        s.len() > 0,
        is_str(s[0]),
    ensures
        s58_key_spec(seq![Shape::Int(65535)] + int_shapes(p) + s) == Some(
            (AnchorKeyV::Narration(p), 1 + p.len() as int),
        ),
        s58_key_spec(seq![Shape::Int(65535)] + int_shapes(p) + seq![Shape::Int(11), Shape::Int(v)] + s) == Some(
            (AnchorKeyV::Narration(p), 3 + p.len() as int),
        ),
{
    let n = p.len() as int;
    let sh1 = seq![Shape::Int(65535)] + int_shapes(p) + s;
    let sh2 = seq![Shape::Int(65535)] + int_shapes(p) + seq![Shape::Int(11), Shape::Int(v)] + s;
    assert forall|j: int| 0 <= j < n implies sh1[1 + j] == Shape::Int(#[trigger] p[j]) && p[j] != 11 by {
        assert(sh1[1 + j] == int_shapes(p)[j]);
    }
    assert forall|j: int| 0 <= j < n implies sh2[1 + j] == Shape::Int(#[trigger] p[j]) && p[j] != 11 by {
        assert(sh2[1 + j] == int_shapes(p)[j]);
    }
    assert(sh1[1 + n] == s[0]);
    assert(sh2[1 + n] == Shape::Int(11));
    assert(sh2[2 + n] == Shape::Int(v));
    assert(sh2[3 + n] == s[0]);
    assert(sh1[1] == Shape::Int(p[0]));
    assert(sh2[1] == Shape::Int(p[0]));
    if n >= 2 {
        assert(sh1[2] == Shape::Int(p[1]));
        assert(sh2[2] == Shape::Int(p[1]));
    } else {
        assert(sh1[2] == s[0]);
        assert(sh2[2] == Shape::Int(11));
    }
    // where the text begins
    assert forall|j: int| 0 <= j < 1 + n implies !is_str(#[trigger] sh1[j]) by {
        if j > 0 {
            assert(sh1[1 + (j - 1)] == Shape::Int(p[j - 1]));
        }
    }
    assert forall|j: int| 0 <= j < 3 + n implies !is_str(#[trigger] sh2[j]) by {
        if 0 < j < 1 + n {
            assert(sh2[1 + (j - 1)] == Shape::Int(p[j - 1]));
        }
    }
    lemma_first_str_at(sh1, 0, 1 + n);
    lemma_first_str_at(sh2, 0, 3 + n);
    // the signature
    lemma_sig_plain(sh1, 1, 1 + n, 1 + n, Seq::empty(), p);
    assert(Seq::<i32>::empty() + p =~= p);
    lemma_sig_plain(sh2, 1, 1 + n, 3 + n, Seq::empty(), p);
    assert(narration_sig_spec(sh2, 1 + n, 3 + n, p) == narration_sig_spec(sh2, 3 + n, 3 + n, p));
}

// ---------------------------------------------------------------- emptied runs

/// A `system` call that keeps its place without text when its run is
/// emptied (a portrait call whose text starts right after the tag) stays
/// classified the same way, with an empty run.
pub proof fn lemma_syscall_empty_stable(a: u8, b: u8, sh: Seq<Shape>)
    requires
        classify_spec(a, b, sh) is Some,
        run_at(classify_spec(a, b, sh)->0, sh) is Some,
        crate::walker::empty_keeps(classify_spec(a, b, sh)->0, sh),
    ensures
        ({
            let c = classify_spec(a, b, sh)->0;
            let sh2 = splice(sh, c.prefix_len, run_end_of(c, sh.len() as int), run_shapes(Seq::empty()));
            &&& sh2 == sh.take(c.prefix_len)
            &&& stays_classified(classify_spec(a, b, sh2), c, sh2, Seq::empty())
        }),
{
    let c = classify_spec(a, b, sh)->0;
    assert(a == 5 && (b == 0 || b == 6));
    assert(int_of(sh[0]) is Some && first_portrait_from(sh, 1) is Some);
    let i = first_portrait_from(sh, 1)->0;
    lemma_first_portrait_char(sh, 1);
    lemma_first_str_char(sh, i + 1);
    let p = c.prefix_len;
    assert(c.run_len is None);
    assert(p == i + 1) by {
        if p != i + 1 {
            assert(i + 1 <= p - 1);
            assert(!is_str(sh[p - 1]));
        }
    }
    let sh2 = sh.take(p);
    assert(run_shapes(Seq::<Seq<char>>::empty()) =~= Seq::<Shape>::empty());
    assert(splice(sh, p, sh.len() as int, run_shapes(Seq::empty())) =~= sh2);
    assert(sh2[0] == sh[0]);
    assert(sh2[i] == sh[i]);
    assert forall|k: int| 1 <= k < i implies !is_portrait(#[trigger] sh2[k]) by {
        assert(sh2[k] == sh[k]);
    }
    lemma_first_portrait_at(sh2, 1, i);
    assert(first_str_from(sh2, i + 1) is None);
    assert(sh2.subrange(p, p) =~= Seq::<Shape>::empty());
    assert(run_of_shapes(Seq::<Shape>::empty()) == Some(Seq::<Seq<char>>::empty())) by {
        assert(Seq::new(0nat, |k: int| Seq::<Shape>::empty()[2 * k]->Str_0) =~= Seq::<Seq<char>>::empty());
    }
}
} // verus!
