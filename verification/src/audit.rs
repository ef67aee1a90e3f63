//! The text of the audit reports: what a merge left unmatched, which runs
//! it reused and which bodies it substituted, as tab-separated rows, and
//! the labels the reports print for sites, lines, keys and runs.

use vstd::prelude::*;
use crate::anchor::{AnchorKey, AnchorKeyV};
use crate::text_run::{TextRun, run_v};
use crate::walker::Site;
use crate::swap::{BodySubV, BodySubstitutionEntry, OverflowEntry, OverflowV, UnmatchedEntry, UnmatchedV};
use crate::verify::{Violation, ViolationKind, ViolationV};

verus! {

/// Appends `c` to `s` through std's `String::push`, which vstd does not
/// specify. Trusted: the contract claims what std documents, that the
/// string afterwards holds its old characters followed by `c`.
#[verifier::external_body]
fn push_char(s: &mut String, c: char)
    ensures
        final(s)@ == old(s)@.push(c),
{
    s.push(c);
}

/// A character as it stands in a tab-separated field: a tab, line feed or
/// carriage return becomes its backslash escape.
pub open spec fn esc_char(c: char) -> Seq<char> {
    if c == '\t' {
        seq!['\\', 't']
    } else if c == '\n' {
        seq!['\\', 'n']
    } else if c == '\r' {
        seq!['\\', 'r']
    } else {
        seq![c]
    }
}

/// A text as it stands in a tab-separated field.
pub open spec fn tsv_escape_spec(s: Seq<char>) -> Seq<char>
    decreases s.len(),
{
    if s.len() == 0 {
        Seq::empty()
    } else {
        tsv_escape_spec(s.drop_last()) + esc_char(s[s.len() - 1])
    }
}

fn push_escaped(out: &mut String, c: char)
    ensures
        final(out)@ == old(out)@ + esc_char(c),
{
    if c == '\t' {
        push_char(out, '\\');
        push_char(out, 't');
    } else if c == '\n' {
        push_char(out, '\\');
        push_char(out, 'n');
    } else if c == '\r' {
        push_char(out, '\\');
        push_char(out, 'r');
    } else {
        push_char(out, c);
    }
    assert(out@ =~= old(out)@ + esc_char(c));
}

fn push_tsv(out: &mut String, s: &str)
    ensures
        final(out)@ == old(out)@ + tsv_escape_spec(s@),
{
    let ghost o0 = out@;
    let n = s.unicode_len();
    let mut i: usize = 0;
    while i < n
        invariant
            n == s@.len(),
            0 <= i <= n,
            out@ == o0 + tsv_escape_spec(s@.take(i as int)),
        decreases n - i,
    {
        let c = s.get_char(i);
        push_escaped(out, c);
        proof {
            assert(s@.take(i + 1).drop_last() =~= s@.take(i as int));
            assert(out@ =~= o0 + tsv_escape_spec(s@.take(i + 1)));
        }
        i += 1;
    }
    assert(s@.take(n as int) =~= s@);
}

/// Escape tabs, line feeds and carriage returns so that `s` fits in one
/// tab-separated field.
pub fn tsv_escape(s: &str) -> (r: String)
    ensures
        r@ == tsv_escape_spec(s@),
{
    let mut out = String::new();
    push_tsv(&mut out, s);
    assert(out@ =~= tsv_escape_spec(s@));
    out
}

// ---------------------------------------------------------------- numbers

/// The decimal digit `d`.
pub open spec fn digit_char(d: nat) -> char {
    if d == 0 {
        '0'
    } else if d == 1 {
        '1'
    } else if d == 2 {
        '2'
    } else if d == 3 {
        '3'
    } else if d == 4 {
        '4'
    } else if d == 5 {
        '5'
    } else if d == 6 {
        '6'
    } else if d == 7 {
        '7'
    } else if d == 8 {
        '8'
    } else {
        '9'
    }
}

/// `n` in decimal, without leading zeros.
pub open spec fn digits(n: nat) -> Seq<char>
    decreases n,
{
    if n < 10 {
        seq![digit_char(n)]
    } else {
        digits(n / 10) + seq![digit_char(n % 10)]
    }
}

/// `i` in decimal, with a minus sign when negative.
pub open spec fn dec(i: int) -> Seq<char> {
    if i < 0 {
        seq!['-'] + digits((-i) as nat)
    } else {
        digits(i as nat)
    }
}

fn digit(d: u64) -> (c: char)
    requires
        d < 10,
    ensures
        c == digit_char(d as nat),
{
    match d {
        0 => '0',
        1 => '1',
        2 => '2',
        3 => '3',
        4 => '4',
        5 => '5',
        6 => '6',
        7 => '7',
        8 => '8',
        _ => '9',
    }
}

pub(crate) fn push_digits(out: &mut String, n: u64)
    ensures
        final(out)@ == old(out)@ + digits(n as nat),
    decreases n,
{
    if n >= 10 {
        push_digits(out, n / 10);
    }
    push_char(out, digit(n % 10));
    assert(out@ =~= old(out)@ + digits(n as nat));
}

fn push_i32(out: &mut String, i: i32)
    ensures
        final(out)@ == old(out)@ + dec(i as int),
{
    if i < 0 {
        push_char(out, '-');
        let m: i64 = -(i as i64);
        push_digits(out, m as u64);
    } else {
        push_digits(out, i as u64);
    }
    assert(out@ =~= old(out)@ + dec(i as int));
}

// ---------------------------------------------------------------- labels

/// The label of a site.
pub open spec fn site_text(site: Site) -> Seq<char> {
    match site {
        Site::Body => "body"@,
        Site::Called => "called"@,
    }
}

/// The label of a call's site.
pub fn fmt_site(site: Site) -> (r: &'static str)
    ensures
        r@ == site_text(site),
{
    match site {
        Site::Body => "body",
        Site::Called => "called",
    }
}

/// The label of a source line: its number, or nothing when unknown.
pub open spec fn line_text(line: Option<u16>) -> Seq<char> {
    match line {
        Some(n) => digits(n as nat),
        None => Seq::empty(),
    }
}

/// The label of a source line: its number, or an empty text when unknown.
pub fn fmt_line(line: Option<u16>) -> (r: String)
    ensures
        r@ == line_text(line),
{
    let mut out = String::new();
    if let Some(n) = line {
        push_digits(&mut out, n as u64);
    }
    assert(out@ =~= line_text(line));
    out
}

/// Integers separated by `, `.
pub open spec fn ints_text(s: Seq<i32>) -> Seq<char>
    decreases s.len(),
{
    if s.len() == 0 {
        Seq::empty()
    } else if s.len() == 1 {
        dec(s[0] as int)
    } else {
        ints_text(s.drop_last()) + ", "@ + dec(s[s.len() - 1] as int)
    }
}

/// An optional integer as `Some(n)` or `None`.
pub open spec fn opt_text(o: Option<i32>) -> Seq<char> {
    match o {
        Some(n) => "Some("@ + dec(n as int) + ")"@,
        None => "None"@,
    }
}

/// The label of an anchor key; a portrait tag is escaped for a
/// tab-separated field when `escape` holds.
pub open spec fn key_text(k: AnchorKeyV, escape: bool) -> Seq<char> {
    match k {
        AnchorKeyV::Portrait { char_id, tag } => "Portrait(char_id="@ + dec(char_id as int) + ", tag="@ + (if escape {
            tsv_escape_spec(tag)
        } else {
            tag
        }) + ")"@,
        AnchorKeyV::Untagged { char_id } => "Untagged("@ + opt_text(char_id) + ")"@,
        AnchorKeyV::Voiced(v) => "Voiced("@ + dec(v as int) + ")"@,
        AnchorKeyV::Letter => "Letter"@,
        AnchorKeyV::Plain => "Plain"@,
        AnchorKeyV::Narration(prefix) => "Narration(["@ + ints_text(prefix) + "])"@,
        AnchorKeyV::MapName => "MapName"@,
        AnchorKeyV::MenuItem => "MenuItem"@,
        AnchorKeyV::DisplayName { char_id } => "DisplayName(char_id="@ + dec(char_id as int) + ")"@,
    }
}

fn push_ints(out: &mut String, s: &Vec<i32>)
    ensures
        final(out)@ == old(out)@ + ints_text(s@),
{
    let ghost o0 = out@;
    let mut i: usize = 0;
    while i < s.len()
        invariant
            0 <= i <= s@.len(),
            out@ == o0 + ints_text(s@.take(i as int)),
        decreases s@.len() - i,
    {
        if i > 0 {
            out.append(", ");
        }
        push_i32(out, s[i]);
        proof {
            let t = s@.take(i + 1);
            assert(t.drop_last() =~= s@.take(i as int));
            if i == 0 {
                assert(s@.take(0) =~= Seq::<i32>::empty());
                assert(t.len() == 1 && t[0] == s@[0]);
            }
            assert(out@ =~= o0 + ints_text(t));
        }
        i += 1;
    }
    assert(s@.take(s@.len() as int) =~= s@);
}

fn push_key(out: &mut String, key: &AnchorKey, escape: bool)
    ensures
        final(out)@ == old(out)@ + key_text(key@, escape),
{
    let ghost o0 = out@;
    match key {
        AnchorKey::Portrait { char_id, tag } => {
            out.append("Portrait(char_id=");
            push_i32(out, *char_id);
            out.append(", tag=");
            if escape {
                push_tsv(out, tag.as_str());
            } else {
                out.append(tag.as_str());
            }
            out.append(")");
        },
        AnchorKey::Untagged { char_id } => {
            out.append("Untagged(");
            match char_id {
                Some(n) => {
                    out.append("Some(");
                    push_i32(out, *n);
                    out.append(")");
                },
                None => {
                    out.append("None");
                },
            }
            out.append(")");
        },
        AnchorKey::Voiced(v) => {
            out.append("Voiced(");
            push_i32(out, *v);
            out.append(")");
        },
        AnchorKey::Letter => {
            out.append("Letter");
        },
        AnchorKey::Plain => {
            out.append("Plain");
        },
        AnchorKey::Narration(prefix) => {
            out.append("Narration([");
            push_ints(out, prefix);
            out.append("])");
        },
        AnchorKey::MapName => {
            out.append("MapName");
        },
        AnchorKey::MenuItem => {
            out.append("MenuItem");
        },
        AnchorKey::DisplayName { char_id } => {
            out.append("DisplayName(char_id=");
            push_i32(out, *char_id);
            out.append(")");
        },
    }
    assert(out@ =~= o0 + key_text(key@, escape));
}

/// The label of an anchor key in an audit report, its portrait tag escaped.
pub fn fmt_key(key: &AnchorKey) -> (r: String)
    ensures
        r@ == key_text(key@, true),
{
    let mut out = String::new();
    push_key(&mut out, key, true);
    assert(out@ =~= key_text(key@, true));
    out
}

/// The label of an anchor key in a console report, as it is.
pub fn fmt_key_plain(key: &AnchorKey) -> (r: String)
    ensures
        r@ == key_text(key@, false),
{
    let mut out = String::new();
    push_key(&mut out, key, false);
    assert(out@ =~= key_text(key@, false));
    out
}

/// A run's strings, escaped, with `\n` standing for the line breaks
/// between them.
pub open spec fn run_text(run: Seq<Seq<char>>) -> Seq<char>
    decreases run.len(),
{
    if run.len() == 0 {
        Seq::empty()
    } else if run.len() == 1 {
        tsv_escape_spec(run[0])
    } else {
        run_text(run.drop_last()) + seq!['\\', 'n'] + tsv_escape_spec(run[run.len() - 1])
    }
}

fn push_run(out: &mut String, run: &TextRun)
    ensures
        final(out)@ == old(out)@ + run_text(run_v(run@)),
{
    let ghost o0 = out@;
    let ghost rv = run_v(run@);
    let mut i: usize = 0;
    while i < run.len()
        invariant
            0 <= i <= run@.len(),
            rv == run_v(run@),
            out@ == o0 + run_text(rv.take(i as int)),
        decreases run@.len() - i,
    {
        if i > 0 {
            push_char(out, '\\');
            push_char(out, 'n');
        }
        push_tsv(out, run[i].as_str());
        proof {
            let t = rv.take(i + 1);
            assert(t.drop_last() =~= rv.take(i as int));
            if i == 0 {
                assert(rv.take(0) =~= Seq::<Seq<char>>::empty());
                assert(t.len() == 1 && t[0] == rv[0]);
            }
            assert(out@ =~= o0 + run_text(t));
        }
        i += 1;
    }
    assert(rv.take(run@.len() as int) =~= rv);
}

/// The label of a run in an audit report.
pub fn fmt_run(run: &TextRun) -> (r: String)
    ensures
        r@ == run_text(run_v(run@)),
{
    let mut out = String::new();
    push_run(&mut out, run);
    assert(out@ =~= run_text(run_v(run@)));
    out
}

// ---------------------------------------------------------------- reports

/// The header row of the unmatched-calls report.
pub const UNMATCHED_HEADER: &'static str = "file\tfunction\tsite\tline\tkey\tevo_text\n";

/// The header row of the reused-runs report.
pub const OVERFLOW_HEADER: &'static str = "file\tfunction\tsite\tline\tkey\tevo_text\treused_xseed_text\n";

/// The header row of the substituted-bodies report.
pub const BODY_SUBS_HEADER: &'static str = "file\tfunction\tevo_body_kind\tvoice_ids_reinjected\n";

/// One row of the unmatched-calls report.
pub open spec fn unmatched_row(file: Seq<char>, e: UnmatchedV) -> Seq<char> {
    file + "\t"@ + tsv_escape_spec(e.function) + "\t"@ + site_text(e.site) + "\t"@ + line_text(e.line) + "\t"@
        + key_text(e.key, true) + "\t"@ + run_text(e.evo_run) + "\n"@
}

/// One row of the reused-runs report.
pub open spec fn overflow_row(file: Seq<char>, e: OverflowV) -> Seq<char> {
    file + "\t"@ + tsv_escape_spec(e.function) + "\t"@ + site_text(e.site) + "\t"@ + line_text(e.line) + "\t"@
        + key_text(e.key, true) + "\t"@ + run_text(e.evo_run) + "\t"@ + run_text(e.reused_run) + "\n"@
}

/// One row of the substituted-bodies report.
pub open spec fn body_sub_row(file: Seq<char>, e: BodySubV) -> Seq<char> {
    file + "\t"@ + tsv_escape_spec(e.function) + "\t"@ + e.evo_body_kind + "\t"@ + digits(
        e.voice_ids_reinjected as nat,
    ) + "\n"@
}

/// The rows of a report, one per entry, in order.
pub open spec fn rows_text<T>(rows: Seq<(Seq<char>, T)>, row: spec_fn(Seq<char>, T) -> Seq<char>) -> Seq<char>
    decreases rows.len(),
{
    if rows.len() == 0 {
        Seq::empty()
    } else {
        rows_text(rows.drop_last(), row) + row(rows[rows.len() - 1].0, rows[rows.len() - 1].1)
    }
}

pub open spec fn unmatched_rows_v(rows: Seq<(String, UnmatchedEntry)>) -> Seq<(Seq<char>, UnmatchedV)> {
    Seq::new(rows.len(), |i: int| (rows[i].0@, rows[i].1@))
}

pub open spec fn overflow_rows_v(rows: Seq<(String, OverflowEntry)>) -> Seq<(Seq<char>, OverflowV)> {
    Seq::new(rows.len(), |i: int| (rows[i].0@, rows[i].1@))
}

pub open spec fn body_sub_rows_v(rows: Seq<(String, BodySubstitutionEntry)>) -> Seq<(Seq<char>, BodySubV)> {
    Seq::new(rows.len(), |i: int| (rows[i].0@, rows[i].1@))
}

fn push_field_sep(out: &mut String)
    ensures
        final(out)@ == old(out)@ + "\t"@,
{
    out.append("\t");
}

fn push_unmatched_row(out: &mut String, file: &String, e: &UnmatchedEntry)
    ensures
        final(out)@ == old(out)@ + unmatched_row(file@, e@),
{
    let ghost o0 = out@;
    out.append(file.as_str());
    push_field_sep(out);
    push_tsv(out, e.function.as_str());
    push_field_sep(out);
    out.append(fmt_site(e.site));
    push_field_sep(out);
    if let Some(n) = e.line {
        push_digits(out, n as u64);
    }
    push_field_sep(out);
    push_key(out, &e.key, true);
    push_field_sep(out);
    push_run(out, &e.evo_run);
    out.append("\n");
    assert(out@ =~= o0 + unmatched_row(file@, e@));
}

fn push_overflow_row(out: &mut String, file: &String, e: &OverflowEntry)
    ensures
        final(out)@ == old(out)@ + overflow_row(file@, e@),
{
    let ghost o0 = out@;
    out.append(file.as_str());
    push_field_sep(out);
    push_tsv(out, e.function.as_str());
    push_field_sep(out);
    out.append(fmt_site(e.site));
    push_field_sep(out);
    if let Some(n) = e.line {
        push_digits(out, n as u64);
    }
    push_field_sep(out);
    push_key(out, &e.key, true);
    push_field_sep(out);
    push_run(out, &e.evo_run);
    push_field_sep(out);
    push_run(out, &e.reused_run);
    out.append("\n");
    assert(out@ =~= o0 + overflow_row(file@, e@));
}

fn push_body_sub_row(out: &mut String, file: &String, e: &BodySubstitutionEntry)
    ensures
        final(out)@ == old(out)@ + body_sub_row(file@, e@),
{
    let ghost o0 = out@;
    out.append(file.as_str());
    push_field_sep(out);
    push_tsv(out, e.function.as_str());
    push_field_sep(out);
    out.append(e.evo_body_kind);
    push_field_sep(out);
    push_digits(out, e.voice_ids_reinjected as u64);
    out.append("\n");
    assert(out@ =~= o0 + body_sub_row(file@, e@));
}

/// The unmatched-calls report: a header, then one row per `(file, entry)`.
pub fn unmatched_tsv(rows: &Vec<(String, UnmatchedEntry)>) -> (r: String)
    ensures
        r@ == UNMATCHED_HEADER@ + rows_text(
            unmatched_rows_v(rows@),
            |f: Seq<char>, e: UnmatchedV| unmatched_row(f, e),
        ),
{
    let ghost rv = unmatched_rows_v(rows@);
    let ghost row = |f: Seq<char>, e: UnmatchedV| unmatched_row(f, e);
    let mut out = String::new();
    out.append(UNMATCHED_HEADER);
    let mut i: usize = 0;
    while i < rows.len()
        invariant
            0 <= i <= rows@.len(),
            rv == unmatched_rows_v(rows@),
            row == (|f: Seq<char>, e: UnmatchedV| unmatched_row(f, e)),
            out@ == UNMATCHED_HEADER@ + rows_text(rv.take(i as int), row),
        decreases rows@.len() - i,
    {
        let ghost o0 = out@;
        let (file, e) = &rows[i];
        push_unmatched_row(&mut out, file, e);
        proof {
            let t = rv.take(i + 1);
            assert(t.drop_last() =~= rv.take(i as int));
            assert(t[i as int] == (file@, e@));
            assert(out@ =~= UNMATCHED_HEADER@ + rows_text(t, row));
        }
        i += 1;
    }
    assert(rv.take(rows@.len() as int) =~= rv);
    out
}

/// The reused-runs report: a header, then one row per `(file, entry)`.
pub fn overflow_tsv(rows: &Vec<(String, OverflowEntry)>) -> (r: String)
    ensures
        r@ == OVERFLOW_HEADER@ + rows_text(
            overflow_rows_v(rows@),
            |f: Seq<char>, e: OverflowV| overflow_row(f, e),
        ),
{
    let ghost rv = overflow_rows_v(rows@);
    let ghost row = |f: Seq<char>, e: OverflowV| overflow_row(f, e);
    let mut out = String::new();
    out.append(OVERFLOW_HEADER);
    let mut i: usize = 0;
    while i < rows.len()
        invariant
            0 <= i <= rows@.len(),
            rv == overflow_rows_v(rows@),
            row == (|f: Seq<char>, e: OverflowV| overflow_row(f, e)),
            out@ == OVERFLOW_HEADER@ + rows_text(rv.take(i as int), row),
        decreases rows@.len() - i,
    {
        let ghost o0 = out@;
        let (file, e) = &rows[i];
        push_overflow_row(&mut out, file, e);
        proof {
            let t = rv.take(i + 1);
            assert(t.drop_last() =~= rv.take(i as int));
            assert(t[i as int] == (file@, e@));
            assert(out@ =~= OVERFLOW_HEADER@ + rows_text(t, row));
        }
        i += 1;
    }
    assert(rv.take(rows@.len() as int) =~= rv);
    out
}

/// The substituted-bodies report: a header, then one row per
/// `(file, entry)`.
pub fn body_subs_tsv(rows: &Vec<(String, BodySubstitutionEntry)>) -> (r: String)
    ensures
        r@ == BODY_SUBS_HEADER@ + rows_text(
            body_sub_rows_v(rows@),
            |f: Seq<char>, e: BodySubV| body_sub_row(f, e),
        ),
{
    let ghost rv = body_sub_rows_v(rows@);
    let ghost row = |f: Seq<char>, e: BodySubV| body_sub_row(f, e);
    let mut out = String::new();
    out.append(BODY_SUBS_HEADER);
    let mut i: usize = 0;
    while i < rows.len()
        invariant
            0 <= i <= rows@.len(),
            rv == body_sub_rows_v(rows@),
            row == (|f: Seq<char>, e: BodySubV| body_sub_row(f, e)),
            out@ == BODY_SUBS_HEADER@ + rows_text(rv.take(i as int), row),
        decreases rows@.len() - i,
    {
        let ghost o0 = out@;
        let (file, e) = &rows[i];
        push_body_sub_row(&mut out, file, e);
        proof {
            let t = rv.take(i + 1);
            assert(t.drop_last() =~= rv.take(i as int));
            assert(t[i as int] == (file@, e@));
            assert(out@ =~= BODY_SUBS_HEADER@ + rows_text(t, row));
        }
        i += 1;
    }
    assert(rv.take(rows@.len() as int) =~= rv);
    out
}

/// The name of a violation kind.
pub open spec fn kind_text(k: ViolationKind) -> Seq<char> {
    match k {
        ViolationKind::Content => "Content"@,
        ViolationKind::Overlay => "Overlay"@,
        ViolationKind::Delta => "Delta"@,
    }
}

/// The console line for a violation found in `file`.
pub open spec fn violation_text(file: Seq<char>, v: ViolationV) -> Seq<char> {
    "[violation:"@ + kind_text(v.kind) + "] "@ + file + "  "@ + v.function + "  "@ + site_text(v.site) + "  "@
        + key_text(v.key, false) + "  occ="@ + digits(v.occurrence as nat)
}

/// The console line for a violation found in `file`.
pub fn violation_line(file: &str, v: &Violation) -> (r: String)
    ensures
        r@ == violation_text(file@, v@),
{
    let mut out = String::new();
    out.append("[violation:");
    match v.kind {
        ViolationKind::Content => out.append("Content"),
        ViolationKind::Overlay => out.append("Overlay"),
        ViolationKind::Delta => out.append("Delta"),
    }
    out.append("] ");
    out.append(file);
    out.append("  ");
    out.append(v.function.as_str());
    out.append("  ");
    out.append(fmt_site(v.site));
    out.append("  ");
    push_key(&mut out, &v.key, false);
    out.append("  occ=");
    push_digits(&mut out, v.occurrence as u64);
    assert(out@ =~= violation_text(file@, v@));
    out
}

} // verus!
