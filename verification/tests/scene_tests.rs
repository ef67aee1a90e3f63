//! Whole-scene scenarios: small scripts holding the lines these scenes are
//! known for, merged and then written out as text the way a scene script
//! reads, so that the checks can look for the merged wording and the voice
//! cues that must survive.

use sora_remake_merge::swap::swap_scena;
use sora_remake_merge::verify::verify_scena;
use sora_remake_merge::AnchorKey;
use sora_remake_merge::Op;
use sora_remake_merge::SwapStats;
use sora_remake_merge::Body;
use sora_remake_merge::Call;
use sora_remake_merge::CallArg;
use sora_remake_merge::CallKind;
use sora_remake_merge::Called;
use sora_remake_merge::Expr;
use sora_remake_merge::Function;
use sora_remake_merge::Name;
use sora_remake_merge::Scena;
use sora_remake_merge::Stmt;
use sora_remake_merge::Value;

// ---------------------------------------------------------------- writing a script out

/// The literals these scenes keep as opaque leaves (map coordinates),
/// indexed by handle.
const LEAVES: [&str; 3] = ["110.0", "505.0", "5.0"];

fn value_text(v: &Value) -> String {
    match v {
        Value::Int(n) => n.to_string(),
        Value::Str(s) => format!("\"{s}\""),
        Value::Other(h) => LEAVES
            .get(*h as usize)
            .map_or_else(|| format!("#{h}"), |t| (*t).to_string()),
    }
}

fn name_text(n: &Name) -> String {
    if n.module.is_empty() {
        n.local.clone()
    } else {
        format!("{}.{}", n.module, n.local)
    }
}

fn expr_text(e: &Expr) -> String {
    match e {
        Expr::Value(_, v) => value_text(v),
        Expr::Var(_, h) => format!("var{h}"),
        Expr::Ref(_, h) => format!("ref{h}"),
        Expr::Syscall(_, a, b, args) => format!("system[{a},{b}]({})", exprs_text(args)),
        Expr::Call(_, n, args) => format!("{}({})", name_text(n), exprs_text(args)),
        Expr::Unop(_, op, x) => format!("op{op}({})", expr_text(x)),
        Expr::Binop(_, op, x, y) => format!("op{op}({}, {})", expr_text(x), expr_text(y)),
    }
}

fn exprs_text(args: &[Expr]) -> String {
    args.iter().map(expr_text).collect::<Vec<_>>().join(", ")
}

fn stmts_text(stmts: &[Stmt], out: &mut String) {
    for s in stmts {
        match s {
            Stmt::Expr(e) => out.push_str(&format!("{};\n", expr_text(e))),
            Stmt::Assign(_, h, e) => out.push_str(&format!("var{h} = {};\n", expr_text(e))),
            Stmt::Return(_, e) | Stmt::PushVar(_, _, e) => {
                if let Some(e) = e {
                    out.push_str(&format!("return {};\n", expr_text(e)));
                }
            }
            Stmt::If(_, c, t, els) => {
                out.push_str(&format!("if {} {{\n", expr_text(c)));
                stmts_text(t, out);
                if let Some(els) = els {
                    out.push_str("} else {\n");
                    stmts_text(els, out);
                }
                out.push_str("}\n");
            }
            Stmt::While(_, c, b) => {
                out.push_str(&format!("while {} {{\n", expr_text(c)));
                stmts_text(b, out);
                out.push_str("}\n");
            }
            Stmt::Switch(_, c, arms) => {
                out.push_str(&format!("switch {} {{\n", expr_text(c)));
                for arm in arms {
                    stmts_text(&arm.body, out);
                }
                out.push_str("}\n");
            }
            Stmt::Block(b) => stmts_text(b, out),
            Stmt::Debug(_, args) => out.push_str(&format!("debug({});\n", exprs_text(args))),
            Stmt::Tailcall(_, n, args) => {
                out.push_str(&format!("tailcall {}({});\n", name_text(n), exprs_text(args)))
            }
            Stmt::Break => out.push_str("break;\n"),
            Stmt::Continue => out.push_str("continue;\n"),
        }
    }
}

fn call_text(c: &Call) -> String {
    let args = c
        .args
        .iter()
        .map(|a| match a {
            CallArg::Value(v) => value_text(v),
            CallArg::Other(h) => format!("#{h}"),
        })
        .collect::<Vec<_>>()
        .join(", ");
    match &c.kind {
        CallKind::Syscall(a, b) => format!("system[{a},{b}]({args})"),
        CallKind::Normal(n) => format!("{}({args})", name_text(n)),
        CallKind::Tailcall(n) => format!("tailcall {}({args})", name_text(n)),
    }
}

fn scena_text(scena: &Scena) -> String {
    let mut out = String::new();
    for (name, f) in &scena.functions {
        out.push_str(&format!("fn {name}"));
        if let Called::Raw(calls) = &f.called {
            out.push_str(" calls {\n");
            for c in calls {
                out.push_str(&format!("{};\n", call_text(c)));
            }
            out.push('}');
        }
        match &f.body {
            Body::Tree(stmts) => {
                out.push_str(" {\n");
                stmts_text(stmts, &mut out);
            }
            Body::Flat(_) => out.push_str(" flat {\n"),
            Body::Asm(ops) => {
                out.push_str(" asm {\n");
                for op in ops {
                    out.push_str(&format!("{op:?};\n"));
                }
            }
        }
        out.push_str("}\n");
    }
    out
}

// ---------------------------------------------------------------- building scripts

fn iv(n: i32) -> Expr {
    Expr::Value(None, Value::Int(n))
}
fn sv(s: &str) -> Expr {
    Expr::Value(None, Value::Str(s.to_string()))
}
fn cv(n: i32) -> CallArg {
    CallArg::Value(Value::Int(n))
}
fn cs(s: &str) -> CallArg {
    CallArg::Value(Value::Str(s.to_string()))
}

/// A run spelled as call arguments: strings separated by line breaks.
fn run(lines: &[&str]) -> Vec<Expr> {
    let mut out = Vec::new();
    for (i, l) in lines.iter().enumerate() {
        if i > 0 {
            out.push(iv(10));
        }
        out.push(sv(l));
    }
    out
}

fn dialogue(b: u8, head: Vec<Expr>, lines: &[&str]) -> Stmt {
    let mut args = head;
    args.extend(run(lines));
    Stmt::Expr(Expr::Syscall(None, 5, b, args))
}

fn voiced_letter(v: i32, lines: &[&str]) -> Stmt {
    dialogue(8, vec![iv(65535), iv(19), iv(13), iv(11), iv(v)], lines)
}

fn function(called: Called, body: Vec<Stmt>) -> Function {
    Function {
        args: Vec::new(),
        called,
        is_prelude: false,
        body: Body::Tree(body),
    }
}

fn apply_swap(evo: Scena, xseed: &Scena) -> String {
    let mut evo = evo;
    let stats = swap_scena(&mut evo, xseed);
    assert!(
        stats.swaps_applied > 0,
        "expected at least one swap, got {stats:?}"
    );
    scena_text(&evo)
}

const LUGRAN_TAG: &str = "<#E_0#M_0#B_0>";

fn mp1010_04(xseed: bool) -> Scena {
    let lugran = |lines: &[&str]| {
        if xseed {
            dialogue(0, vec![iv(134), sv(LUGRAN_TAG)], lines)
        } else {
            dialogue(0, vec![iv(134), iv(11), iv(33247), sv(LUGRAN_TAG)], lines)
        }
    };
    let voice = |v: i32| if xseed { vec![] } else { vec![iv(11), iv(v)] };
    let mut joshua_head = vec![iv(1)];
    joshua_head.extend(voice(60589));
    joshua_head.push(sv("<#E_2#M_2#B_0>"));
    let mut estelle_head = vec![iv(0)];
    estelle_head.extend(voice(60593));
    estelle_head.push(sv("<#E_0#M_0#B_0>"));
    let mut lugran_l_head = vec![iv(134)];
    lugran_l_head.extend(voice(34793));
    lugran_l_head.push(sv("<#L_0#G[2]#M_2#B_0>"));
    let mut estelle_e_head = vec![iv(0)];
    estelle_e_head.extend(voice(34871));
    estelle_e_head.push(sv("<#E_E#M_2#B_0>"));

    let mut body = vec![
        if xseed {
            lugran(&["<P2>Yes, I received a call from Aina", "not that long ago."])
        } else {
            lugran(&["<P2>Yes, from Aina."])
        },
        dialogue(
            0,
            joshua_head,
            if xseed {
                &["Jurisdiction again... These jurisdictional", "disputes never end."]
            } else {
                &["In other words, this is a power", "struggle between the two."]
            },
        ),
        dialogue(
            0,
            estelle_head,
            if xseed {
                &["<P1>General Morgan? Who's that?"]
            } else {
                &["<P1>Who's this General Morgan guy?"]
            },
        ),
        dialogue(
            6,
            lugran_l_head,
            if xseed {
                &["N-Now hold on... Maybe I'm not in", "the best position to say this..."]
            } else {
                &["Wait..."]
            },
        ),
        dialogue(
            6,
            estelle_e_head,
            if xseed {
                &["That voice sounds suspiciously", "familiar..."]
            } else {
                &["That voice..."]
            },
        ),
    ];
    for v in 34832..=34844 {
        let text = if v == 34832 {
            if xseed {
                "'Dear Estelle and Joshua,'"
            } else {
                "\"Dear Estelle and Joshua,\""
            }
        } else if xseed {
            "(letter, Xseed wording)"
        } else {
            "(letter, GungHo wording)"
        };
        if xseed {
            body.push(voiced_letter(v, &[text]));
        } else {
            body.push(voiced_letter(v, &[text]));
        }
    }
    let called = if xseed {
        Called::Merged(false)
    } else {
        Called::Raw(vec![Call {
            kind: CallKind::Syscall(5, 0),
            args: vec![cv(134), cv(11), cv(33247), cs(LUGRAN_TAG), cs("<P2>Yes, from Aina.")],
        }])
    };
    Scena {
        functions: vec![("EV_01_60_00".to_string(), function(called, body))],
    }
}

fn apply_swap_mp1010_04() -> String {
    apply_swap(mp1010_04(false), &mp1010_04(true))
}

#[test]
fn lugran_yes_from_aina_swapped_both_occurrences() {
    let out = apply_swap_mp1010_04();
    assert!(
        out.contains("<P2>Yes, I received a call from Aina"),
        "missing Xseed Lugran wording"
    );
    assert!(
        out.contains("not that long ago."),
        "missing Xseed Lugran continuation"
    );
    assert!(
        !out.contains("<P2>Yes, from Aina."),
        "old EVO wording still present"
    );
    assert!(out.contains("11, 33247"), "voice id 11, 33247 must survive");
    let count = out.matches("<P2>Yes, I received a call from Aina").count();
    assert!(count >= 2, "expected >=2 occurrences, got {count}");
}

#[test]
fn joshua_jurisdictional_disputes_swapped() {
    let out = apply_swap_mp1010_04();
    assert!(out.contains("jurisdictional"), "missing Xseed wording");
    assert!(
        !out.contains("In other words, this is a power"),
        "old EVO Joshua wording still present"
    );
    assert!(
        out.contains("11, 60589"),
        "EVO voice id 11, 60589 must survive"
    );
}

#[test]
fn estelle_general_morgan_swapped() {
    let out = apply_swap_mp1010_04();
    assert!(
        out.contains("<P1>General Morgan? Who's that?"),
        "missing Xseed Estelle wording"
    );
    assert!(
        !out.contains("<P1>Who's this General Morgan guy?"),
        "old EVO Estelle wording still present"
    );
    assert!(
        out.contains("11, 60593"),
        "EVO voice id 11, 60593 must survive"
    );
}

#[test]
fn cassius_letter_voiced_swapped() {
    let out = apply_swap_mp1010_04();
    assert!(
        out.contains("'Dear Estelle and Joshua,'"),
        "missing Xseed Cassius letter quoting style"
    );
    for v in 34832..=34844 {
        let needle = format!(", {v},");
        assert!(out.contains(&needle), "voice id {v} must survive in output");
    }
}

#[test]
fn mp1010_04_v17_dialogue_swapped() {
    let out = apply_swap_mp1010_04();
    assert!(
        out.contains("N-Now hold on... Maybe I'm not in"),
        "missing v1.7 Lugran wording (non-<#E portrait not merged?)"
    );
    assert!(out.contains("11, 34793"), "voice id 34793 must survive");
    assert!(
        out.contains("That voice sounds suspiciously"),
        "missing v1.7 Estelle wording"
    );
}

fn mapname_scene(label: &str, in_calls: bool) -> Scena {
    let call = Expr::Call(
        None,
        Name::local("ui_mapname_effect".into()),
        vec![sv(label), iv(110), iv(505), iv(5)],
    );
    let called = if in_calls {
        Called::Raw(vec![Call {
            kind: CallKind::Normal(Name::local("ui_mapname_effect".into())),
            args: vec![cs(label), cv(110), cv(505), cv(5)],
        }])
    } else {
        Called::Merged(false)
    };
    Scena {
        functions: vec![(
            "EV_ZONE".to_string(),
            function(
                called,
                vec![Stmt::If(None, iv(1), vec![Stmt::Expr(call)], None)],
            ),
        )],
    }
}

fn assert_mapname_retitle(old_label: &str, new_label: &str) {
    let out = apply_swap(mapname_scene(old_label, true), &mapname_scene(new_label, false));
    let new_call = format!("ui_mapname_effect(\"{new_label}\"");
    let old_call = format!("ui_mapname_effect(\"{old_label}\"");
    assert!(
        out.contains(&new_call),
        "missing v1.5 zone label {new_label:?}"
    );
    assert!(
        !out.contains(&old_call),
        "old zone label {old_label:?} still on a map-name call"
    );
}

#[test]
fn mp0000_ev_mapname_retitle() {
    assert_mapname_retitle("Jade Tower", "Esmelas Tower");
}

#[test]
fn mp1000_ev_mapname_retitle() {
    assert_mapname_retitle("Amber Tower", "Amberl Tower");
}

#[test]
fn mp1110_mapname_retitle() {
    assert_mapname_retitle("Sky Pirate Stronghold", "Sky Bandit Stronghold");
}

#[test]
fn mp4000_ev_mapname_retitle() {
    assert_mapname_retitle("Royal Capital Grancel", "City of Grancel");
}

// ---------------------------------------------------------------- more scenes

fn merge_twice_is_a_no_op(evo: Scena, xseed: &Scena) {
    let mut evo = evo;
    let _ = swap_scena(&mut evo, xseed);
    let first_print = scena_text(&evo);
    let stats2: SwapStats = swap_scena(&mut evo, xseed);
    let second_print = scena_text(&evo);
    assert_eq!(stats2.swaps_applied, 0, "second run should be no-op");
    assert_eq!(first_print, second_print, "second run must be identical");
}

fn letter(lines: &[&str]) -> Stmt {
    dialogue(8, vec![iv(65535), iv(19), iv(13)], lines)
}

/// EV_01_61_00: two Cassius letter follow-ups, which EVO voiced (97068,
/// 97069) where Xseed and the original keep plain letters.
fn ev_01_61_00(edition: &str) -> (String, Function) {
    let body = match edition {
        "evo" => vec![
            voiced_letter(97068, &["\"I retrieved this item from that group.\""]),
            voiced_letter(97069, &["\"Please have Professor Russell look at it.\""]),
        ],
        "xseed" => vec![
            letter(&["'I was able to secure the item the", "group was carrying.'"]),
            letter(&["'Please ask Professor R to do an", "analysis of it.'"]),
        ],
        _ => vec![
            letter(&["\"I retrieved this item from that group.\""]),
            letter(&["\"Please have Professor Russell look at it.\""]),
        ],
    };
    ("EV_01_61_00".to_string(), function(Called::Merged(false), body))
}

fn mp1010_04_with_letters(edition: &str) -> Scena {
    let mut scena = mp1010_04(edition == "xseed");
    scena.functions.push(ev_01_61_00(edition));
    scena
}

#[test]
fn evo_letter_to_voiced_upgrade_swapped_via_fallback() {
    let mut evo = mp1010_04_with_letters("evo");
    let xseed = mp1010_04_with_letters("xseed");
    let stats = swap_scena(&mut evo, &xseed);
    assert!(
        stats.voiced_to_letter_fallback >= 2,
        "expected >=2 Voiced\u{2192}Letter fallbacks, got {}",
        stats.voiced_to_letter_fallback
    );
    let out = scena_text(&evo);
    assert!(out.contains("11, 97068"), "EVO voice id 97068 must survive in output");
    assert!(out.contains("11, 97069"), "EVO voice id 97069 must survive in output");
    assert!(
        out.contains("'I was able to secure the item the"),
        "missing Xseed letter-style translation for 97068"
    );
    assert!(
        out.contains("'Please ask Professor R to do an"),
        "missing Xseed letter-style translation for 97069"
    );
    assert!(
        !out.contains("\"I retrieved this item from that group.\""),
        "old EVO GungHo text still present at voiced line"
    );
}

#[test]
fn idempotent_mp1010_04() {
    merge_twice_is_a_no_op(mp1010_04_with_letters("evo"), &mp1010_04_with_letters("xseed"));
}

#[test]
fn mp1010_04_delta_invariant_holds() {
    let evo = mp1010_04_with_letters("evo");
    let xseed = mp1010_04_with_letters("xseed");
    let mut original = mp1010_04(false);
    original.functions.push(ev_01_61_00("original"));
    let report = verify_scena(&evo, &xseed, &original);

    assert!(
        report.violations.is_empty(),
        "delta-invariant violations: {:#?}",
        report.violations
    );
    assert!(report.functions_checked > 0, "no functions checked");
    assert!(report.occurrences_checked > 0, "no occurrences checked");
    assert!(report.localized > 0, "merge localized nothing");
    assert!(
        report.missing_original.is_empty(),
        "functions missing from original: {:?}",
        report.missing_original
    );
    assert!(
        report.body_subs.is_empty(),
        "unexpected body substitutions: {:?}",
        report.body_subs
    );
    for u in &report.upgrades {
        assert_eq!(u.function, "EV_01_61_00", "unexpected upgrade fn: {u:?}");
        assert!(
            matches!(u.key, AnchorKey::Voiced(97068 | 97069)),
            "unexpected upgrade key: {u:?}"
        );
    }
    let voiced: std::collections::BTreeSet<i32> = report
        .upgrades
        .iter()
        .filter_map(|u| match u.key {
            AnchorKey::Voiced(v) => Some(v),
            _ => None,
        })
        .collect();
    assert_eq!(
        voiced,
        std::collections::BTreeSet::from([97068, 97069]),
        "expected exactly the 97068/97069 Letter\u{2192}Voiced upgrades, got {:?}",
        report.upgrades
    );
}

/// mp0010_05: the tutorial NPC's glossary lines, where Xseed's wording
/// carries inline colour markup.
fn mp0010_05(xseed: bool) -> Scena {
    let head = |voice: i32| {
        if xseed {
            vec![iv(8), sv("<#E_0#M_0#B_0>")]
        } else {
            vec![iv(8), iv(11), iv(voice), sv("<#E_0#M_0#B_0>")]
        }
    };
    let body = vec![
        dialogue(
            0,
            head(70010),
            if xseed {
                &["Orbments run on what we call", "<C2>'orbal energy.'</C>"]
            } else {
                &["Orbments are powered by", "orbal energy."]
            },
        ),
        dialogue(
            0,
            head(70011),
            if xseed {
                &["Sepith is what you get when", "monsters are defeated."]
            } else {
                &["Monsters drop sepith", "when defeated."]
            },
        ),
    ];
    Scena {
        functions: vec![("TK_TUTORIAL".to_string(), function(Called::Merged(false), body))],
    }
}

#[test]
fn mp0010_05_swap_applies() {
    let mut evo = mp0010_05(false);
    let stats = swap_scena(&mut evo, &mp0010_05(true));
    assert!(stats.swaps_applied > 0, "expected at least one swap, got {stats:?}");
    let out = scena_text(&evo);
    assert!(!out.is_empty());
    assert!(!evo.functions.is_empty(), "expected functions");
}

#[test]
fn mp0010_05_v17_color_markup_survives() {
    let out = apply_swap(mp0010_05(false), &mp0010_05(true));
    assert!(
        out.contains("<C2>'orbal energy.'</C>"),
        "missing Xseed v1.7 <C2> colour markup in merged dialogue"
    );
}

#[test]
fn idempotent_mp0010_05() {
    merge_twice_is_a_no_op(mp0010_05(false), &mp0010_05(true));
}

fn menu_additem(label: &str) -> Stmt {
    Stmt::Expr(Expr::Call(
        None,
        Name::local("menu_additem".into()),
        vec![iv(1), sv(label), iv(0)],
    ))
}

fn narration(prefix: &[i32], lines: &[&str]) -> Stmt {
    dialogue(8, prefix.iter().map(|n| iv(*n)).collect(), lines)
}

const HEADERS: [(&str, &str); 7] = [
    ("<c930>[History]", "<c930>[Establishment]"),
    ("<c930>[All Orbal Technology]", "<c930>[Universal Tech]"),
    ("<c930>[Other Information]", "<c930>[Related Topics]"),
    ("<c930>[Orbment]", "<c930>[Orbments]"),
    ("<c930>[Orbal Weapons]", "<c930>[Orbal Weaponry]"),
    ("<c930>[Internal Combustion Engine]", "<c930>[Combustion Engine]"),
    ("<c930>[Orbal Automobile]", "<c930>[Haulage Vehicle]"),
];

/// The records bytecode that EVO voiced: one dialogue call, its voice cue
/// pushed with it.
fn qs300_asm() -> Vec<Op> {
    vec![
        Op::Push(Value::Str("All the books are back!".into())),
        Op::Push(Value::Str("<#E_0#M_0#B_0>".into())),
        Op::Push(Value::Int(78898)),
        Op::Push(Value::Int(11)),
        Op::Push(Value::Int(0)),
        Op::CallSystem(5, 0, 5),
        Op::Pop(5),
    ]
}

/// mp3010_01: the records terminal (narration entries and topic menu), a
/// voiced song lyric, and the cutscene EVO ships as bytecode.
fn mp3010_01(xseed: bool) -> Scena {
    let lyric = if xseed {
        dialogue(8, vec![iv(65535)], &["'Ah, you (3)1 cypress trees", "upon the hill...'"])
    } else {
        dialogue(8, vec![iv(65535), iv(11), iv(97064)], &["Atop the hill are 31 cypress trees. 3"])
    };
    let records = vec![
        narration(
            &[65535, 26, 22],
            if xseed {
                &["In 1150, Professor Epstein's pupil", "becomes the first Factory Chief."]
            } else {
                &["In 1150, Professor Epstein's pupil", "becomes the first factory chief."]
            },
        ),
        narration(
            &[65535, 16, 26, 22],
            if xseed {
                &["The Zeiss Central Factory is founded."]
            } else {
                &["The Zeiss Central Factory is established."]
            },
        ),
    ];
    let menu: Vec<Stmt> = HEADERS
        .iter()
        .map(|(old, new)| menu_additem(if xseed { new } else { old }))
        .collect();
    let qs300 = if xseed {
        function(
            Called::Merged(false),
            vec![dialogue(0, vec![iv(0), sv("<#E_0#M_0#B_0>")], &["All of the books have been returned!"])],
        )
    } else {
        Function {
            args: Vec::new(),
            called: Called::Raw(Vec::new()),
            is_prelude: false,
            body: Body::Asm(qs300_asm()),
        }
    };
    Scena {
        functions: vec![
            ("QS308_01_00".to_string(), function(Called::Merged(false), vec![lyric])),
            ("LP_Records".to_string(), function(Called::Merged(false), records)),
            ("LP_Capel".to_string(), function(Called::Merged(false), menu)),
            ("QS300_01_00".to_string(), qs300),
        ],
    }
}

#[test]
fn mp3010_01_voiced_plain_song_lyric_swapped() {
    let mut evo = mp3010_01(false);
    let _ = swap_scena(&mut evo, &mp3010_01(true));
    let out = scena_text(&evo);
    assert!(
        out.contains("11, 97064,"),
        "EVO voice id 97064 must survive in VoicedPlain output"
    );
    assert!(
        out.contains("'Ah, you (3)1 cypress trees"),
        "missing Xseed translation for QS308_01_00 song lyric"
    );
    assert!(
        !out.contains("Atop the hill are 31 cypress trees. 3"),
        "old EVO GungHo lyric still present"
    );
}

#[test]
fn mp3010_01_asm_body_substituted() {
    let mut evo = mp3010_01(false);
    let stats = swap_scena(&mut evo, &mp3010_01(true));
    assert_eq!(
        stats.body_substitutions, 1,
        "expected exactly 1 body substitution (QS300_01_00 asm\u{2192}tree)"
    );
    let sub = stats
        .body_subs
        .iter()
        .find(|e| e.function == "QS300_01_00")
        .expect("QS300_01_00 should be in body_subs");
    assert_eq!(sub.evo_body_kind, "asm");
    assert!(
        sub.voice_ids_reinjected > 0,
        "expected EVO voice cues to be re-injected into the substituted body"
    );
    assert_eq!(
        stats.voice_ids_reinjected, sub.voice_ids_reinjected,
        "the only body substitution accounts for all re-injected voice IDs"
    );
    let out = scena_text(&evo);
    let fn_start = out
        .find("fn QS300_01_00")
        .expect("function should exist in output");
    let fn_end = out[fn_start..]
        .find("\nfn ")
        .map_or(out.len(), |o| fn_start + o);
    let fn_body = &out[fn_start..fn_end];
    assert!(
        !fn_body.contains(" asm {"),
        "asm body should have been replaced with tree body"
    );
    assert!(
        fn_body.contains("All of the books have been returned!"),
        "Xseed completion text should be present in the substituted body"
    );
    assert!(
        fn_body.contains("11, 78898,"),
        "EVO voice cue 78898 should be re-injected into the substituted body"
    );
}

#[test]
fn mp3010_01_narration_records_swapped() {
    let out = apply_swap(mp3010_01(false), &mp3010_01(true));
    assert!(
        out.contains("becomes the first Factory Chief"),
        "missing Xseed v1.7 records wording (narration not merged?)"
    );
    assert!(
        !out.contains("becomes the first factory chief"),
        "old EVO GungHo records wording still present"
    );
}

#[test]
fn mp3010_01_menu_records_headers_swapped() {
    let out = apply_swap(mp3010_01(false), &mp3010_01(true));
    for new in [
        "<c930>[Establishment]",
        "<c930>[Universal Tech]",
        "<c930>[Related Topics]",
        "<c930>[Orbments]",
        "<c930>[Orbal Weaponry]",
        "<c930>[Combustion Engine]",
        "<c930>[Haulage Vehicle]",
    ] {
        assert!(out.contains(new), "missing Xseed v1.7 records header {new:?}");
    }
    for old in [
        "<c930>[History]",
        "<c930>[All Orbal Technology]",
        "<c930>[Other Information]",
        "<c930>[Orbment]",
        "<c930>[Orbal Weapons]",
        "<c930>[Internal Combustion Engine]",
        "<c930>[Orbal Automobile]",
    ] {
        assert!(!out.contains(old), "old EVO records header {old:?} still present");
    }
    assert!(
        out.contains("menu_additem(1, \"<c930>[Establishment]\", 0)"),
        "menu_additem char_id/index not preserved through the swap"
    );
}

#[test]
fn idempotent_mp3010_01() {
    merge_twice_is_a_no_op(mp3010_01(false), &mp3010_01(true));
}

/// mp3030: the zone label, with its coordinates kept as opaque leaves,
/// both in the call table and in the body.
fn mp3030(label: &str, in_calls: bool) -> Scena {
    let coords = || vec![Expr::Value(None, Value::Other(0)), Expr::Value(None, Value::Other(1)), Expr::Value(None, Value::Other(2))];
    let mut args = vec![sv(label)];
    args.extend(coords());
    let call = Expr::Call(None, Name::local("ui_mapname_effect".into()), args);
    let called = if in_calls {
        Called::Raw(vec![Call {
            kind: CallKind::Normal(Name::local("ui_mapname_effect".into())),
            args: vec![cs(label), CallArg::Value(Value::Other(0)), CallArg::Value(Value::Other(1)), CallArg::Value(Value::Other(2))],
        }])
    } else {
        Called::Merged(false)
    };
    let dialogue_line = dialogue(0, vec![iv(0), sv("<#E_0#M_0#B_0>")], &["So... the Kaldia Limestone Cave."]);
    Scena {
        functions: vec![(
            "EV_ZONE".to_string(),
            function(called, vec![dialogue_line, Stmt::Expr(call)]),
        )],
    }
}

#[test]
fn mp3030_mapname_zone_retitle_swapped() {
    let out = apply_swap(
        mp3030("Kaldia Limestone Cave", true),
        &mp3030("Limestone Cave", false),
    );
    assert!(
        out.contains("ui_mapname_effect(\"Limestone Cave\""),
        "missing Xseed v1.5 zone retitle"
    );
    assert!(
        !out.contains("ui_mapname_effect(\"Kaldia Limestone Cave\""),
        "old zone label still present on a ui_mapname_effect call"
    );
    assert!(
        out.contains("ui_mapname_effect(\"Limestone Cave\", 110.0, 505.0, 5.0)"),
        "map-name coordinates were not preserved through the swap"
    );
    let count = out.matches("ui_mapname_effect(\"Limestone Cave\"").count();
    assert!(
        count >= 2,
        "expected >=2 swapped occurrences (metadata + body), got {count}"
    );
}

#[test]
fn idempotent_mp3030() {
    merge_twice_is_a_no_op(mp3030("Kaldia Limestone Cave", true), &mp3030("Limestone Cave", false));
}

fn display_name(char_id: i32, label: &str) -> Stmt {
    Stmt::Expr(Expr::Call(
        None,
        Name::local("chr_set_display_name".into()),
        vec![iv(char_id), sv(label)],
    ))
}

fn group_labels(pairs: &[(i32, &str)]) -> Scena {
    Scena {
        functions: vec![(
            "EV_PARTY".to_string(),
            function(
                Called::Merged(false),
                pairs.iter().map(|(c, l)| display_name(*c, l)).collect(),
            ),
        )],
    }
}

#[test]
fn mp0000_ev_display_name_group_label_swapped() {
    let out = apply_swap(
        group_labels(&[(10066, "Lonnie, Dino, & Lyle"), (10068, "Lonnie, Dino, & Lyle")]),
        &group_labels(&[(10066, "Lonnie, Dino & Lyle"), (10068, "Lonnie, Dino & Lyle")]),
    );
    assert!(
        out.contains("chr_set_display_name(10066, \"Lonnie, Dino & Lyle\")"),
        "missing Xseed group label on char 10066"
    );
    assert!(
        out.contains("chr_set_display_name(10068, \"Lonnie, Dino & Lyle\")"),
        "missing Xseed group label on char 10068"
    );
    assert!(
        !out.contains("Lonnie, Dino, & Lyle"),
        "old EVO serial-comma label still present"
    );
}

#[test]
fn mp4000_ev_display_name_group_label_swapped() {
    let out = apply_swap(
        group_labels(&[(0, "Scherazard, Kloe, & Estelle")]),
        &group_labels(&[(0, "Scherazard, Kloe, and Estelle")]),
    );
    assert!(
        out.contains("chr_set_display_name(0, \"Scherazard, Kloe, and Estelle\")"),
        "missing Xseed group label on char 0"
    );
    assert!(
        !out.contains("Scherazard, Kloe, & Estelle"),
        "old EVO ampersand label still present"
    );
}

/// mp1110: portrait-less narration repeated in call tables and bodies, and
/// Bose's line with its voice ID after the portrait tag.
fn mp1110(xseed: bool) -> Scena {
    let narrator = |text: &str| dialogue(6, vec![iv(65535)], &[text]);
    let narrator_call = |text: &str| Call {
        kind: CallKind::Syscall(5, 6),
        args: vec![cv(65535), cs(text)],
    };
    let line = |evo: &'static str, x: &'static str| if xseed { x } else { evo };
    let scene = |name: &str, text: &str| {
        let called = if xseed {
            Called::Merged(false)
        } else {
            Called::Raw(vec![narrator_call(text)])
        };
        (name.to_string(), function(called, vec![narrator(text)]))
    };
    let bose = if xseed {
        dialogue(0, vec![iv(2), sv("<#E_0#M_2#B_0>")], &["In the meantime, let's get back to", "the guild."])
    } else {
        dialogue(
            0,
            vec![iv(2), sv("<#E_0#M_2#B_0>"), iv(11), iv(34731)],
            &["For now, we should head back to the", "guild."],
        )
    };
    Scena {
        functions: vec![
            scene(
                "EV_01_53_00",
                line("<C1>Men can be heard talking.", "<C1>The voices of some men can be heard."),
            ),
            scene(
                "EV_01_55_00",
                line("<C1>Familiar voices can be heard from the room.", "<C1>A familiar voice can be heard."),
            ),
            scene(
                "SB_01_01_00",
                line(
                    "<C1>The passage ends in a wall of rock.",
                    "<C1>There is a rock wall at the end of the passage.",
                ),
            ),
            ("EV_01_60_00".to_string(), function(Called::Merged(false), vec![bose])),
        ],
    }
}

#[test]
fn mp1110_portrait_less_narrator_swapped() {
    let out = apply_swap(mp1110(false), &mp1110(true));
    assert!(
        out.contains("<C1>The voices of some men can be heard."),
        "missing Xseed portrait-less narrator wording (men talking)"
    );
    assert!(
        out.contains("<C1>A familiar voice can be heard."),
        "missing Xseed portrait-less narrator wording (familiar voice)"
    );
    assert!(
        out.contains("<C1>There is a rock wall at the end of the passage."),
        "missing Xseed portrait-less narrator wording (rock wall)"
    );
    assert!(
        !out.contains("Men can be heard talking."),
        "old EVO narrator wording still present"
    );
    assert!(
        !out.contains("Familiar voices can be heard from the room."),
        "old EVO narrator wording still present"
    );
    assert!(
        !out.contains("The passage ends in a wall of rock."),
        "old EVO narrator wording still present"
    );
}

#[test]
fn mp1110_voice_id_after_portrait_swapped() {
    let out = apply_swap(mp1110(false), &mp1110(true));
    assert!(
        out.contains("In the meantime, let's get back to"),
        "missing Xseed wording for the voice-after-portrait Bose line"
    );
    assert!(
        !out.contains("For now, we should head back to the"),
        "old EVO wording still present at the voice-after-portrait line"
    );
    assert!(
        out.contains("\"<#E_0#M_2#B_0>\", 11, 34731,"),
        "voice id 34731 must stay in the preserved prefix after the portrait"
    );
}
