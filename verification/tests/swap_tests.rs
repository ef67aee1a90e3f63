use sora_remake_merge::voice::evo_calls_have_voice_ids;
use sora_remake_merge::Body;
use sora_remake_merge::Call;
use sora_remake_merge::CallArg;
use sora_remake_merge::CallKind;
use sora_remake_merge::Called;
use sora_remake_merge::Expr;
use sora_remake_merge::Function;
use sora_remake_merge::Name;
use sora_remake_merge::Op;
use sora_remake_merge::Scena;
use sora_remake_merge::Stmt;
use sora_remake_merge::Value;
use sora_remake_merge::swap::swap_scena;

fn iv(n: i32) -> Expr {
    Expr::Value(None, Value::Int(n))
}
fn sv(s: &str) -> Expr {
    Expr::Value(None, Value::Str(s.to_string()))
}
fn portrait_call(char_id: i32, tag: &str, text: &str) -> Expr {
    Expr::Syscall(None, 5, 0, vec![iv(char_id), sv(tag), sv(text)])
}
fn portrait_call_voiced(char_id: i32, voice: i32, tag: &str, text: &str) -> Expr {
    Expr::Syscall(
        None,
        5,
        0,
        vec![iv(char_id), iv(11), iv(voice), sv(tag), sv(text)],
    )
}
fn s58_voiced(v: i32, text: &str) -> Expr {
    Expr::Syscall(
        None,
        5,
        8,
        vec![iv(65535), iv(19), iv(13), iv(11), iv(v), sv(text)],
    )
}

fn make_fn(body: Vec<Stmt>) -> Function {
    Function {
        args: Vec::new(),
        called: Called::Merged(false),
        is_prelude: false,
        body: Body::Tree(body),
    }
}

fn make_scena(name: &str, f: Function) -> Scena {
    Scena {
        functions: vec![(name.to_string(), f)],
    }
}

fn func<'a>(scena: &'a Scena, name: &str) -> &'a Function {
    scena.get(name).unwrap()
}

fn tree<'a>(scena: &'a Scena, name: &str) -> &'a Vec<Stmt> {
    let Body::Tree(body) = &func(scena, name).body else {
        unreachable!()
    };
    body
}

fn syscall_args(s: &Stmt) -> &Vec<Expr> {
    let Stmt::Expr(Expr::Syscall(_, _, _, args)) = s else {
        unreachable!()
    };
    args
}

fn text_at(s: &Stmt, i: usize) -> &str {
    let Expr::Value(_, Value::Str(t)) = &syscall_args(s)[i] else {
        unreachable!()
    };
    t.as_str()
}

#[test]
fn evo_only_call_left_untouched() {
    let evo_fn = make_fn(vec![Stmt::Expr(portrait_call(7, "<#E_7>", "EVO-only"))]);
    let xseed_fn = make_fn(vec![Stmt::Expr(portrait_call(0, "<#E_0>", "different"))]);
    let mut evo = make_scena("F", evo_fn.clone());
    let xseed = make_scena("F", xseed_fn);
    let stats = swap_scena(&mut evo, &xseed);
    assert_eq!(stats.swaps_applied, 0);
    assert_eq!(stats.unmatched_evo_calls, 1);
    let body = tree(&evo, "F");
    let Body::Tree(orig) = &evo_fn.body else {
        unreachable!()
    };
    assert_eq!(body, orig);
}

#[test]
fn n_to_m_overflow_reuses_last() {
    let evo_fn = make_fn(vec![
        Stmt::Expr(portrait_call(0, "<#E_0>", "evo1")),
        Stmt::Expr(portrait_call(0, "<#E_0>", "evo2")),
        Stmt::Expr(portrait_call(0, "<#E_0>", "evo3")),
    ]);
    let xseed_fn = make_fn(vec![
        Stmt::Expr(portrait_call(0, "<#E_0>", "run_a")),
        Stmt::Expr(portrait_call(0, "<#E_0>", "run_b")),
    ]);
    let mut evo = make_scena("F", evo_fn);
    let xseed = make_scena("F", xseed_fn);
    let stats = swap_scena(&mut evo, &xseed);
    assert_eq!(stats.swaps_applied, 3);
    assert_eq!(stats.overflow_reuses, 1);
    let texts: Vec<&str> = tree(&evo, "F").iter().map(|s| text_at(s, 2)).collect();
    assert_eq!(texts, vec!["run_a", "run_b", "run_b"]);
}

#[test]
fn idempotent_second_run_is_noop() {
    let evo_fn = make_fn(vec![Stmt::Expr(portrait_call(0, "<#E_0>", "EVO"))]);
    let xseed_fn = make_fn(vec![Stmt::Expr(portrait_call(0, "<#E_0>", "XSEED"))]);
    let mut evo = make_scena("F", evo_fn);
    let xseed = make_scena("F", xseed_fn);

    let _ = swap_scena(&mut evo, &xseed);
    let snapshot1 = evo.clone();
    let stats2 = swap_scena(&mut evo, &xseed);
    assert_eq!(stats2.swaps_applied, 0);
    assert_eq!(stats2.no_ops_equal, 1);
    assert_eq!(evo, snapshot1);
}

#[test]
fn no_op_when_evo_already_matches() {
    let evo_fn = make_fn(vec![Stmt::Expr(portrait_call(0, "<#E_0>", "same"))]);
    let xseed_fn = make_fn(vec![Stmt::Expr(portrait_call(0, "<#E_0>", "same"))]);
    let evo_orig = evo_fn.clone();
    let mut evo = make_scena("F", evo_fn);
    let xseed = make_scena("F", xseed_fn);
    let stats = swap_scena(&mut evo, &xseed);
    assert_eq!(stats.swaps_applied, 0);
    assert_eq!(stats.no_ops_equal, 1);
    let Body::Tree(orig) = &evo_orig.body else {
        unreachable!()
    };
    assert_eq!(tree(&evo, "F"), orig);
}

#[test]
fn s58_voiced_anchors_on_voice_id() {
    let evo_fn = make_fn(vec![
        Stmt::Expr(s58_voiced(34832, "evo-a")),
        Stmt::Expr(s58_voiced(34833, "evo-b")),
    ]);
    let xseed_fn = make_fn(vec![
        Stmt::Expr(s58_voiced(34833, "x-b")),
        Stmt::Expr(s58_voiced(34832, "x-a")),
    ]);
    let mut evo = make_scena("F", evo_fn);
    let xseed = make_scena("F", xseed_fn);
    let stats = swap_scena(&mut evo, &xseed);
    assert_eq!(stats.swaps_applied, 2);
    let texts: Vec<&str> = tree(&evo, "F").iter().map(|s| text_at(s, 5)).collect();
    assert_eq!(texts, vec!["x-a", "x-b"]);
}

#[test]
fn called_table_swapped_with_same_index_as_body() {
    let body = vec![Stmt::Expr(portrait_call_voiced(
        134, 33247, "<#E_0>", "EVO body",
    ))];
    let called = vec![Call {
        kind: CallKind::Syscall(5, 0),
        args: vec![
            CallArg::Value(Value::Int(134)),
            CallArg::Value(Value::Str("<#E_0>".into())),
            CallArg::Value(Value::Str("EVO meta".into())),
        ],
    }];
    let evo_fn = Function {
        args: Vec::new(),
        called: Called::Raw(called),
        is_prelude: false,
        body: Body::Tree(body),
    };
    let xseed_fn = make_fn(vec![Stmt::Expr(portrait_call(134, "<#E_0>", "XSEED"))]);
    let mut evo = make_scena("F", evo_fn);
    let xseed = make_scena("F", xseed_fn);
    let _ = swap_scena(&mut evo, &xseed);
    assert_eq!(text_at(&tree(&evo, "F")[0], 4), "XSEED");
    let Called::Raw(calls) = &func(&evo, "F").called else {
        unreachable!()
    };
    match &calls[0].args[2] {
        CallArg::Value(Value::Str(s)) => {
            assert_eq!(s, "XSEED");
        }
        _ => panic!("expected string"),
    }
}

fn narrator_call(text: &str) -> Expr {
    Expr::Syscall(None, 5, 6, vec![iv(65535), sv(text)])
}
fn portrait_call_voice_after(char_id: i32, tag: &str, voice: i32, text: &str) -> Expr {
    Expr::Syscall(
        None,
        5,
        6,
        vec![iv(char_id), sv(tag), iv(11), iv(voice), sv(text)],
    )
}
fn var_speaker_voiced_call(voice: i32, text: &str) -> Expr {
    Expr::Syscall(
        None,
        5,
        6,
        vec![
            Expr::Var(None, 0),
            iv(14),
            iv(15),
            iv(11),
            iv(voice),
            sv(text),
        ],
    )
}

#[test]
fn portrait_less_narrator_swapped_positionally() {
    let evo_fn = make_fn(vec![Stmt::Expr(narrator_call("Men can be heard talking."))]);
    let xseed_fn = make_fn(vec![Stmt::Expr(narrator_call(
        "The voices of some men can be heard.",
    ))]);
    let mut evo = make_scena("F", evo_fn);
    let xseed = make_scena("F", xseed_fn);
    let stats = swap_scena(&mut evo, &xseed);
    assert_eq!(stats.swaps_applied, 1);
    assert_eq!(stats.unmatched_evo_calls, 0);
    let args = syscall_args(&tree(&evo, "F")[0]);
    assert!(matches!(&args[0], Expr::Value(_, Value::Int(65535))));
    assert_eq!(text_at(&tree(&evo, "F")[0], 1), "The voices of some men can be heard.");
}

#[test]
fn voice_id_after_portrait_swapped_preserving_voice() {
    let evo_fn = make_fn(vec![Stmt::Expr(portrait_call_voice_after(
        2,
        "<#E_0#M_2#B_0>",
        34731,
        "For now, we should head back to the",
    ))]);
    let xseed_fn = make_fn(vec![Stmt::Expr(portrait_call_voice_after(
        2,
        "<#E_0#M_2#B_0>",
        34731,
        "In the meantime, let's get back to",
    ))]);
    let mut evo = make_scena("F", evo_fn);
    let xseed = make_scena("F", xseed_fn);
    let stats = swap_scena(&mut evo, &xseed);
    assert_eq!(stats.swaps_applied, 1);
    let args = syscall_args(&tree(&evo, "F")[0]);
    assert!(matches!(&args[2], Expr::Value(_, Value::Int(11))));
    assert!(matches!(&args[3], Expr::Value(_, Value::Int(34731))));
    assert_eq!(text_at(&tree(&evo, "F")[0], 4), "In the meantime, let's get back to");
}

#[test]
fn variable_speaker_swapped_preserving_voice() {
    let evo_fn = make_fn(vec![Stmt::Expr(var_speaker_voiced_call(
        30546,
        "(EVO old monologue...)",
    ))]);
    let xseed_fn = make_fn(vec![Stmt::Expr(var_speaker_voiced_call(
        30546,
        "(I'm not going to make it in time...)",
    ))]);
    let mut evo = make_scena("F", evo_fn);
    let xseed = make_scena("F", xseed_fn);
    let stats = swap_scena(&mut evo, &xseed);
    assert_eq!(stats.swaps_applied, 1);
    assert_eq!(stats.unmatched_evo_calls, 0);
    let args = syscall_args(&tree(&evo, "F")[0]);
    assert!(matches!(&args[0], Expr::Var(_, _)));
    assert!(matches!(&args[3], Expr::Value(_, Value::Int(11))));
    assert!(matches!(&args[4], Expr::Value(_, Value::Int(30546))));
    assert_eq!(text_at(&tree(&evo, "F")[0], 5), "(I'm not going to make it in time...)");
}

fn s58_letter(text: &str) -> Expr {
    Expr::Syscall(None, 5, 8, vec![iv(65535), iv(19), iv(13), sv(text)])
}
fn s58_plain(text: &str) -> Expr {
    Expr::Syscall(None, 5, 8, vec![iv(65535), sv(text)])
}
fn s58_voiced_plain(v: i32, text: &str) -> Expr {
    Expr::Syscall(None, 5, 8, vec![iv(65535), iv(11), iv(v), sv(text)])
}

#[test]
fn voiced_to_letter_fallback_matches_positionally() {
    let evo_fn = make_fn(vec![
        Stmt::Expr(s58_voiced(97068, "EVO old text A")),
        Stmt::Expr(s58_voiced(97069, "EVO old text B")),
    ]);
    let xseed_fn = make_fn(vec![
        Stmt::Expr(s58_letter("XSEED translated A")),
        Stmt::Expr(s58_letter("XSEED translated B")),
    ]);
    let mut evo = make_scena("F", evo_fn);
    let xseed = make_scena("F", xseed_fn);
    let stats = swap_scena(&mut evo, &xseed);
    assert_eq!(stats.swaps_applied, 2);
    assert_eq!(stats.voiced_to_letter_fallback, 2);
    assert_eq!(stats.unmatched_evo_calls, 0);
    let texts: Vec<&str> = tree(&evo, "F")
        .iter()
        .map(|s| {
            let Expr::Value(_, Value::Int(11)) = &syscall_args(s)[3] else {
                unreachable!()
            };
            text_at(s, 5)
        })
        .collect();
    assert_eq!(texts, vec!["XSEED translated A", "XSEED translated B"]);
}

#[test]
fn voiced_plain_evo_upgrade_matches_xseed_plain() {
    let evo_fn = make_fn(vec![Stmt::Expr(s58_voiced_plain(97064, "EVO old lyric"))]);
    let xseed_fn = make_fn(vec![Stmt::Expr(s58_plain("XSEED translated lyric"))]);
    let mut evo = make_scena("F", evo_fn);
    let xseed = make_scena("F", xseed_fn);
    let stats = swap_scena(&mut evo, &xseed);
    assert_eq!(stats.swaps_applied, 1);
    assert_eq!(stats.unmatched_evo_calls, 0);
    let args = syscall_args(&tree(&evo, "F")[0]);
    assert!(matches!(&args[1], Expr::Value(_, Value::Int(11))));
    assert!(matches!(&args[2], Expr::Value(_, Value::Int(97064))));
    assert_eq!(text_at(&tree(&evo, "F")[0], 3), "XSEED translated lyric");
}

fn s58_narration(prefix: &[i32], text: &str) -> Expr {
    let mut args = vec![iv(65535)];
    args.extend(prefix.iter().map(|&n| iv(n)));
    args.push(sv(text));
    Expr::Syscall(None, 5, 8, args)
}

#[test]
fn s58_narration_swapped_positionally() {
    let evo_fn = make_fn(vec![
        Stmt::Expr(s58_narration(&[26, 13], "Orbal Fortune Machine")),
        Stmt::Expr(s58_narration(&[26, 13], "Would you like a reading?")),
    ]);
    let xseed_fn = make_fn(vec![
        Stmt::Expr(s58_narration(&[26, 13], "Orbal Compatibility Tester")),
        Stmt::Expr(s58_narration(&[26, 13], "Begin test?")),
    ]);
    let mut evo = make_scena("F", evo_fn);
    let xseed = make_scena("F", xseed_fn);
    let stats = swap_scena(&mut evo, &xseed);
    assert_eq!(stats.swaps_applied, 2);
    assert_eq!(stats.unmatched_evo_calls, 0);
    let texts: Vec<&str> = tree(&evo, "F").iter().map(|s| text_at(s, 3)).collect();
    assert_eq!(texts, vec!["Orbal Compatibility Tester", "Begin test?"]);
}

#[test]
fn s58_narration_evo_voice_id_preserved() {
    let evo_fn = make_fn(vec![Stmt::Expr(s58_narration(
        &[26, 13, 11, 97148],
        "Orbal Fortune Machine",
    ))]);
    let xseed_fn = make_fn(vec![Stmt::Expr(s58_narration(
        &[26, 13],
        "Orbal Compatibility Tester",
    ))]);
    let mut evo = make_scena("F", evo_fn);
    let xseed = make_scena("F", xseed_fn);
    let stats = swap_scena(&mut evo, &xseed);
    assert_eq!(stats.swaps_applied, 1);
    assert_eq!(stats.unmatched_evo_calls, 0);
    let args = syscall_args(&tree(&evo, "F")[0]);
    assert!(matches!(&args[3], Expr::Value(_, Value::Int(11))));
    assert!(matches!(&args[4], Expr::Value(_, Value::Int(97148))));
    assert_eq!(text_at(&tree(&evo, "F")[0], 5), "Orbal Compatibility Tester");
}

#[test]
fn s58_plain_trailing_terminator_preserved_on_swap() {
    let evo_fn = make_fn(vec![Stmt::Expr(Expr::Syscall(
        None,
        5,
        8,
        vec![iv(65535), sv("Outer Wall of the Tetracyclic Tower"), iv(13)],
    ))]);
    let xseed_fn = make_fn(vec![Stmt::Expr(Expr::Syscall(
        None,
        5,
        8,
        vec![
            iv(65535),
            sv("Tetracyclic Tower Outer Wall Segment"),
            iv(13),
        ],
    ))]);
    let mut evo = make_scena("F", evo_fn);
    let xseed = make_scena("F", xseed_fn);
    let stats = swap_scena(&mut evo, &xseed);
    assert_eq!(stats.swaps_applied, 1);
    let args = syscall_args(&tree(&evo, "F")[0]);
    assert_eq!(text_at(&tree(&evo, "F")[0], 1), "Tetracyclic Tower Outer Wall Segment");
    assert_eq!(args.len(), 3, "trailing terminator preserved");
    assert!(matches!(&args[2], Expr::Value(_, Value::Int(13))));
}

#[test]
fn s58_parameterized_message_left_untouched() {
    let evo_fn = make_fn(vec![Stmt::Expr(Expr::Syscall(
        None,
        5,
        8,
        vec![iv(65535), iv(16), sv("Received "), iv(17), iv(208), sv(".")],
    ))]);
    let evo_orig = evo_fn.clone();
    let xseed_fn = make_fn(vec![Stmt::Expr(Expr::Syscall(
        None,
        5,
        8,
        vec![iv(65535), iv(16), sv("Got "), iv(17), iv(208), sv(".")],
    ))]);
    let mut evo = make_scena("F", evo_fn);
    let xseed = make_scena("F", xseed_fn);
    let stats = swap_scena(&mut evo, &xseed);
    assert_eq!(stats.swaps_applied, 0);
    assert_eq!(stats.unmatched_evo_calls, 0, "skipped, not unmatched");
    let Body::Tree(orig) = &evo_orig.body else {
        unreachable!()
    };
    assert_eq!(tree(&evo, "F"), orig);
}

#[test]
fn evo_calls_voice_id_helper_distinguishes_non_voice_int_args() {
    let calls = vec![Call {
        kind: CallKind::Syscall(5, 0),
        args: vec![
            CallArg::Value(Value::Int(11510)),
            CallArg::Value(Value::Int(25)),
            CallArg::Value(Value::Str("<#E_0>".into())),
            CallArg::Value(Value::Str("text".into())),
        ],
    }];
    assert!(!evo_calls_have_voice_ids(&Called::Raw(calls)));

    let calls_voice = vec![Call {
        kind: CallKind::Syscall(5, 0),
        args: vec![
            CallArg::Value(Value::Int(0)),
            CallArg::Value(Value::Int(11)),
            CallArg::Value(Value::Int(60589)),
            CallArg::Value(Value::Str("<#E_0>".into())),
            CallArg::Value(Value::Str("text".into())),
        ],
    }];
    assert!(evo_calls_have_voice_ids(&Called::Raw(calls_voice)));

    let calls_vp = vec![Call {
        kind: CallKind::Syscall(5, 8),
        args: vec![
            CallArg::Value(Value::Int(65535)),
            CallArg::Value(Value::Int(11)),
            CallArg::Value(Value::Int(97064)),
            CallArg::Value(Value::Str("lyric".into())),
        ],
    }];
    assert!(evo_calls_have_voice_ids(&Called::Raw(calls_vp)));

    let calls_plain = vec![Call {
        kind: CallKind::Syscall(5, 8),
        args: vec![
            CallArg::Value(Value::Int(65535)),
            CallArg::Value(Value::Str("text".into())),
        ],
    }];
    assert!(!evo_calls_have_voice_ids(&Called::Raw(calls_plain)));
}

#[test]
fn asm_body_substituted_when_xseed_is_tree_and_no_voice_ids() {
    let evo_fn = Function {
        args: Vec::new(),
        called: Called::Raw(Vec::new()),
        is_prelude: false,
        body: Body::Asm(Vec::new()),
    };
    let xseed_body = vec![Stmt::Expr(s58_plain("XSEED text"))];
    let xseed_fn = make_fn(xseed_body.clone());
    let mut evo = make_scena("F", evo_fn);
    let xseed = make_scena("F", xseed_fn);
    let stats = swap_scena(&mut evo, &xseed);
    assert_eq!(stats.body_substitutions, 1);
    assert_eq!(stats.voice_ids_reinjected, 0);
    assert_eq!(stats.body_subs.len(), 1);
    assert_eq!(stats.body_subs[0].function, "F");
    assert_eq!(stats.body_subs[0].evo_body_kind, "asm");
    assert_eq!(stats.body_subs[0].voice_ids_reinjected, 0);
    let Body::Tree(body) = &func(&evo, "F").body else {
        unreachable!("body should have been substituted to Tree")
    };
    assert_eq!(body, &xseed_body);
    assert_eq!(func(&evo, "F").called, Called::Merged(false));
}

fn voiced_asm() -> Vec<Op> {
    vec![
        Op::Push(Value::Str("GungHo".into())),
        Op::Push(Value::Str("<#E_0>".into())),
        Op::Push(Value::Int(60589)),
        Op::Push(Value::Int(11)),
        Op::Push(Value::Int(0)),
        Op::CallSystem(5, 0, 5),
        Op::Pop(5),
    ]
}

#[test]
fn asm_body_voice_ids_reinjected_into_substituted_tree() {
    let evo_fn = Function {
        args: Vec::new(),
        called: Called::Raw(Vec::new()),
        is_prelude: false,
        body: Body::Asm(voiced_asm()),
    };
    let xseed_fn = make_fn(vec![Stmt::Expr(portrait_call(0, "<#E_0>", "XSEED"))]);
    let mut evo = make_scena("F", evo_fn);
    let xseed = make_scena("F", xseed_fn);
    let stats = swap_scena(&mut evo, &xseed);
    assert_eq!(stats.body_substitutions, 1);
    assert_eq!(stats.voice_ids_reinjected, 1);
    assert_eq!(stats.body_subs[0].voice_ids_reinjected, 1);
    let Body::Tree(body) = &func(&evo, "F").body else {
        unreachable!("body should have been substituted to Tree")
    };
    assert_eq!(
        body,
        &vec![Stmt::Expr(portrait_call_voiced(
            0, 60589, "<#E_0>", "XSEED"
        ))]
    );
    assert_eq!(func(&evo, "F").called, Called::Merged(false));
}

#[test]
fn asm_body_left_alone_when_voice_present_but_calls_misalign() {
    let evo_fn = Function {
        args: Vec::new(),
        called: Called::Raw(Vec::new()),
        is_prelude: false,
        body: Body::Asm(voiced_asm()),
    };
    let xseed_fn = make_fn(vec![
        Stmt::Expr(portrait_call(0, "<#E_0>", "XSEED one")),
        Stmt::Expr(portrait_call(0, "<#E_0>", "XSEED two")),
    ]);
    let mut evo = make_scena("F", evo_fn);
    let xseed = make_scena("F", xseed_fn);
    let stats = swap_scena(&mut evo, &xseed);
    assert_eq!(stats.body_substitutions, 0);
    assert_eq!(stats.voice_ids_reinjected, 0);
    assert!(matches!(&func(&evo, "F").body, Body::Asm(_)));
    assert!(matches!(&func(&evo, "F").called, Called::Raw(_)));
}

fn mapname_call(name: &str) -> Expr {
    Expr::Syscall(None, 22, 38, vec![sv(name), iv(110), iv(505), iv(4)])
}

#[test]
fn mapname_swapped_positionally_preserving_coords() {
    let evo_fn = make_fn(vec![
        Stmt::Expr(mapname_call("Sky Pirate Stronghold")),
        Stmt::Expr(mapname_call("Sky Pirate Stronghold")),
    ]);
    let xseed_fn = make_fn(vec![
        Stmt::Expr(mapname_call("Sky Bandit Stronghold")),
        Stmt::Expr(mapname_call("Sky Bandit Stronghold")),
    ]);
    let mut evo = make_scena("F", evo_fn);
    let xseed = make_scena("F", xseed_fn);
    let stats = swap_scena(&mut evo, &xseed);
    assert_eq!(stats.swaps_applied, 2);
    for stmt in tree(&evo, "F") {
        let Stmt::Expr(Expr::Syscall(_, 22, 38, args)) = stmt else {
            unreachable!()
        };
        let Expr::Value(_, Value::Str(name)) = &args[0] else {
            unreachable!()
        };
        assert_eq!(name, "Sky Bandit Stronghold");
        assert_eq!(args.len(), 4, "coords must be preserved");
        assert!(matches!(&args[1], Expr::Value(_, Value::Int(110))));
        assert!(matches!(&args[2], Expr::Value(_, Value::Int(505))));
        assert!(matches!(&args[3], Expr::Value(_, Value::Int(4))));
    }
}

#[test]
fn mapname_unchanged_label_is_noop() {
    let evo_fn = make_fn(vec![Stmt::Expr(mapname_call("City of Rolent"))]);
    let xseed_fn = make_fn(vec![Stmt::Expr(mapname_call("City of Rolent"))]);
    let mut evo = make_scena("F", evo_fn);
    let xseed = make_scena("F", xseed_fn);
    let stats = swap_scena(&mut evo, &xseed);
    assert_eq!(stats.swaps_applied, 0);
    assert_eq!(stats.no_ops_equal, 1);
}

fn menuitem_call(char_id: i32, label: &str, index: i32) -> Expr {
    Expr::Call(
        None,
        Name::local("menu_additem".into()),
        vec![iv(char_id), sv(label), iv(index)],
    )
}

fn call_args(s: &Stmt) -> &Vec<Expr> {
    let Stmt::Expr(Expr::Call(_, _, args)) = s else {
        unreachable!()
    };
    args
}

#[test]
fn menuitem_swapped_positionally_preserving_index() {
    let evo_fn = make_fn(vec![
        Stmt::Expr(menuitem_call(1, "<c930>[History]", 0)),
        Stmt::Expr(menuitem_call(2, "<c930>[Orbment]", 0)),
    ]);
    let xseed_fn = make_fn(vec![
        Stmt::Expr(menuitem_call(1, "<c930>[Establishment]", 0)),
        Stmt::Expr(menuitem_call(2, "<c930>[Orbments]", 0)),
    ]);
    let mut evo = make_scena("F", evo_fn);
    let xseed = make_scena("F", xseed_fn);
    let stats = swap_scena(&mut evo, &xseed);
    assert_eq!(stats.swaps_applied, 2);
    let labels: Vec<&str> = tree(&evo, "F")
        .iter()
        .map(|s| {
            let args = call_args(s);
            let Expr::Value(_, Value::Str(t)) = &args[1] else {
                unreachable!()
            };
            assert!(matches!(&args[0], Expr::Value(_, Value::Int(_))));
            assert!(matches!(&args[2], Expr::Value(_, Value::Int(0))));
            t.as_str()
        })
        .collect();
    assert_eq!(labels, vec!["<c930>[Establishment]", "<c930>[Orbments]"]);
}

#[test]
fn menuitem_unchanged_label_is_noop() {
    let evo_fn = make_fn(vec![Stmt::Expr(menuitem_call(2, "<c930>[Quartz]", 1))]);
    let xseed_fn = make_fn(vec![Stmt::Expr(menuitem_call(2, "<c930>[Quartz]", 1))]);
    let mut evo = make_scena("F", evo_fn);
    let xseed = make_scena("F", xseed_fn);
    let stats = swap_scena(&mut evo, &xseed);
    assert_eq!(stats.swaps_applied, 0);
    assert_eq!(stats.no_ops_equal, 1);
}

fn display_name_call(char_id: i32, name: &str) -> Expr {
    Expr::Call(
        None,
        Name::local("chr_set_display_name".into()),
        vec![iv(char_id), sv(name)],
    )
}

fn display_names(scena: &Scena, function: &str) -> Vec<(i32, String)> {
    tree(scena, function)
        .iter()
        .map(|s| {
            let args = call_args(s);
            let Expr::Value(_, Value::Int(c)) = &args[0] else {
                unreachable!()
            };
            let Expr::Value(_, Value::Str(n)) = &args[1] else {
                unreachable!()
            };
            (*c, n.clone())
        })
        .collect()
}

#[test]
fn display_name_group_label_swapped_preserving_char_id() {
    let evo_fn = make_fn(vec![
        Stmt::Expr(display_name_call(0, "Scherazard, Kloe, & Estelle")),
        Stmt::Expr(display_name_call(10066, "Lonnie, Dino, & Lyle")),
    ]);
    let xseed_fn = make_fn(vec![
        Stmt::Expr(display_name_call(0, "Scherazard, Kloe, and Estelle")),
        Stmt::Expr(display_name_call(10066, "Lonnie, Dino & Lyle")),
    ]);
    let mut evo = make_scena("F", evo_fn);
    let xseed = make_scena("F", xseed_fn);
    let stats = swap_scena(&mut evo, &xseed);
    assert_eq!(stats.swaps_applied, 2);
    assert_eq!(
        display_names(&evo, "F"),
        vec![
            (0, "Scherazard, Kloe, and Estelle".to_owned()),
            (10066, "Lonnie, Dino & Lyle".to_owned()),
        ]
    );
}

#[test]
fn display_name_keyed_by_char_id_not_position() {
    let evo_fn = make_fn(vec![
        Stmt::Expr(display_name_call(5, "EVO five")),
        Stmt::Expr(display_name_call(9, "EVO nine")),
    ]);
    let xseed_fn = make_fn(vec![
        Stmt::Expr(display_name_call(9, "Xseed nine")),
        Stmt::Expr(display_name_call(5, "Xseed five")),
    ]);
    let mut evo = make_scena("F", evo_fn);
    let xseed = make_scena("F", xseed_fn);
    let stats = swap_scena(&mut evo, &xseed);
    assert_eq!(stats.swaps_applied, 2);
    assert_eq!(
        display_names(&evo, "F"),
        vec![(5, "Xseed five".to_owned()), (9, "Xseed nine".to_owned())]
    );
}

#[test]
fn _silence_unused_warnings_for_args_arg() {
    let _ = Function {
        args: vec![0],
        called: Called::Merged(true),
        is_prelude: true,
        body: Body::Flat(0),
    };
}
