use sora_remake_merge::audit::fmt_key;
use sora_remake_merge::audit::fmt_key_plain;
use sora_remake_merge::audit::fmt_line;
use sora_remake_merge::audit::fmt_run;
use sora_remake_merge::audit::fmt_site;
use sora_remake_merge::audit::tsv_escape;
use sora_remake_merge::audit::body_subs_tsv;
use sora_remake_merge::audit::overflow_tsv;
use sora_remake_merge::audit::unmatched_tsv;
use sora_remake_merge::audit::violation_line;
use sora_remake_merge::coverage::count_fn;
use sora_remake_merge::coverage::fmt_anchor_dist;
use sora_remake_merge::coverage::AnchorKind;
use sora_remake_merge::coverage::FnCounts;
use sora_remake_merge::io::byte_to_line;
use sora_remake_merge::io::ParseError;
use sora_remake_merge::swap::swap_scena;
use sora_remake_merge::swap::BodySubstitutionEntry;
use sora_remake_merge::swap::OverflowEntry;
use sora_remake_merge::swap::SwapStats;
use sora_remake_merge::swap::UnmatchedEntry;
use sora_remake_merge::verify::Violation;
use sora_remake_merge::verify::ViolationKind;
use sora_remake_merge::voice::count_dialogue_syscalls;
use sora_remake_merge::voice::extract_body_voice_ids;
use sora_remake_merge::voice::find_voice_pair;
use sora_remake_merge::voice::inject_voice_ids;
use sora_remake_merge::voice::reconstruct_call_args;
use sora_remake_merge::voice::VoiceInsert;
use sora_remake_merge::walker::Site;
use sora_remake_merge::AnchorKey;
use sora_remake_merge::Body;
use sora_remake_merge::Called;
use sora_remake_merge::Expr;
use sora_remake_merge::Function;
use sora_remake_merge::Name;
use sora_remake_merge::Op;
use sora_remake_merge::Scena;
use sora_remake_merge::Stmt;
use sora_remake_merge::Value;

fn iv(n: i32) -> Expr {
    Expr::Value(None, Value::Int(n))
}
fn sv(s: &str) -> Expr {
    Expr::Value(None, Value::Str(s.to_string()))
}
fn portrait(char_id: i32, tag: &str, text: &str) -> Stmt {
    Stmt::Expr(Expr::Syscall(None, 5, 0, vec![iv(char_id), sv(tag), sv(text)]))
}
fn make_fn(body: Vec<Stmt>) -> Function {
    Function {
        args: Vec::new(),
        called: Called::Merged(false),
        is_prelude: false,
        body: Body::Tree(body),
    }
}

#[test]
fn parse_error_text_puts_each_message_on_its_line() {
    let e = ParseError {
        messages: vec!["L1: bad token".to_string(), "L3: missing brace".to_string()],
    };
    assert_eq!(e.to_string(), "L1: bad token\nL3: missing brace\n");
    assert_eq!(ParseError { messages: vec![] }.to_string(), "");
}

#[test]
fn byte_offsets_map_to_lines() {
    let src = "fn a\n{\n}\n";
    assert_eq!(byte_to_line(src, 0), 1);
    assert_eq!(byte_to_line(src, 4), 1);
    assert_eq!(byte_to_line(src, 5), 2);
    assert_eq!(byte_to_line(src, 7), 3);
    assert_eq!(byte_to_line(src, 1000), 4);
    assert_eq!(byte_to_line("", 3), 1);
}

#[test]
fn tsv_escape_escapes_control_characters() {
    assert_eq!(tsv_escape("a\tb\nc\rd"), "a\\tb\\nc\\rd");
    assert_eq!(tsv_escape("plain é"), "plain é");
}

#[test]
fn labels_of_sites_lines_keys_and_runs() {
    assert_eq!(fmt_site(Site::Body), "body");
    assert_eq!(fmt_site(Site::Called), "called");
    assert_eq!(fmt_line(Some(2490)), "2490");
    assert_eq!(fmt_line(Some(0)), "0");
    assert_eq!(fmt_line(None), "");
    assert_eq!(
        fmt_key(&AnchorKey::Portrait {
            char_id: -3,
            tag: "<#E\t0>".into()
        }),
        "Portrait(char_id=-3, tag=<#E\\t0>)"
    );
    assert_eq!(
        fmt_key_plain(&AnchorKey::Portrait {
            char_id: 134,
            tag: "<#E\t0>".into()
        }),
        "Portrait(char_id=134, tag=<#E\t0>)"
    );
    assert_eq!(
        fmt_key(&AnchorKey::Untagged { char_id: Some(65535) }),
        "Untagged(Some(65535))"
    );
    assert_eq!(fmt_key(&AnchorKey::Untagged { char_id: None }), "Untagged(None)");
    assert_eq!(fmt_key(&AnchorKey::Voiced(34832)), "Voiced(34832)");
    assert_eq!(fmt_key(&AnchorKey::Letter), "Letter");
    assert_eq!(fmt_key(&AnchorKey::Plain), "Plain");
    assert_eq!(fmt_key(&AnchorKey::Narration(vec![26, 13])), "Narration([26, 13])");
    assert_eq!(fmt_key(&AnchorKey::Narration(vec![])), "Narration([])");
    assert_eq!(fmt_key(&AnchorKey::MapName), "MapName");
    assert_eq!(fmt_key(&AnchorKey::MenuItem), "MenuItem");
    assert_eq!(
        fmt_key(&AnchorKey::DisplayName { char_id: 10066 }),
        "DisplayName(char_id=10066)"
    );
    assert_eq!(
        fmt_run(&vec!["one\ttab".to_string(), "two".to_string()]),
        "one\\ttab\\ntwo"
    );
    assert_eq!(fmt_run(&vec![]), "");
}

#[test]
fn audit_reports_have_a_header_and_a_row_per_entry() {
    let unmatched = vec![(
        "scena/mp0010.ing".to_string(),
        UnmatchedEntry {
            function: "EV_01".to_string(),
            site: Site::Called,
            line: Some(12),
            key: AnchorKey::Voiced(7),
            evo_run: vec!["a".to_string(), "b".to_string()],
        },
    )];
    assert_eq!(
        unmatched_tsv(&unmatched),
        "file\tfunction\tsite\tline\tkey\tevo_text\n\
         scena/mp0010.ing\tEV_01\tcalled\t12\tVoiced(7)\ta\\nb\n"
    );
    let overflows = vec![(
        "f.ing".to_string(),
        OverflowEntry {
            function: "F".to_string(),
            site: Site::Body,
            line: None,
            key: AnchorKey::Letter,
            evo_run: vec!["old".to_string()],
            reused_run: vec!["new".to_string()],
        },
    )];
    assert_eq!(
        overflow_tsv(&overflows),
        "file\tfunction\tsite\tline\tkey\tevo_text\treused_xseed_text\n\
         f.ing\tF\tbody\t\tLetter\told\tnew\n"
    );
    let subs = vec![(
        "f.ing".to_string(),
        BodySubstitutionEntry {
            function: "QS300_01_00".to_string(),
            evo_body_kind: "asm",
            voice_ids_reinjected: 12,
        },
    )];
    assert_eq!(
        body_subs_tsv(&subs),
        "file\tfunction\tevo_body_kind\tvoice_ids_reinjected\n\
         f.ing\tQS300_01_00\tasm\t12\n"
    );
    assert_eq!(
        body_subs_tsv(&vec![]),
        "file\tfunction\tevo_body_kind\tvoice_ids_reinjected\n"
    );
}

#[test]
fn violation_console_line() {
    let v = Violation {
        function: "EV_01_61_00".to_string(),
        site: Site::Body,
        key: AnchorKey::Voiced(97068),
        occurrence: 3,
        kind: ViolationKind::Delta,
    };
    assert_eq!(
        violation_line("mp1010_04.ing", &v),
        "[violation:Delta] mp1010_04.ing  EV_01_61_00  body  Voiced(97068)  occ=3"
    );
}

#[test]
fn counting_by_anchor_kind() {
    let f = make_fn(vec![
        portrait(0, "<#E_0>", "a"),
        Stmt::If(
            None,
            iv(0),
            vec![Stmt::Expr(Expr::Syscall(None, 5, 8, vec![iv(65535), sv("p")]))],
            Some(vec![Stmt::Expr(Expr::Call(
                None,
                Name::local("menu_additem".into()),
                vec![iv(1), sv("m"), iv(0)],
            ))]),
        ),
        Stmt::Expr(Expr::Syscall(None, 4, 2, vec![iv(0)])),
    ]);
    let c = count_fn(&f).unwrap();
    assert_eq!(
        c,
        FnCounts {
            portrait: 1,
            untagged: 0,
            voiced: 0,
            letter: 0,
            plain: 1,
            narration: 0,
            map_name: 0,
            menu_item: 1,
            display_name: 0,
            total: 3,
        }
    );
    assert_eq!(
        fmt_anchor_dist(&c),
        "Portrait=1, Untagged=0, Voiced=0, Letter=0, Plain=1, Narration=0, MapName=0, MenuItem=1, DisplayName=0"
    );
    let bytecode = Function {
        args: Vec::new(),
        called: Called::Merged(false),
        is_prelude: false,
        body: Body::Asm(Vec::new()),
    };
    assert!(count_fn(&bytecode).is_none());
    assert_eq!(AnchorKind::from(&AnchorKey::Voiced(1)), AnchorKind::Voiced);
    assert_eq!(
        AnchorKind::from(&AnchorKey::DisplayName { char_id: 2 }),
        AnchorKind::DisplayName
    );
}

#[test]
fn voice_pairs_recovered_from_bytecode() {
    let ops = vec![
        Op::Push(Value::Str("GungHo".into())),
        Op::Line(4),
        Op::Push(Value::Str("<#E_0>".into())),
        Op::Push(Value::Int(60589)),
        Op::Push(Value::Int(11)),
        Op::Push(Value::Int(0)),
        Op::CallSystem(5, 0, 5),
        Op::Push(Value::Str("quiet".into())),
        Op::Push(Value::Int(65535)),
        Op::CallSystem(5, 8, 2),
        Op::CallSystem(1, 2, 0),
    ];
    assert_eq!(
        reconstruct_call_args(&ops, 6, 5),
        Some(vec![
            Value::Int(0),
            Value::Int(11),
            Value::Int(60589),
            Value::Str("<#E_0>".into()),
            Value::Str("GungHo".into()),
        ])
    );
    assert_eq!(
        extract_body_voice_ids(&ops),
        Some(vec![Some(VoiceInsert { index: 1, value: 60589 }), None])
    );
    let bad = vec![Op::Pop(1), Op::CallSystem(5, 0, 1)];
    assert_eq!(extract_body_voice_ids(&bad), None);
    assert_eq!(reconstruct_call_args(&bad, 1, 1), None);
    assert_eq!(
        find_voice_pair(
            5,
            0,
            &vec![Value::Int(2), Value::Str("<#E_0>".into()), Value::Int(11), Value::Int(34731), Value::Str("t".into())]
        ),
        Some(VoiceInsert { index: 2, value: 34731 })
    );
    assert_eq!(
        find_voice_pair(5, 0, &vec![Value::Int(11510), Value::Int(25), Value::Str("<#E_0>".into()), Value::Str("t".into())]),
        None
    );
}

#[test]
fn voice_pairs_put_back_in_body_order() {
    let mut body = vec![
        portrait(0, "<#E_0>", "one"),
        Stmt::While(None, iv(1), vec![portrait(1, "<#E_1>", "two")]),
        Stmt::Expr(Expr::Syscall(None, 5, 8, vec![iv(65535), sv("three")])),
    ];
    assert_eq!(count_dialogue_syscalls(&body), 3);
    let inserts = vec![None, Some(VoiceInsert { index: 1, value: 77 }), Some(VoiceInsert { index: 9, value: 5 })];
    let n = inject_voice_ids(&mut body, &inserts);
    assert_eq!(n, 1);
    assert_eq!(
        body[1],
        Stmt::While(
            None,
            iv(1),
            vec![Stmt::Expr(Expr::Syscall(
                None,
                5,
                0,
                vec![iv(1), iv(11), iv(77), sv("<#E_1>"), sv("two")]
            ))]
        )
    );
    assert_eq!(body[0], portrait(0, "<#E_0>", "one"));
}

#[test]
fn merging_stats_adds_counts_and_concatenates_entries() {
    let mut a = SwapStats::default();
    a.swaps_applied = 2;
    a.unmatched_evo_calls = 1;
    a.unmatched.push(UnmatchedEntry {
        function: "A".into(),
        site: Site::Body,
        line: None,
        key: AnchorKey::Letter,
        evo_run: vec![],
    });
    let mut b = SwapStats::default();
    b.swaps_applied = 3;
    b.no_ops_equal = 4;
    b.unmatched_evo_calls = 1;
    b.unmatched.push(UnmatchedEntry {
        function: "B".into(),
        site: Site::Called,
        line: Some(1),
        key: AnchorKey::Plain,
        evo_run: vec![],
    });
    a.merge(b);
    assert_eq!(a.swaps_applied, 5);
    assert_eq!(a.no_ops_equal, 4);
    assert_eq!(a.unmatched_evo_calls, 2);
    let names: Vec<&str> = a.unmatched.iter().map(|e| e.function.as_str()).collect();
    assert_eq!(names, vec!["A", "B"]);
    let mut c = SwapStats::default();
    c.swaps_applied = usize::MAX;
    let mut d = SwapStats::default();
    d.swaps_applied = 1;
    c.merge(d);
    assert_eq!(c.swaps_applied, usize::MAX);
}

#[test]
fn merging_a_script_with_itself_changes_nothing() {
    let f = make_fn(vec![
        portrait(0, "<#E_0>", "a"),
        portrait(0, "<#E_0>", "b"),
        Stmt::Expr(Expr::Syscall(None, 22, 38, vec![sv("Rolent"), iv(1), iv(2), iv(3)])),
    ]);
    let g = make_fn(vec![portrait(1, "<#E_1>", "c")]);
    let script = Scena {
        functions: vec![("F".to_string(), f), ("G".to_string(), g)],
    };
    let mut evo = script.clone();
    let stats = swap_scena(&mut evo, &script);
    assert_eq!(evo, script);
    assert_eq!(stats.swaps_applied, 0);
    assert_eq!(stats.no_ops_equal, 4);
    assert_eq!(stats.unmatched_evo_calls, 0);
    assert_eq!(stats.overflow_reuses, 0);
    assert!(stats.body_subs.is_empty());
}

#[test]
fn functions_without_a_counterpart_keep_their_place() {
    let evo = Scena {
        functions: vec![
            ("ONLY".to_string(), make_fn(vec![portrait(0, "<#E_0>", "keep")])),
            ("F".to_string(), make_fn(vec![portrait(0, "<#E_0>", "old")])),
        ],
    };
    let xseed = Scena {
        functions: vec![("F".to_string(), make_fn(vec![portrait(0, "<#E_0>", "new")]))],
    };
    let mut merged = evo.clone();
    let stats = swap_scena(&mut merged, &xseed);
    assert_eq!(stats.swaps_applied, 1);
    assert_eq!(merged.functions[0], evo.functions[0]);
    assert_eq!(merged.functions[1].0, "F");
    assert_eq!(merged.get("F").unwrap(), &make_fn(vec![portrait(0, "<#E_0>", "new")]));
    assert!(merged.get("MISSING").is_none());
}

#[test]
fn unmatched_and_overflow_entries_match_their_counts() {
    let evo = Scena {
        functions: vec![(
            "F".to_string(),
            make_fn(vec![
                portrait(0, "<#E_0>", "1"),
                portrait(0, "<#E_0>", "2"),
                portrait(0, "<#E_0>", "3"),
                portrait(9, "<#E_9>", "lonely"),
            ]),
        )],
    };
    let xseed = Scena {
        functions: vec![("F".to_string(), make_fn(vec![portrait(0, "<#E_0>", "x")]))],
    };
    let mut merged = evo.clone();
    let stats = swap_scena(&mut merged, &xseed);
    assert_eq!(stats.overflow_reuses, 2);
    assert_eq!(stats.overflows.len(), 2);
    assert_eq!(stats.unmatched_evo_calls, 1);
    assert_eq!(stats.unmatched.len(), 1);
    assert_eq!(stats.unmatched[0].evo_run, vec!["lonely".to_string()]);
    assert_eq!(stats.overflows[1].reused_run, vec!["x".to_string()]);
    assert_eq!(stats.swaps_applied, 3);
}

fn voiced_portrait(char_id: i32, voice: i32, tag: &str, text: &str) -> Stmt {
    Stmt::Expr(Expr::Syscall(
        None,
        5,
        0,
        vec![iv(char_id), iv(11), iv(voice), sv(tag), sv(text)],
    ))
}

#[test]
fn merging_again_keeps_voices_and_changes_nothing() {
    let evo_fn = make_fn(vec![
        voiced_portrait(0, 101, "<#E_0>", "one"),
        voiced_portrait(0, 102, "<#E_0>", "two"),
        voiced_portrait(0, 103, "<#E_0>", "three"),
    ]);
    let xseed_fn = make_fn(vec![portrait(0, "<#E_0>", "uno"), portrait(0, "<#E_0>", "dos")]);
    let mut evo = Scena { functions: vec![("F".to_string(), evo_fn)] };
    let xseed = Scena { functions: vec![("F".to_string(), xseed_fn)] };

    let first = swap_scena(&mut evo, &xseed);
    assert_eq!(first.swaps_applied, 3);
    assert_eq!(first.overflow_reuses, 1);
    let expected = make_fn(vec![
        voiced_portrait(0, 101, "<#E_0>", "uno"),
        voiced_portrait(0, 102, "<#E_0>", "dos"),
        voiced_portrait(0, 103, "<#E_0>", "dos"),
    ]);
    assert!(evo.get("F").unwrap() == &expected);

    let snapshot = evo.clone();
    let second = swap_scena(&mut evo, &xseed);
    assert_eq!(second.swaps_applied, 0);
    assert_eq!(second.no_ops_equal, 3);
    assert!(evo == snapshot);
}

#[test]
fn merging_again_after_a_body_substitution_changes_nothing() {
    let evo_fn = Function {
        args: Vec::new(),
        called: Called::Raw(Vec::new()),
        is_prelude: false,
        body: Body::Asm(vec![
            Op::Push(Value::Str("GungHo".into())),
            Op::Push(Value::Str("<#E_0>".into())),
            Op::Push(Value::Int(60589)),
            Op::Push(Value::Int(11)),
            Op::Push(Value::Int(0)),
            Op::CallSystem(5, 0, 5),
            Op::Pop(5),
        ]),
    };
    let xseed_fn = make_fn(vec![portrait(0, "<#E_0>", "XSEED")]);
    let mut evo = Scena { functions: vec![("F".to_string(), evo_fn)] };
    let xseed = Scena { functions: vec![("F".to_string(), xseed_fn)] };

    let first = swap_scena(&mut evo, &xseed);
    assert_eq!(first.body_substitutions, 1);
    assert_eq!(first.voice_ids_reinjected, 1);

    let snapshot = evo.clone();
    let second = swap_scena(&mut evo, &xseed);
    assert_eq!(second.swaps_applied, 0);
    assert_eq!(second.body_substitutions, 0);
    assert_eq!(second.no_ops_equal, 1);
    assert!(evo == snapshot);
}

#[test]
fn merge_changes_exactly_the_lines_the_other_edition_changed() {
    let evo_fn = make_fn(vec![
        voiced_portrait(0, 1, "<#E_0>", "one"),
        voiced_portrait(0, 2, "<#E_0>", "two"),
        voiced_portrait(0, 3, "<#E_0>", "three"),
    ]);
    let xseed_fn = make_fn(vec![
        portrait(0, "<#E_0>", "one"),
        portrait(0, "<#E_0>", "TWO"),
        portrait(0, "<#E_0>", "three"),
    ]);
    let mut evo = Scena { functions: vec![("F".to_string(), evo_fn)] };
    let xseed = Scena { functions: vec![("F".to_string(), xseed_fn)] };
    let stats = swap_scena(&mut evo, &xseed);
    assert_eq!(stats.swaps_applied, 1);
    assert_eq!(stats.no_ops_equal, 2);
    let expected = make_fn(vec![
        voiced_portrait(0, 1, "<#E_0>", "one"),
        voiced_portrait(0, 2, "<#E_0>", "TWO"),
        voiced_portrait(0, 3, "<#E_0>", "three"),
    ]);
    assert!(evo.get("F").unwrap() == &expected);
}

#[test]
fn merged_function_keeps_its_arguments_and_prelude_flag() {
    let mut evo_fn = make_fn(vec![portrait(0, "<#E_0>", "a")]);
    evo_fn.args = vec![3, 4];
    evo_fn.is_prelude = true;
    let xseed_fn = make_fn(vec![portrait(0, "<#E_0>", "b")]);
    let mut evo = Scena { functions: vec![("F".to_string(), evo_fn)] };
    let xseed = Scena { functions: vec![("F".to_string(), xseed_fn)] };
    let stats = swap_scena(&mut evo, &xseed);
    assert_eq!(stats.swaps_applied, 1);
    let f = evo.get("F").unwrap();
    assert_eq!(f.args, vec![3, 4]);
    assert!(f.is_prelude);
}

#[test]
fn index_has_one_nonempty_bucket_per_anchor_in_first_seen_order() {
    let f = make_fn(vec![
        portrait(0, "<#E_0>", "a"),
        portrait(1, "<#E_1>", "b"),
        portrait(0, "<#E_0>", "c"),
    ]);
    let idx = sora_remake_merge::swap::build_index(&f);
    assert_eq!(idx.len(), 2);
    assert!(matches!(&idx[0].key, AnchorKey::Portrait { char_id: 0, tag } if tag == "<#E_0>"));
    assert_eq!(idx[0].runs, vec![vec!["a".to_string()], vec!["c".to_string()]]);
    assert!(matches!(&idx[1].key, AnchorKey::Portrait { char_id: 1, tag } if tag == "<#E_1>"));
    assert_eq!(idx[1].runs, vec![vec!["b".to_string()]]);
    assert_eq!(idx[0].site, Site::Body);
}

#[test]
fn every_visit_is_counted_once() {
    let evo_fn = make_fn(vec![
        portrait(0, "<#E_0>", "same"),
        portrait(0, "<#E_0>", "b"),
        portrait(0, "<#E_0>", "c"),
        portrait(1, "<#E_1>", "nobody"),
        portrait(0, "<#E_0>", "dos"),
    ]);
    let xseed_fn = make_fn(vec![portrait(0, "<#E_0>", "same"), portrait(0, "<#E_0>", "dos")]);
    let mut evo = Scena { functions: vec![("F".to_string(), evo_fn)] };
    let xseed = Scena { functions: vec![("F".to_string(), xseed_fn)] };
    let stats = swap_scena(&mut evo, &xseed);
    assert_eq!(stats.swaps_applied + stats.no_ops_equal + stats.unmatched_evo_calls, 5);
    assert_eq!(stats.swaps_applied, 2);
    assert_eq!(stats.no_ops_equal, 2);
    assert_eq!(stats.unmatched_evo_calls, 1);
    assert_eq!(stats.unmatched.len(), stats.unmatched_evo_calls);
    assert_eq!(stats.overflow_reuses, 2);
    assert_eq!(stats.overflows.len(), stats.overflow_reuses);
}

#[test]
fn reading_back_past_the_end_of_the_bytecode() {
    let ops = vec![Op::Push(Value::Int(1)), Op::CallSystem(5, 0, 1)];
    assert_eq!(reconstruct_call_args(&ops, 9, 0), Some(Vec::new()));
    assert_eq!(reconstruct_call_args(&ops, 9, 1), None);
    assert_eq!(reconstruct_call_args(&ops, 1, 1), Some(vec![Value::Int(1)]));
}

#[test]
fn index_built_at_the_builders_site() {
    let body = vec![portrait(0, "<#E_0>", "a"), portrait(0, "<#E_0>", "b")];
    let mut b = sora_remake_merge::swap::IndexBuilder { idx: Vec::new(), site: Site::Called };
    sora_remake_merge::swap::collect_body(&body, &mut b);
    assert_eq!(b.site, Site::Called);
    assert_eq!(b.idx.len(), 1);
    assert_eq!(b.idx[0].site, Site::Called);
    assert_eq!(b.idx[0].runs, vec![vec!["a".to_string()], vec!["b".to_string()]]);
}

#[test]
fn merging_again_after_a_portrait_call_is_emptied_changes_nothing() {
    let evo_fn = make_fn(vec![portrait(0, "<#E_0>", "a"), portrait(0, "<#E_0>", "b")]);
    let xseed_fn = make_fn(vec![
        Stmt::Expr(Expr::Syscall(None, 5, 0, vec![iv(0), sv("<#E_0>")])),
        portrait(0, "<#E_0>", "y"),
    ]);
    let mut evo = Scena { functions: vec![("F".to_string(), evo_fn)] };
    let xseed = Scena { functions: vec![("F".to_string(), xseed_fn)] };
    let first = swap_scena(&mut evo, &xseed);
    assert_eq!(first.swaps_applied, 2);
    let expected = make_fn(vec![
        Stmt::Expr(Expr::Syscall(None, 5, 0, vec![iv(0), sv("<#E_0>")])),
        portrait(0, "<#E_0>", "y"),
    ]);
    assert!(evo.get("F").unwrap() == &expected);
    let snapshot = evo.clone();
    let second = swap_scena(&mut evo, &xseed);
    assert_eq!(second.swaps_applied, 0);
    assert!(evo == snapshot);
}
