use sora_remake_merge::anchor::classify_named_call_expr;
use sora_remake_merge::anchor::is_localized_opcode;
use sora_remake_merge::AnchorKey;
use sora_remake_merge::Expr;
use sora_remake_merge::Name;
use sora_remake_merge::Value;
use sora_remake_merge::classify_syscall_expr;

fn iv(n: i32) -> Expr {
    Expr::Value(None, Value::Int(n))
}
fn sv(s: &str) -> Expr {
    Expr::Value(None, Value::Str(s.to_string()))
}
fn iv_line(n: i32, line: u16) -> Expr {
    Expr::Value(Some(line), Value::Int(n))
}
fn sv_line(s: &str, line: u16) -> Expr {
    Expr::Value(Some(line), Value::Str(s.to_string()))
}
fn var() -> Expr {
    Expr::Var(None, 0)
}

#[test]
fn portrait_no_voice_id() {
    let args = vec![iv(134), sv("<#E_0#M_0#B_0>"), sv("text")];
    let got = classify_syscall_expr(5, 0, &args).unwrap();
    assert_eq!(
        got.key,
        AnchorKey::Portrait {
            char_id: 134,
            tag: "<#E_0#M_0#B_0>".into()
        }
    );
    assert_eq!(got.prefix_len, 2);
}

#[test]
fn portrait_with_voice_id() {
    let args = vec![iv(134), iv(11), iv(33247), sv("<#E_0#M_0#B_0>"), sv("text")];
    let got = classify_syscall_expr(5, 0, &args).unwrap();
    assert_eq!(
        got.key,
        AnchorKey::Portrait {
            char_id: 134,
            tag: "<#E_0#M_0#B_0>".into()
        }
    );
    assert_eq!(got.prefix_len, 4);
}

#[test]
fn portrait_with_evo_voice_id() {
    let args = vec![iv(1), iv(11), iv(60589), sv("<#E_2#M_2#B_0>"), sv("text")];
    let got = classify_syscall_expr(5, 0, &args).unwrap();
    assert_eq!(
        got.key,
        AnchorKey::Portrait {
            char_id: 1,
            tag: "<#E_2#M_2#B_0>".into()
        }
    );
    assert_eq!(got.prefix_len, 4);
}

#[test]
fn portrait_non_e_face_set() {
    let args = vec![
        iv(134),
        iv(11),
        iv(34793),
        sv("<#L_0#G[2]#M_2#B_0>"),
        sv("text"),
    ];
    let got = classify_syscall_expr(5, 6, &args).unwrap();
    assert_eq!(
        got.key,
        AnchorKey::Portrait {
            char_id: 134,
            tag: "<#L_0#G[2]#M_2#B_0>".into()
        }
    );
    assert_eq!(got.prefix_len, 4);
}

#[test]
fn portrait_56_with_continuation_marker() {
    let args = vec![iv(2), sv("<#E_8#M_0#B_0>"), sv("<K>"), sv("text")];
    let got = classify_syscall_expr(5, 6, &args).unwrap();
    assert_eq!(
        got.key,
        AnchorKey::Portrait {
            char_id: 2,
            tag: "<#E_8#M_0#B_0>".into()
        }
    );
    assert_eq!(got.prefix_len, 2);
}

#[test]
fn portrait_ignores_line_annotation() {
    let args = vec![
        iv_line(134, 2489),
        sv_line("<#E_0#M_0#B_0>", 2490),
        sv("text"),
    ];
    let got = classify_syscall_expr(5, 0, &args).unwrap();
    assert_eq!(
        got.key,
        AnchorKey::Portrait {
            char_id: 134,
            tag: "<#E_0#M_0#B_0>".into()
        }
    );
}

#[test]
fn portrait_less_narrator() {
    let args = vec![iv(65535), sv("<C1>A card hangs from the door.")];
    let got = classify_syscall_expr(5, 6, &args).unwrap();
    assert_eq!(
        got.key,
        AnchorKey::Untagged {
            char_id: Some(65535)
        }
    );
    assert_eq!(got.prefix_len, 1);
}

#[test]
fn portrait_less_variable_speaker_with_voice() {
    let args = vec![
        var(),
        iv(14),
        iv(15),
        iv(11),
        iv(30546),
        sv("(I'm not going to make it in time...)"),
    ];
    let got = classify_syscall_expr(5, 6, &args).unwrap();
    assert_eq!(got.key, AnchorKey::Untagged { char_id: None });
    assert_eq!(got.prefix_len, 5, "voice ID preserved in prefix");
}

#[test]
fn voice_id_after_portrait() {
    let args = vec![
        iv(2),
        sv("<#E_0#M_2#B_0>"),
        iv(11),
        iv(34731),
        sv("In the meantime, let's get back to"),
    ];
    let got = classify_syscall_expr(5, 6, &args).unwrap();
    assert_eq!(
        got.key,
        AnchorKey::Portrait {
            char_id: 2,
            tag: "<#E_0#M_2#B_0>".into()
        }
    );
    assert_eq!(
        got.prefix_len, 4,
        "prefix skips the 11, V after the portrait"
    );
}

#[test]
fn s58_params_skipped() {
    let args = vec![iv(65535), iv(16), iv(0), iv(17), iv(0), iv(0)];
    assert!(classify_syscall_expr(5, 8, &args).is_none());
}

#[test]
fn s58_plain() {
    let args = vec![iv(65535), sv("<C1>text")];
    let got = classify_syscall_expr(5, 8, &args).unwrap();
    assert_eq!(got.key, AnchorKey::Plain);
    assert_eq!(got.prefix_len, 1);
}

#[test]
fn s58_letter() {
    let args = vec![iv(65535), iv(19), iv(13), sv("text")];
    let got = classify_syscall_expr(5, 8, &args).unwrap();
    assert_eq!(got.key, AnchorKey::Letter);
    assert_eq!(got.prefix_len, 3);
}

#[test]
fn s58_voiced() {
    let args = vec![iv(65535), iv(19), iv(13), iv(11), iv(34832), sv("text")];
    let got = classify_syscall_expr(5, 8, &args).unwrap();
    assert_eq!(got.key, AnchorKey::Voiced(34832));
    assert_eq!(got.prefix_len, 5);
}

#[test]
fn s58_voiced_plain_evo_upgrade() {
    let args = vec![iv(65535), iv(11), iv(97064), sv("<C1>lyric line")];
    let got = classify_syscall_expr(5, 8, &args).unwrap();
    assert_eq!(got.key, AnchorKey::Plain);
    assert_eq!(got.prefix_len, 3);
}

#[test]
fn s58_plain_trailing_terminator_preserved() {
    let args = vec![iv(65535), sv("[Exhibit]"), iv(10), sv("Desc."), iv(13)];
    let got = classify_syscall_expr(5, 8, &args).unwrap();
    assert_eq!(got.key, AnchorKey::Plain);
    assert_eq!(got.prefix_len, 1);
    assert_eq!(got.run_len, Some(3), "trailing 13 excluded from the run");
}

#[test]
fn s58_narration_signpost() {
    let args = vec![iv(65535), iv(13), sv("<C1>West: Bright Family House")];
    let got = classify_syscall_expr(5, 8, &args).unwrap();
    assert_eq!(got.key, AnchorKey::Narration(vec![13]));
    assert_eq!(got.prefix_len, 2);
    assert_eq!(got.run_len, Some(1));
}

#[test]
fn s58_narration_device_panel() {
    let args = vec![
        iv(65535),
        iv(26),
        iv(13),
        sv("<c393>Orbal Compatibility Tester"),
    ];
    let got = classify_syscall_expr(5, 8, &args).unwrap();
    assert_eq!(got.key, AnchorKey::Narration(vec![26, 13]));
    assert_eq!(got.prefix_len, 3);
}

#[test]
fn s58_narration_records_two_shapes_distinct_buckets() {
    let a = vec![iv(65535), iv(26), iv(22), sv("<c930>Entry: ...")];
    let got_a = classify_syscall_expr(5, 8, &a).unwrap();
    assert_eq!(got_a.key, AnchorKey::Narration(vec![26, 22]));
    assert_eq!(got_a.prefix_len, 3);

    let b = vec![iv(65535), iv(16), iv(26), iv(22), sv("<c930>Entry: ...")];
    let got_b = classify_syscall_expr(5, 8, &b).unwrap();
    assert_eq!(got_b.key, AnchorKey::Narration(vec![16, 26, 22]));
    assert_eq!(got_b.prefix_len, 4);
}

#[test]
fn s58_narration_strips_evo_voice_id_from_bucket() {
    let args = vec![
        iv(65535),
        iv(26),
        iv(13),
        iv(11),
        iv(97148),
        sv("<c393>Orbal Compatibility Tester"),
    ];
    let got = classify_syscall_expr(5, 8, &args).unwrap();
    assert_eq!(
        got.key,
        AnchorKey::Narration(vec![26, 13]),
        "voice id excluded from the bucket key"
    );
    assert_eq!(got.prefix_len, 5, "voice id preserved in the prefix");
}

#[test]
fn s58_parameterized_message_skipped() {
    let args = vec![iv(65535), iv(16), sv("Received "), iv(17), iv(208), sv(".")];
    assert!(classify_syscall_expr(5, 8, &args).is_none());
}

#[test]
fn mapname_single_string_with_coords() {
    let args = vec![sv("City of Grancel"), iv(110), iv(600), iv(6)];
    let got = classify_syscall_expr(22, 38, &args).unwrap();
    assert_eq!(got.key, AnchorKey::MapName);
    assert_eq!(got.prefix_len, 0);
    assert_eq!(got.run_len, Some(1));
}

#[test]
fn mapname_requires_leading_string() {
    let args = vec![iv(0), iv(110)];
    assert!(classify_syscall_expr(22, 38, &args).is_none());
}

#[test]
fn named_mapname_call_classified() {
    let args = vec![sv("Esmelas Tower"), iv(110), iv(505), iv(4)];
    let got = classify_named_call_expr(&Name::local("ui_mapname_effect".into()), &args).unwrap();
    assert_eq!(got.key, AnchorKey::MapName);
    assert_eq!(got.prefix_len, 0);
    assert_eq!(got.run_len, Some(1));
}

#[test]
fn named_non_mapname_call_ignored() {
    let args = vec![sv("x")];
    assert!(
        classify_named_call_expr(&Name::local("camera_set_calc_mode".into()), &args).is_none()
    );
}

#[test]
fn menu_additem_classified() {
    let args = vec![iv(2), sv("<c930>[Orbment]"), iv(0)];
    let got = classify_named_call_expr(&Name::local("menu_additem".into()), &args).unwrap();
    assert_eq!(got.key, AnchorKey::MenuItem);
    assert_eq!(got.prefix_len, 1);
    assert_eq!(got.run_len, Some(1));
}

#[test]
fn menu_additem_non_string_label_ignored() {
    let args = vec![iv(0), iv(1)];
    assert!(classify_named_call_expr(&Name::local("menu_additem".into()), &args).is_none());
}

#[test]
fn chr_set_display_name_classified() {
    let args = vec![iv(0), sv("Scherazard, Kloe, and Estelle")];
    let got =
        classify_named_call_expr(&Name::local("chr_set_display_name".into()), &args).unwrap();
    assert_eq!(got.key, AnchorKey::DisplayName { char_id: 0 });
    assert_eq!(got.prefix_len, 1);
    assert_eq!(got.run_len, Some(1));
}

#[test]
fn chr_set_display_name_var_char_id_ignored() {
    let args = vec![var(), sv("Man in Black")];
    assert!(
        classify_named_call_expr(&Name::local("chr_set_display_name".into()), &args).is_none()
    );
}

#[test]
fn unsupported_opcode_returns_none() {
    let args = vec![iv(0)];
    assert!(classify_syscall_expr(4, 2, &args).is_none());
}

#[test]
fn localized_opcodes_are_the_dialogue_and_mapname_syscalls() {
    assert!(is_localized_opcode(5, 0));
    assert!(is_localized_opcode(5, 6));
    assert!(is_localized_opcode(5, 8));
    assert!(is_localized_opcode(22, 38));
    assert!(!is_localized_opcode(5, 1));
    assert!(!is_localized_opcode(4, 2));
}

#[test]
fn named_call_in_a_module_is_not_a_prelude_alias() {
    let name = Name {
        module: "other".to_string(),
        local: "menu_additem".to_string(),
    };
    let args = vec![iv(2), sv("<c930>[Orbment]"), iv(0)];
    assert!(classify_named_call_expr(&name, &args).is_none());
}
