use zz_client::platform::{
    apply_touch_body_class, boot_action_function, boot_dismiss_start, boot_html_code,
    boot_html_name, boot_log_phases, boot_peek_action, boot_record_phase,
    boot_signal_engine_ready, boot_take_action, html_code_value, html_name_value, initial_name,
    is_touch_mode, join_code_from_url, join_from, js_space_pressed, normalize_join, persist_name,
    refocus_canvas, same_text, server_url, set_html_code_value, set_html_name_value,
    set_touch_text_overlays, touch_override, unlock_audio, voice_drain_pcm_frames,
    voice_mic_denied, voice_mic_ready, voice_request_mic, voice_set_tx_enabled, wasm_query_param,
    BootReply, BootStamp, PageAddress, PageField, PageFrame, Target, BOOT_ENTRY_CANARY,
};
use zz_client::seams::QueuedBootAction;

fn text(s: &str) -> Option<String> {
    Some(s.to_string())
}

#[test]
fn boot_entry_canary_matches_ship_script() {
    assert_eq!(BOOT_ENTRY_CANARY, "zz-boot-entry-v1");
    assert!(!BOOT_ENTRY_CANARY.is_empty());
}

#[test]
fn boot_stamp_elapsed_is_sane() {
    let clock = std::time::Instant::now();
    let t0 = BootStamp::at(clock.elapsed().as_millis());
    let ms = t0.elapsed_ms(clock.elapsed().as_millis());
    assert!(ms < 60_000, "elapsed_ms={ms} unreasonably large for fresh stamp");
}

#[test]
fn boot_stamp_clamps_both_ends() {
    let t0 = BootStamp::at(1_000);
    assert_eq!(t0.elapsed_ms(1_250), 250);
    assert_eq!(t0.elapsed_ms(1_000), 0);
    assert_eq!(t0.elapsed_ms(10), 0);
    assert_eq!(t0.elapsed_ms(1_000 + u128::from(u32::MAX)), u32::MAX);
    assert_eq!(t0.elapsed_ms(u128::MAX), u32::MAX);
}

#[test]
fn server_url_native_and_page() {
    assert_eq!(server_url(Target::Native, None, None), "ws://127.0.0.1:8080/ws");
    assert_eq!(server_url(Target::Native, text("ws://h:1/x"), None), "ws://h:1/x");
    assert_eq!(server_url(Target::Wasm, text("ignored"), None), "ws://127.0.0.1:8080/ws");
    let secure = PageAddress { protocol: text("https:"), host: text("play.example") };
    assert_eq!(server_url(Target::Wasm, None, Some(secure)), "wss://play.example/ws");
    let plain = PageAddress { protocol: text("http:"), host: text("localhost:9000") };
    assert_eq!(server_url(Target::Wasm, None, Some(plain)), "ws://localhost:9000/ws");
    let unknown = PageAddress { protocol: None, host: None };
    assert_eq!(server_url(Target::Wasm, None, Some(unknown)), "ws://127.0.0.1:8080/ws");
}

#[test]
fn join_codes_are_trimmed_and_capitalised() {
    assert_eq!(normalize_join("  ab1 ".to_string()), text("AB1"));
    assert_eq!(normalize_join("stra\u{df}e".to_string()), text("STRASSE"));
    assert_eq!(normalize_join(" \t ".to_string()), None);
    assert_eq!(join_code_from_url(Target::Native, text(" xyz"), "?join=abc"), text("XYZ"));
    assert_eq!(join_code_from_url(Target::Native, None, "?join=abc"), None);
    assert_eq!(join_code_from_url(Target::Wasm, text("xyz"), "?a=1&join=abc"), text("ABC"));
    assert_eq!(join_code_from_url(Target::Wasm, None, "?join=++"), None);
    assert_eq!(join_code_from_url(Target::Wasm, None, ""), None);
}

#[test]
fn a_join_code_is_its_own_code() {
    for raw in ["ab1", "  Zz-9_q\r\n", "\u{b}x y\u{c}"] {
        let code = normalize_join(raw.to_string()).unwrap();
        assert!(!code.chars().any(|c| c.is_ascii_lowercase()));
        assert_eq!(normalize_join(code.clone()), Some(code));
    }
    assert_eq!(normalize_join("\u{b}x y\u{c}".to_string()), text("X Y"));
    assert_eq!(normalize_join("\u{a0}\u{3000}ab\u{2028}\u{85}".to_string()), text("AB"));
    assert_eq!(normalize_join("\u{1680}\u{2003}\u{202f}\u{205f}".to_string()), None);
    assert_eq!(normalize_join("\u{200b}".to_string()), text("\u{200b}"), "no white space");
    assert_eq!(normalize_join("\u{1c}".to_string()), text("\u{1c}"), "no white space");
    assert_eq!(join_from("AB1".to_string()), text("AB1"));
    assert_eq!(join_from(String::new()), None);
}

#[test]
fn query_parameters() {
    assert_eq!(wasm_query_param("?touch=1", "touch"), text("1"));
    assert_eq!(wasm_query_param("touch=0", "touch"), text("0"));
    assert_eq!(wasm_query_param("?a=b=c&x", "a"), text("b=c"));
    assert_eq!(wasm_query_param("?a=b=c&x", "x"), text(""));
    assert_eq!(wasm_query_param("?a=1&a=2", "a"), text("1"));
    assert_eq!(wasm_query_param("?n=two+words", "n"), text("two words"));
    assert_eq!(wasm_query_param("?nn=1", "n"), None);
    assert_eq!(wasm_query_param("", "n"), None);
    assert_eq!(wasm_query_param("?", ""), text(""));
}

#[test]
fn names_begin_and_persist() {
    assert_eq!(initial_name(Target::Native, None, text("x")), "survivor");
    assert_eq!(initial_name(Target::Native, text(" "), None), " ");
    assert_eq!(initial_name(Target::Wasm, text("env"), text("Ada")), "Ada");
    assert_eq!(initial_name(Target::Wasm, None, text("  ")), "survivor");
    assert_eq!(initial_name(Target::Wasm, None, None), "survivor");
    assert_eq!(persist_name(Target::Native, "Ada"), None);
    assert_eq!(persist_name(Target::Wasm, "  Ada "), text("Ada"));
    assert_eq!(persist_name(Target::Wasm, "   "), None);
    let stored = persist_name(Target::Wasm, " Ada ");
    assert_eq!(initial_name(Target::Wasm, None, stored), "Ada");
}

#[test]
fn touch_mode_setting_wins() {
    assert_eq!(touch_override(Target::Native, &text("1")), Some(true));
    assert_eq!(touch_override(Target::Wasm, &text("1")), Some(true));
    assert_eq!(touch_override(Target::Native, &text("0")), Some(false));
    assert_eq!(touch_override(Target::Wasm, &text("0")), Some(false));
    for off in ["false", "FALSE"] {
        assert_eq!(touch_override(Target::Native, &text(off)), Some(false));
        assert_eq!(touch_override(Target::Wasm, &text(off)), None);
    }
    for other in ["true", "TRUE", "False", "yes", "", " 1"] {
        assert_eq!(touch_override(Target::Native, &text(other)), None);
        assert_eq!(touch_override(Target::Wasm, &text(other)), None);
        assert!(!is_touch_mode(Target::Native, &text(other), 5));
        assert!(is_touch_mode(Target::Wasm, &text(other), 5));
    }
    assert!(is_touch_mode(Target::Native, &text("1"), 0));
    assert!(!is_touch_mode(Target::Native, &None, 5));
    assert!(is_touch_mode(Target::Wasm, &None, 5));
    assert!(!is_touch_mode(Target::Wasm, &text("0"), 5));
    assert!(!is_touch_mode(Target::Wasm, &None, 0));
}

#[test]
fn body_class_and_overlays() {
    assert!(apply_touch_body_class(Target::Native, true).is_none());
    let class = apply_touch_body_class(Target::Wasm, true).unwrap();
    assert_eq!((class.class, class.add), ("touch", true));
    assert!(set_touch_text_overlays(Target::Native, true, true).is_none());
    let both = set_touch_text_overlays(Target::Wasm, true, false).unwrap();
    assert_eq!((both.name.id, both.name.display), ("zz-name-input", "block"));
    assert_eq!((both.code.id, both.code.display), ("zz-code-input", "none"));
    assert_eq!((both.shell.id, both.shell.display), ("zz-touch-fields", "flex"));
    assert!(both.hide_start.is_none());
    let none = set_touch_text_overlays(Target::Wasm, false, false).unwrap();
    assert_eq!(none.shell.display, "none");
    assert_eq!(none.hide_start.unwrap().function, "hideAll");
}

#[test]
fn page_calls() {
    assert!(boot_signal_engine_ready(Target::Native).is_none());
    let ready = boot_signal_engine_ready(Target::Wasm).unwrap();
    assert_eq!((ready.object, ready.function, ready.arg), ("__zzBoot", "setEngineReady", None));
    let off = boot_dismiss_start(Target::Wasm, true).unwrap();
    assert_eq!((off.object, off.function, off.arg), ("__zzBoot", "handoff", Some(true)));
    assert_eq!(boot_log_phases(Target::Wasm).unwrap().function, "logPhases");
    assert_eq!(unlock_audio(Target::Wasm).unwrap().function, "__zzUnlockAudio");
    assert!(unlock_audio(Target::Native).is_none());
    assert_eq!(refocus_canvas(Target::Wasm).unwrap().function, "__zzFocusCanvas");
    assert_eq!(voice_request_mic().function, "requestMic");
    assert_eq!(voice_set_tx_enabled(false).arg, Some(false));
    assert_eq!(boot_record_phase("setup", 1207), "[zz boot] setup=1207ms");
    assert_eq!(boot_record_phase("x", 0), "[zz boot] x=0ms");
}

#[test]
fn page_fields() {
    let hidden = || Some(PageField { value: "Ada".to_string(), display: text("none") });
    let shown = || Some(PageField { value: "Ada".to_string(), display: text("block") });
    assert_eq!(boot_html_name(Target::Wasm, hidden()), text("Ada"));
    assert_eq!(boot_html_code(Target::Native, hidden()), None);
    assert_eq!(html_name_value(Target::Wasm, hidden()), None);
    assert_eq!(html_name_value(Target::Wasm, shown()), text("Ada"));
    assert_eq!(html_code_value(Target::Wasm, None), None);
    let write = set_html_name_value(Target::Wasm, "Bo").unwrap();
    assert_eq!((write.id, write.value.as_str()), ("zz-name-input", "Bo"));
    assert_eq!(set_html_code_value(Target::Wasm, "XY").unwrap().id, "zz-code-input");
    assert!(set_html_code_value(Target::Native, "XY").is_none());
}

#[test]
fn boot_actions() {
    let reply = |kind: &str, code: Option<String>| Some(BootReply { kind: text(kind), code });
    assert_eq!(boot_take_action(Target::Wasm, reply("host", None)), Some(QueuedBootAction::Host));
    assert_eq!(
        boot_peek_action(Target::Wasm, reply("join", text(" ab "))),
        Some(QueuedBootAction::Join("AB".to_string()))
    );
    assert_eq!(boot_take_action(Target::Wasm, reply("join", None)), None);
    assert_eq!(boot_take_action(Target::Wasm, reply("dance", None)), None);
    assert_eq!(boot_take_action(Target::Native, reply("host", None)), None);
    assert_eq!(boot_action_function(true), "takeAction");
    assert_eq!(boot_action_function(false), "peekAction");
}

#[test]
fn page_flags_and_frames() {
    assert!(js_space_pressed(Target::Wasm, Some(true)));
    assert!(!js_space_pressed(Target::Native, Some(true)));
    assert!(!js_space_pressed(Target::Wasm, None));
    assert!(voice_mic_ready(Some(true)) && !voice_mic_ready(None));
    assert!(voice_mic_denied(Some(true)) && !voice_mic_denied(Some(false)));
    let frames = vec![
        PageFrame::Bytes(vec![1, 2, 3]),
        PageFrame::Bytes(vec![]),
        PageFrame::Samples(vec![-2, 258]),
        PageFrame::Samples(vec![]),
        PageFrame::Other,
    ];
    assert_eq!(voice_drain_pcm_frames(frames), vec![vec![1, 2, 3], vec![254, 255, 2, 1]]);
    assert!(same_text("a", "a") && !same_text("a", "A"));
}
