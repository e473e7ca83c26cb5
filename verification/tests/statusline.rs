use agent_witness::json::Json;
use agent_witness::outside::parse;
use agent_witness::statusline::{
    compose, decode_wrap, events_file, original_to_run, plan_statusline, witness_segment,
    wrapped_command, StatuslineOutcome, SEG_NOT_RECORDING, SEG_RECORDING, SEG_SEPARATOR,
    STATUSLINE_COMMAND, WRAP_FLAG,
};
use base64::engine::general_purpose::URL_SAFE_NO_PAD;
use base64::Engine;

fn json(text: &str) -> Json {
    parse(text).expect("valid json")
}

fn payload_of(command: &str) -> String {
    command
        .strip_prefix(STATUSLINE_COMMAND)
        .unwrap()
        .trim_start()
        .strip_prefix(WRAP_FLAG)
        .unwrap()
        .trim()
        .to_string()
}

#[test]
fn wrap_envelope_round_trips() {
    let cmd = wrapped_command("~/bin/statusline.sh --fancy 'a b'");
    assert_eq!(
        decode_wrap(&payload_of(&cmd)).as_deref(),
        Some("~/bin/statusline.sh --fancy 'a b'")
    );
}

#[test]
fn decode_rejects_garbage_and_foreign_envelopes() {
    assert!(decode_wrap("not base64!!!").is_none());
    assert!(decode_wrap(&URL_SAFE_NO_PAD.encode(b"[1,2,3]")).is_none());
    let foreign =
        br#"{"original_command":"x","installed_by":"someone-else","version":1}"#;
    assert!(decode_wrap(&URL_SAFE_NO_PAD.encode(foreign)).is_none());
}

#[test]
fn the_envelope_is_written_in_one_order() {
    let bytes = URL_SAFE_NO_PAD.decode(payload_of(&wrapped_command("x"))).unwrap();
    assert_eq!(
        String::from_utf8(bytes).unwrap(),
        r#"{"original_command":"x","installed_by":"agent-witness","version":1}"#
    );
}

#[test]
fn install_into_empty_settings_sets_bare_command_and_is_idempotent() {
    let plan = plan_statusline(None, false).unwrap();
    assert_eq!(plan.outcome, StatuslineOutcome::Installed);
    let written = plan.text.unwrap();
    let root = json(&written);
    let line = root.get("statusLine").unwrap();
    assert_eq!(line.str_at("command"), Some(STATUSLINE_COMMAND));
    assert_eq!(line.str_at("type"), Some("command"));

    let again = plan_statusline(Some(&written), false).unwrap();
    assert_eq!(again.outcome, StatuslineOutcome::AlreadyInstalled);
    assert!(again.text.is_none());
}

#[test]
fn foreign_command_is_wrapped_and_restored_exactly() {
    let original = "~/bin/my-status.sh --theme 'solar dark'";
    let settings = format!(
        r#"{{"model":"opus","statusLine":{{"type":"command","command":"{original}","padding":0}}}}"#
    );

    let plan = plan_statusline(Some(&settings), false).unwrap();
    assert_eq!(plan.outcome, StatuslineOutcome::Wrapped);
    let wrapped = plan.text.unwrap();
    let root = json(&wrapped);
    let line = root.get("statusLine").unwrap();
    assert!(line.str_at("command").unwrap().starts_with(STATUSLINE_COMMAND));
    // Other statusLine fields and unrelated settings survive.
    assert_eq!(line.get("padding"), Some(&Json::Uint(0)));
    assert_eq!(root.str_at("model"), Some("opus"));

    // Idempotent: a second install run recognizes its own wrapper.
    let again = plan_statusline(Some(&wrapped), false).unwrap();
    assert_eq!(again.outcome, StatuslineOutcome::AlreadyInstalled);

    // Remove restores the original exactly, keeping the extra fields.
    let removed = plan_statusline(Some(&wrapped), true).unwrap();
    assert_eq!(removed.outcome, StatuslineOutcome::Restored);
    assert_eq!(json(&removed.text.unwrap()), json(&settings));
}

#[test]
fn remove_of_bare_install_drops_the_key() {
    let installed = plan_statusline(None, false).unwrap().text.unwrap();
    let plan = plan_statusline(Some(&installed), true).unwrap();
    assert_eq!(plan.outcome, StatuslineOutcome::Removed);
    assert!(json(&plan.text.unwrap()).get("statusLine").is_none());
}

#[test]
fn remove_leaves_foreign_statusline_untouched() {
    let settings = r#"{"statusLine":{"type":"command","command":"their-status"}}"#;
    let plan = plan_statusline(Some(settings), true).unwrap();
    assert_eq!(plan.outcome, StatuslineOutcome::NothingToRemove);
    assert!(plan.text.is_none());
}

#[test]
fn unrecognized_shapes_are_never_touched() {
    // A non-command type and an ours-shaped command with a broken payload.
    for weird in [
        r#"{"statusLine":{"type":"plugin","name":"x"}}"#.to_string(),
        format!(
            r#"{{"statusLine":{{"type":"command","command":"{STATUSLINE_COMMAND} {WRAP_FLAG} broken!!payload"}}}}"#
        ),
    ] {
        for remove in [false, true] {
            let plan = plan_statusline(Some(&weird), remove).unwrap();
            assert_eq!(plan.outcome, StatuslineOutcome::SkippedUnrecognized);
            assert!(plan.text.is_none());
        }
    }
}

#[test]
fn witness_segment_counts_events_and_flags_silence() {
    let file = events_file(r#"{"session_id":"sess-1"}"#, "/root").unwrap();
    assert_eq!(file, "/root/sess-1/events.jsonl");
    let seg = witness_segment(Some(&b"{}\n{}\n{}\n".to_vec()));
    assert_eq!(seg, format!("{SEG_RECORDING} 3ev"));
    // An unknown session has no file to count.
    assert_eq!(witness_segment(None), SEG_NOT_RECORDING);
    // Malformed stdin and traversal ids name no file.
    for stdin in [
        "not json",
        r#"{"session_id":"../escape"}"#,
        r#"{"session_id":""}"#,
    ] {
        assert_eq!(events_file(stdin, "/root"), None, "for {stdin}");
    }
}

#[test]
fn the_wrapped_output_comes_before_ours() {
    let ours = witness_segment(Some(&b"{}\n".to_vec()));
    assert_eq!(
        compose(Some("THEIRS\nextra"), &ours),
        format!("THEIRS{SEG_SEPARATOR}{SEG_RECORDING} 1ev")
    );
    assert_eq!(compose(None, &ours), format!("{SEG_RECORDING} 1ev"));
    assert_eq!(compose(Some("  \n"), SEG_NOT_RECORDING), SEG_NOT_RECORDING);
}

#[test]
fn only_a_foreign_original_is_run() {
    let theirs = payload_of(&wrapped_command("exit 3"));
    assert_eq!(original_to_run(Some(&theirs)).as_deref(), Some("exit 3"));
    assert_eq!(original_to_run(Some("garbage")), None);
    assert_eq!(original_to_run(None), None);
    let nested = payload_of(&wrapped_command("agent-witness statusline --wrap-v1 xyz"));
    assert_eq!(original_to_run(Some(&nested)), None);
}

#[test]
fn an_envelope_is_read_by_its_fields() {
    let read = |text: &str| decode_wrap(&URL_SAFE_NO_PAD.encode(text));
    let deep = "[".repeat(500) + &"]".repeat(500);
    for text in [
        r#"{"original_command":"x","installed_by":"agent-witness","version":1}"#.to_string(),
        r#"["x","agent-witness",1]"#.to_string(),
        format!(
            r#"{{"version":1,"a":{deep},"a":1e999,"original_command":"x","installed_by":"agent-witness"}}"#
        ),
    ] {
        assert_eq!(read(&text).as_deref(), Some("x"), "{text}");
    }
    for text in [
        r#"{"original_command":"y","original_command":"x","installed_by":"agent-witness","version":1}"#,
        r#"{"original_command":"x","installed_by":"agent-witness","version":1,"version":1}"#,
        r#"{"original_command":"x","installed_by":"agent-witness"}"#,
        r#"{"original_command":"x","installed_by":"agent-witness","version":2}"#,
        r#"{"original_command":"x","installed_by":"agent-witness","version":1.0}"#,
        r#"{"original_command":1,"installed_by":"agent-witness","version":1}"#,
        r#"["x","agent-witness",1,2]"#,
    ] {
        assert_eq!(read(text), None, "{text}");
    }
    // What is skipped need not be UTF-8; what is read must be.
    let mut bytes = br#"{"a":"#.to_vec();
    bytes.extend([b'"', 0xff, b'"']);
    bytes.extend(br#","original_command":"x","installed_by":"agent-witness","version":1}"#);
    assert_eq!(decode_wrap(&URL_SAFE_NO_PAD.encode(&bytes)).as_deref(), Some("x"));
    let bytes = [&b"[\""[..], &[0xff], &br#"","agent-witness",1]"#[..]].concat();
    assert_eq!(decode_wrap(&URL_SAFE_NO_PAD.encode(&bytes)), None);
}
