use agent_witness::event::Attribution;
use agent_witness::transcript::ADAPTER_VERSION;
use agent_witness::usage::{aggregate_transcript_usage, UsageSourceStatus};

/// One assistant line with a text block, id `msg`, model `m`, and usage.
fn text_line(id: &str, model: &str, usage: &str) -> String {
    format!(
        r#"{{"type":"assistant","message":{{"id":"{id}","model":"{model}","content":[{{"type":"text","text":"hi"}}],"usage":{usage}}}}}"#
    )
}

const FULL_USAGE: &str = r#"{"input_tokens":10,"output_tokens":20,"cache_creation_input_tokens":30,"cache_read_input_tokens":40,"iterations":[{"input_tokens":999,"output_tokens":999}]}"#;

#[test]
fn empty_transcript_reports_no_usage_parsed() {
    let usage = aggregate_transcript_usage("", "s");
    assert_eq!(usage.source_status, UsageSourceStatus::NoUsageParsed);
    assert_eq!(usage.messages_counted, 0);
    assert!(usage.per_model.is_empty());
    assert_eq!(usage.attribution, Attribution::Observed);
    assert_eq!(usage.source, "transcript");
    assert_eq!(usage.adapter_version, ADAPTER_VERSION);
}

#[test]
fn transcript_with_only_non_assistant_lines_reports_no_usage_parsed() {
    let content = [
        r#"{"type":"user","message":{"content":"hi"}}"#,
        "\n",
        r#"{"type":"queue-operation","operation":"enqueue"}"#,
    ]
    .concat();
    let usage = aggregate_transcript_usage(&content, "s");
    assert_eq!(usage.source_status, UsageSourceStatus::NoUsageParsed);
    assert_eq!(usage.messages_counted, 0);
    assert_eq!(usage.assistant_lines_missing_message_id, 0);
}

#[test]
fn single_message_split_across_lines_is_counted_once() {
    // One response (msg_0001) split across 3 content-block lines, each
    // repeating the identical usage — the dedup landmine.
    let line = text_line("msg_0001", "fable-5", FULL_USAGE);
    let content = format!("{line}\n{line}\n{line}");

    let usage = aggregate_transcript_usage(&content, "s");

    assert_eq!(usage.messages_counted, 1);
    assert_eq!(usage.duplicate_usage_lines_deduped, 2);
    assert_eq!(usage.per_model.len(), 1);
    let m = &usage.per_model[0];
    assert_eq!(m.model, "fable-5");
    assert_eq!(m.messages, 1);
    // Counted exactly once, not tripled.
    assert_eq!(m.input_tokens, 10);
    assert_eq!(m.output_tokens, 20);
    assert_eq!(m.cache_creation_input_tokens, 30);
    assert_eq!(m.cache_read_input_tokens, 40);
}

#[test]
fn top_level_usage_is_summed_not_iterations() {
    // FULL_USAGE has iterations with 999s; only the top-level 10/20 count.
    let usage = aggregate_transcript_usage(&text_line("a", "m", FULL_USAGE), "s");
    assert_eq!(usage.per_model[0].input_tokens, 10);
    assert_eq!(usage.per_model[0].output_tokens, 20);
}

#[test]
fn multiple_models_are_summed_separately_and_sorted() {
    let content = format!(
        "{}\n{}\n{}",
        text_line(
            "m1",
            "zeta-model",
            r#"{"input_tokens":1,"output_tokens":2}"#
        ),
        text_line(
            "m2",
            "alpha-model",
            r#"{"input_tokens":3,"output_tokens":4}"#
        ),
        text_line(
            "m3",
            "alpha-model",
            r#"{"input_tokens":5,"output_tokens":6}"#
        ),
    );

    let usage = aggregate_transcript_usage(&content, "s");

    assert_eq!(usage.messages_counted, 3);
    // Sorted by model name: alpha before zeta.
    assert_eq!(usage.per_model.len(), 2);
    assert_eq!(usage.per_model[0].model, "alpha-model");
    assert_eq!(usage.per_model[0].messages, 2);
    assert_eq!(usage.per_model[0].input_tokens, 8);
    assert_eq!(usage.per_model[0].output_tokens, 10);
    assert_eq!(usage.per_model[1].model, "zeta-model");
    assert_eq!(usage.per_model[1].messages, 1);
    assert_eq!(usage.per_model[1].input_tokens, 1);
}

#[test]
fn assistant_message_without_usage_counts_as_missing() {
    let line = r#"{"type":"assistant","message":{"id":"a","model":"m","content":[{"type":"text","text":"hi"}]}}"#;
    let usage = aggregate_transcript_usage(line, "s");
    assert_eq!(usage.messages_counted, 0);
    assert_eq!(usage.messages_missing_usage, 1);
    assert_eq!(usage.source_status, UsageSourceStatus::NoUsageParsed);
    assert!(usage.per_model.is_empty());
}

#[test]
fn malformed_non_numeric_token_field_counts_as_missing() {
    let line = text_line("a", "m", r#"{"input_tokens":"lots","output_tokens":20}"#);
    let usage = aggregate_transcript_usage(&line, "s");
    assert_eq!(usage.messages_counted, 0);
    assert_eq!(usage.messages_missing_usage, 1);
    assert!(usage.per_model.is_empty());
}

#[test]
fn empty_usage_object_counts_as_missing() {
    let line = text_line("a", "m", r#"{}"#);
    let usage = aggregate_transcript_usage(&line, "s");
    assert_eq!(usage.messages_missing_usage, 1);
    assert_eq!(usage.messages_counted, 0);
}

#[test]
fn assistant_line_without_message_id_is_not_summed() {
    let line = r#"{"type":"assistant","message":{"model":"m","content":[{"type":"text","text":"hi"}],"usage":{"input_tokens":10,"output_tokens":20}}}"#;
    let usage = aggregate_transcript_usage(line, "s");
    assert_eq!(usage.assistant_lines_missing_message_id, 1);
    assert_eq!(usage.messages_counted, 0);
    assert_eq!(usage.messages_missing_usage, 0);
    assert!(usage.per_model.is_empty());
}

#[test]
fn assistant_line_without_message_object_counts_as_missing_id() {
    let line = r#"{"type":"assistant","uuid":"x"}"#;
    let usage = aggregate_transcript_usage(line, "s");
    assert_eq!(usage.assistant_lines_missing_message_id, 1);
    assert_eq!(usage.messages_counted, 0);
}

#[test]
fn usage_without_model_counts_as_missing_not_fabricated() {
    // Usage present but no model to attribute it to: we refuse to invent a
    // per-model bucket, so it lands in messages_missing_usage.
    let line = r#"{"type":"assistant","message":{"id":"a","content":[{"type":"text","text":"hi"}],"usage":{"input_tokens":10,"output_tokens":20}}}"#;
    let usage = aggregate_transcript_usage(line, "s");
    assert_eq!(usage.messages_missing_usage, 1);
    assert_eq!(usage.messages_counted, 0);
    assert!(usage.per_model.is_empty());
}

#[test]
fn unparseable_lines_are_ignored_for_usage() {
    let content = [
        "{ broken json",
        "\n",
        r#"{"type":"assistant","message":{"id":"a","model":"m","content":[],"usage":{"input_tokens":10,"output_tokens":20}}}"#,
    ]
    .concat();
    let usage = aggregate_transcript_usage(&content, "s");
    // The broken line does not error; the good message is still counted.
    assert_eq!(usage.messages_counted, 1);
    assert_eq!(usage.per_model[0].input_tokens, 10);
}

#[test]
fn a_counted_message_makes_the_source_okay() {
    let usage = aggregate_transcript_usage(&text_line("a", "m", FULL_USAGE), "sess");
    assert_eq!(usage.source_status, UsageSourceStatus::Okay);
    assert_eq!(usage.session, "sess");
    assert_eq!(usage.v, 1);
}

#[test]
fn a_line_repeated_at_the_end_is_only_a_duplicate() {
    let first = text_line("msg_0001", "fable-5", FULL_USAGE);
    let second = text_line("msg_0002", "opus-9", r#"{"input_tokens":1}"#);
    for content in [
        format!("{first}\n{second}"),
        format!("{first}\r\n{second}\n"),
        format!("{first}\n\n{second}\nnot json"),
        format!("{first}\n{second}\r"),
    ] {
        let before = aggregate_transcript_usage(&content, "s");
        assert_eq!(before.messages_counted, 2);
        let after = aggregate_transcript_usage(&format!("{content}\n{first}"), "s");
        assert_eq!(after.duplicate_usage_lines_deduped, 1);
        let mut expected = before;
        expected.duplicate_usage_lines_deduped = 1;
        assert_eq!(after, expected);
    }
}

#[test]
fn a_line_repeated_between_others_is_only_a_duplicate() {
    let first = text_line("msg_0001", "fable-5", FULL_USAGE);
    let second = text_line("msg_0002", "opus-9", r#"{"input_tokens":1}"#);
    let third = text_line("msg_0003", "fable-5", FULL_USAGE);
    let mut expected = aggregate_transcript_usage(&format!("{first}\n{second}\n{third}"), "s");
    assert_eq!(expected.duplicate_usage_lines_deduped, 0);
    expected.duplicate_usage_lines_deduped = 1;
    let repeated = format!("{first}\n{second}\n{first}\n{third}");
    assert_eq!(aggregate_transcript_usage(&repeated, "s"), expected);
}
