use heard_it::transcript::file_transcript_event;
use heard_it::transcript::live_transcript_event;

fn doc(transcript: &str) -> String {
    format!(
        r#"{{"results":{{"channels":[{{"alternatives":[{{"transcript":"{}"}}]}}]}}}}"#,
        transcript
    )
}

#[test]
fn transcript_is_extracted_from_the_nested_path() {
    let text = doc("hello world");
    assert_eq!(live_transcript_event(&text), Some("hello world".to_string()));
}

#[test]
fn blank_transcripts_are_ignored_live() {
    assert_eq!(live_transcript_event(&doc("")), None);
    assert_eq!(live_transcript_event(&doc(" ")), None);
    assert_eq!(live_transcript_event(&doc("   ")), None);
}

#[test]
fn untrimmed_payload_is_kept() {
    assert_eq!(live_transcript_event(&doc(" hi ")), Some(" hi ".to_string()));
}

#[test]
fn malformed_messages_are_silently_skipped() {
    assert_eq!(live_transcript_event("not json at all"), None);
    assert_eq!(live_transcript_event("{}"), None);
    assert_eq!(live_transcript_event(r#"{"results":{}}"#), None);
    assert_eq!(live_transcript_event(r#"{"results":{"channels":[]}}"#), None);
    // a transcript that is not a string is no transcript
    assert_eq!(
        live_transcript_event(
            r#"{"results":{"channels":[{"alternatives":[{"transcript":7}]}]}}"#
        ),
        None
    );
}

#[test]
fn file_response_suppresses_only_the_empty_string() {
    assert_eq!(file_transcript_event(&doc("")), None);
    assert_eq!(file_transcript_event(&doc(" ")), Some(" ".to_string()));
    assert_eq!(file_transcript_event(&doc("done")), Some("done".to_string()));
    assert_eq!(file_transcript_event("broken {"), None);
}
