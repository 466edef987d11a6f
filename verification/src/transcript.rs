//! Inbound result demultiplexing: a text message from the transcription
//! service is a JSON document; the transcript string sits at a fixed nested
//! path. Whether an event is raised is decided here, over the extracted
//! field alone.

use crate::text::is_blank;
use crate::text::str_is_blank;
use vstd::prelude::*;
use vstd::string::*;

verus! {

/// The transcript field of the JSON document `doc`, if `doc` parses and
/// the field is a string: the value at
/// `results.channels[0].alternatives[0].transcript`. A pure function of
/// the document text.
pub uninterp spec fn transcript_of(doc: Seq<char>) -> Option<Seq<char>>;

/// Relies on serde_json: `from_str` parses the text into a `Value` (or
/// fails), indexing a `Value` walks objects by key and arrays by position
/// yielding `Null` for anything absent, and `as_str` gives the string
/// content if and only if the value is a JSON string. The extracted field
/// is a function of the text alone.
#[verifier::external_body]
fn transcript_field(text: &str) -> (r: Option<String>)
    ensures
        r is Some <==> transcript_of(text@) is Some,
        r is Some ==> r->0@ == transcript_of(text@)->0,
{
    let doc: serde_json::Value = match serde_json::from_str(text) {
        Ok(v) => v,
        Err(_) => return None,
    };
    doc["results"]["channels"][0]["alternatives"][0]["transcript"].as_str().map(|s| s.to_owned())
}

/// What a text message from the live streaming session leads to: the
/// transcript event to raise, if any. A message that does not parse, has
/// no transcript field, or whose transcript trims to nothing is silently
/// ignored; otherwise the untrimmed transcript is the event payload.
pub fn live_transcript_event(text: &str) -> (r: Option<String>)
    ensures
        match r {
            Some(t) => {
                &&& transcript_of(text@) == Some(t@)
                &&& !is_blank(t@)
            },
            None => transcript_of(text@) is None || is_blank(transcript_of(text@)->0),
        },
{
    match transcript_field(text) {
        Some(t) => {
            if str_is_blank(t.as_str()) {
                None
            } else {
                Some(t)
            }
        },
        None => None,
    }
}

/// What a whole-file transcription response leads to. Here only the empty
/// string is suppressed (an absent field reads as empty); any other
/// transcript, blank or not, is reported.
pub fn file_transcript_event(text: &str) -> (r: Option<String>)
    ensures
        match r {
            Some(t) => {
                &&& transcript_of(text@) == Some(t@)
                &&& t@.len() > 0
            },
            None => transcript_of(text@) is None || transcript_of(text@)->0.len() == 0,
        },
{
    match transcript_field(text) {
        Some(t) => {
            if t.as_str().unicode_len() == 0 {
                None
            } else {
                Some(t)
            }
        },
        None => None,
    }
}

} // verus!
