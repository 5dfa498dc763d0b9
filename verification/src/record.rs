//! Records as delivered by the broker, and the payload-decoding rule.
//!
//! A record is immutable once delivered. Its payload and key are optional
//! byte strings; a payload that fails to decode as text is shown as an empty
//! sentinel and reported, never dropped silently and never a crash.

use vstd::prelude::*;

verus! {

/// One header of a record: an ordered name/value pair.
pub struct RecordHeader {
    pub name: String,
    pub value: Vec<u8>,
}

/// A record pulled from one partition of a topic. Offsets grow
/// monotonically within a partition; the broker, not this client,
/// guarantees that order.
pub struct Record {
    pub topic: String,
    pub partition: u32,
    pub offset: u64,
    pub key: Option<Vec<u8>>,
    pub payload: Option<Vec<u8>>,
    pub headers: Vec<RecordHeader>,
}

/// The text that a byte string decodes to, when it is well-formed UTF-8.
pub uninterp spec fn utf8_text(bytes: Seq<u8>) -> Option<Seq<char>>;

/// Relies on core::str::from_utf8: returns the decoded text exactly when the
/// bytes are well-formed UTF-8, and the result depends on the bytes alone.
/// An empty byte string is well-formed and decodes to the empty text.
#[verifier::external_body]
fn decode_utf8(bytes: &Vec<u8>) -> (decoded: Option<String>)
    ensures
        decoded matches Some(text) ==> utf8_text(bytes@) == Some(text@),
        decoded is None ==> utf8_text(bytes@) is None,
        bytes@.len() == 0 ==> decoded is Some,
        bytes@.len() == 0 ==> (decoded matches Some(text) ==> text@ == Seq::<char>::empty()),
{
    match core::str::from_utf8(bytes.as_slice()) {
        Ok(text) => Some(text.to_string()),
        Err(_) => None,
    }
}

/// The text shown for a record's payload: the decoded payload when it is
/// present and well-formed, and an empty sentinel otherwise. The second
/// result reports a malformed payload, which the caller logs as a
/// recoverable decode failure; the record is still treated as processed.
pub fn payload_text(payload: &Option<Vec<u8>>) -> (shown: (String, bool))
    ensures
        payload is None ==> shown.0@ == Seq::<char>::empty() && !shown.1,
        payload matches Some(bytes) ==> (utf8_text(bytes@) matches Some(text) ==> shown.0@ == text
            && !shown.1),
        payload matches Some(bytes) ==> (utf8_text(bytes@) is None ==> shown.0@ == Seq::<
            char,
        >::empty() && shown.1),
{
    match payload {
        None => (String::new(), false),
        Some(bytes) => match decode_utf8(bytes) {
            Some(text) => (text, false),
            None => (String::new(), true),
        },
    }
}

} // verus!
