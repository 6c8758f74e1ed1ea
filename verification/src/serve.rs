//! The serving decisions: what the two HTTP routes answer. The handlers
//! themselves only read the artifact files and pass what they got (or
//! that the read failed) to these functions, so the degrade-don't-fail
//! rules are proved here: a missing document gives the placeholder body,
//! and a missing or malformed status record gives the zero-timestamp
//! record.

use vstd::prelude::*;
use crate::status::{StatusRecord, status_value, parse_status};

verus! {

/// The placeholder body served when the rendered document cannot be read.
pub open spec fn fallback_document() -> Seq<char> {
    "Error loading file"@
}

/// What the document route answers: the artifact's text as read, or the
/// placeholder when the read failed.
pub fn document_response(content: Option<String>) -> (r: String)
    ensures
        content matches Some(c) ==> r@ == c@,
        content is None ==> r@ == fallback_document(),
{
    match content {
        Some(c) => c,
        None => "Error loading file".to_owned(),
    }
}

/// What the status route answers: the record the artifact's text stands
/// for, or the zero-timestamp record when the read failed or the text is
/// not a status record.
pub fn status_response(content: Option<&str>) -> (r: StatusRecord)
    ensures
        match content {
            Some(c) => match status_value(c@) {
                Some(t) => r.timestamp == t,
                None => r.timestamp == 0,
            },
            None => r.timestamp == 0,
        },
{
    match content {
        Some(c) => match parse_status(c) {
            Some(t) => StatusRecord { timestamp: t },
            None => StatusRecord { timestamp: 0 },
        },
        None => StatusRecord { timestamp: 0 },
    }
}

} // verus!
