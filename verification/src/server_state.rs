//! The web server's state: the event that reports the status of an automatic S3
//! sync to the clients.

use vstd::prelude::*;
use vstd::string::*;
use crate::json::{insert_member, members_view, lemma_object_view, set_member, JsonValue, JsonView};

verus! {

/// An event sent to the clients of the web server.
#[derive(Debug)]
pub struct ServerEvent {
    pub name: String,
    pub payload: JsonValue,
}

/// The payload of an automatic S3 sync status event: source "auto", the status, and
/// the error message when there is one.
pub open spec fn s3_sync_status_payload(status: Seq<char>, error: Option<Seq<char>>) -> JsonView {
    let base = insert_member(
        insert_member(Seq::empty(), "source"@, JsonView::Str("auto"@)),
        "status"@,
        JsonView::Str(status),
    );
    JsonView::Object(match error {
        Some(e) => insert_member(base, "error"@, JsonView::Str(e)),
        None => base,
    })
}

/// The event `s3-sync-status-updated` for a status reported by the automatic S3 sync.
pub fn s3_sync_status_event(status: &str, error: Option<&str>) -> (event: ServerEvent)
    ensures
        event.name@ == "s3-sync-status-updated"@,
        event.payload.view() == s3_sync_status_payload(status@, match error { Some(e) => Some(e@), None => None }),
{
    let mut members: Vec<(String, JsonValue)> = Vec::new();
    assert(members_view(members@) =~= Seq::<(Seq<char>, JsonView)>::empty());
    set_member(&mut members, String::from_str("source"), JsonValue::String(String::from_str("auto")));
    set_member(&mut members, String::from_str("status"), JsonValue::String(String::from_str(status)));
    if let Some(message) = error {
        set_member(&mut members, String::from_str("error"), JsonValue::String(String::from_str(message)));
    }
    proof { lemma_object_view(members); }
    ServerEvent { name: String::from_str("s3-sync-status-updated"), payload: JsonValue::Object(members) }
}

} // verus!
