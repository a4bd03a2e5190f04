use cc_switch::server_state::s3_sync_status_event;

#[test]
fn s3_status_event_carries_source_status_and_error() {
    let event = s3_sync_status_event("failed", Some("timeout"));
    assert_eq!(event.name, "s3-sync-status-updated");
    assert_eq!(event.payload.get("source").and_then(|v| v.as_str()), Some("auto"));
    assert_eq!(event.payload.get("status").and_then(|v| v.as_str()), Some("failed"));
    assert_eq!(event.payload.get("error").and_then(|v| v.as_str()), Some("timeout"));

    let ok = s3_sync_status_event("success", None);
    assert!(ok.payload.get("error").is_none());
}
