use cc_switch::cli::tui::runtime_actions::updates::{
    check, check_send_failed, confirm, confirm_send_failed, CheckFailure, LoadingKind, Overlay,
    RuntimeActionContext, ToastKind, ToastText, UpdateCheckTracker, UpdateReq,
};

fn context(worker: bool) -> RuntimeActionContext {
    RuntimeActionContext {
        overlay: Overlay::Closed,
        toasts: Vec::new(),
        update_check: UpdateCheckTracker::new(),
        update_worker_available: worker,
    }
}

#[test]
fn check_starts_a_request_and_shows_loading() {
    let mut ctx = context(true);
    assert_eq!(check(&mut ctx), Some(UpdateReq::Check { request_id: 0 }));
    assert_eq!(ctx.overlay, Overlay::Loading { kind: LoadingKind::UpdateCheck });
    assert_eq!(ctx.update_check.in_flight, Some(0));
    assert_eq!(check(&mut ctx), Some(UpdateReq::Check { request_id: 1 }));
}

#[test]
fn check_does_nothing_while_downloading() {
    let mut ctx = context(true);
    ctx.overlay = Overlay::UpdateDownloading { downloaded: 10, total: Some(100) };
    assert_eq!(check(&mut ctx), None);
    assert_eq!(ctx.overlay, Overlay::UpdateDownloading { downloaded: 10, total: Some(100) });
    assert!(ctx.toasts.is_empty());
}

#[test]
fn check_without_worker_warns() {
    let mut ctx = context(false);
    assert_eq!(check(&mut ctx), None);
    assert_eq!(ctx.toasts.len(), 1);
    assert_eq!(ctx.toasts[0].kind, ToastKind::Warning);
    assert!(matches!(ctx.toasts[0].text, ToastText::UpdateCheckFailed(CheckFailure::WorkerUnavailable)));
    assert_eq!(ctx.overlay, Overlay::Closed);
}

#[test]
fn failed_check_send_cancels_and_reports() {
    let mut ctx = context(true);
    check(&mut ctx);
    check_send_failed(&mut ctx, "channel closed".to_string());
    assert_eq!(ctx.update_check.in_flight, None);
    assert_eq!(ctx.overlay, Overlay::Closed);
    assert_eq!(ctx.toasts[0].kind, ToastKind::Error);
    match &ctx.toasts[0].text {
        ToastText::UpdateCheckFailed(CheckFailure::Send(e)) => assert_eq!(e, "channel closed"),
        other => panic!("unexpected {other:?}"),
    }
}

#[test]
fn confirm_shows_download_and_reports_send_failure() {
    let mut idle = context(false);
    assert_eq!(confirm(&mut idle), None);
    assert_eq!(idle.overlay, Overlay::Closed);

    let mut ctx = context(true);
    assert_eq!(confirm(&mut ctx), Some(UpdateReq::Download));
    assert_eq!(ctx.overlay, Overlay::UpdateDownloading { downloaded: 0, total: None });
    confirm_send_failed(&mut ctx, "closed".to_string());
    assert_eq!(ctx.overlay, Overlay::Closed);
    assert!(matches!(&ctx.toasts[0].text, ToastText::UpdateBackgroundFailed(e) if e == "closed"));
}
