//! The TUI's update actions: checking for a new version and confirming its download.
//! Each action decides the next UI state and the request to send to the update
//! worker; when sending fails, the matching `*_send_failed` function decides what the
//! UI shows instead.

use vstd::prelude::*;

verus! {

/// What a loading overlay waits for.
#[derive(Debug, Clone, Copy, PartialEq, Eq, Structural)]
pub enum LoadingKind {
    UpdateCheck,
}

/// The overlay drawn over the TUI.
#[derive(Debug, Clone, Copy, PartialEq, Eq, Structural)]
pub enum Overlay {
    /// No overlay.
    Closed,
    Loading { kind: LoadingKind },
    UpdateDownloading { downloaded: u64, total: Option<u64> },
    /// Any other overlay, which the update actions do not read.
    Other,
}

/// The severity of a toast.
#[derive(Debug, Clone, Copy, PartialEq, Eq, Structural)]
pub enum ToastKind {
    Info,
    Success,
    Warning,
    Error,
}

/// Why an update check failed.
#[derive(Debug)]
pub enum CheckFailure {
    /// There is no update worker to send the request to.
    WorkerUnavailable,
    /// Sending the request failed with this error.
    Send(String),
}

/// What a toast says.
#[derive(Debug)]
pub enum ToastText {
    UpdateCheckFailed(CheckFailure),
    UpdateBackgroundFailed(String),
}

/// A toast message.
#[derive(Debug)]
pub struct Toast {
    pub text: ToastText,
    pub kind: ToastKind,
}

/// A request to the update worker.
#[derive(Debug, Clone, Copy, PartialEq, Eq, Structural)]
pub enum UpdateReq {
    Check { request_id: u64 },
    Download,
}

/// The update check in flight, if any, and the id the next one gets.
#[derive(Debug, Clone, Copy, PartialEq, Eq, Structural)]
pub struct UpdateCheckTracker {
    pub next_request_id: u64,
    pub in_flight: Option<u64>,
}

impl UpdateCheckTracker {
    /// No check started yet.
    pub fn new() -> (tracker: Self)
        ensures
            tracker.next_request_id == 0,
            tracker.in_flight is None,
    {
        UpdateCheckTracker { next_request_id: 0, in_flight: None }
    }

    /// Starts a check and gives its request id.
    pub fn start(&mut self) -> (request_id: u64)
        ensures
            request_id == old(self).next_request_id,
            final(self).in_flight == Some(request_id),
            final(self).next_request_id == old(self).next_request_id.wrapping_add(1),
    {
        let request_id = self.next_request_id;
        self.next_request_id = self.next_request_id.wrapping_add(1);
        self.in_flight = Some(request_id);
        request_id
    }

    /// Forgets the check in flight.
    pub fn cancel(&mut self)
        ensures
            final(self).in_flight is None,
            final(self).next_request_id == old(self).next_request_id,
    {
        self.in_flight = None;
    }
}

/// The part of the TUI's state that the update actions read and change.
#[derive(Debug)]
pub struct RuntimeActionContext {
    pub overlay: Overlay,
    pub toasts: Vec<Toast>,
    pub update_check: UpdateCheckTracker,
    /// Whether there is an update worker to send requests to.
    pub update_worker_available: bool,
}

/// Starts an update check. While a download is shown nothing happens; without an
/// update worker a warning toast says so; otherwise a check is started, the loading
/// overlay is shown and the check request is returned for sending.
pub fn check(ctx: &mut RuntimeActionContext) -> (request: Option<UpdateReq>)
    ensures
        old(ctx).overlay is UpdateDownloading ==> request is None && final(ctx).overlay == old(ctx).overlay
            && final(ctx).toasts@ == old(ctx).toasts@ && final(ctx).update_check == old(ctx).update_check,
        !(old(ctx).overlay is UpdateDownloading) && !old(ctx).update_worker_available ==> request is None
            && final(ctx).overlay == old(ctx).overlay && final(ctx).update_check == old(ctx).update_check
            && final(ctx).toasts@.len() == old(ctx).toasts@.len() + 1
            && final(ctx).toasts@.take(old(ctx).toasts@.len() as int) == old(ctx).toasts@
            && final(ctx).toasts@.last().kind == ToastKind::Warning
            && final(ctx).toasts@.last().text matches ToastText::UpdateCheckFailed(CheckFailure::WorkerUnavailable),
        !(old(ctx).overlay is UpdateDownloading) && old(ctx).update_worker_available ==>
            request == Some(UpdateReq::Check { request_id: old(ctx).update_check.next_request_id })
            && final(ctx).update_check.in_flight == Some(old(ctx).update_check.next_request_id)
            && final(ctx).update_check.next_request_id == old(ctx).update_check.next_request_id.wrapping_add(1)
            && final(ctx).overlay == (Overlay::Loading { kind: LoadingKind::UpdateCheck })
            && final(ctx).toasts@ == old(ctx).toasts@,
        final(ctx).update_worker_available == old(ctx).update_worker_available,
{
    if let Overlay::UpdateDownloading { .. } = ctx.overlay {
        return None;
    }
    if !ctx.update_worker_available {
        ctx.toasts.push(Toast {
            text: ToastText::UpdateCheckFailed(CheckFailure::WorkerUnavailable),
            kind: ToastKind::Warning,
        });
        proof { assert(ctx.toasts@.take(old(ctx).toasts@.len() as int) =~= old(ctx).toasts@); }
        return None;
    }
    let request_id = ctx.update_check.start();
    ctx.overlay = Overlay::Loading { kind: LoadingKind::UpdateCheck };
    Some(UpdateReq::Check { request_id })
}

/// After the check request could not be sent: the check is cancelled, the overlay
/// closed, and an error toast gives the reason.
pub fn check_send_failed(ctx: &mut RuntimeActionContext, error: String)
    ensures
        final(ctx).update_check.in_flight is None,
        final(ctx).update_check.next_request_id == old(ctx).update_check.next_request_id,
        final(ctx).overlay == Overlay::Closed,
        final(ctx).toasts@.len() == old(ctx).toasts@.len() + 1,
        final(ctx).toasts@.take(old(ctx).toasts@.len() as int) == old(ctx).toasts@,
        final(ctx).toasts@.last().kind == ToastKind::Error,
        final(ctx).toasts@.last().text matches ToastText::UpdateCheckFailed(CheckFailure::Send(e)) && e@ == error@,
        final(ctx).update_worker_available == old(ctx).update_worker_available,
{
    let ghost message = error@;
    ctx.update_check.cancel();
    ctx.overlay = Overlay::Closed;
    ctx.toasts.push(Toast {
        text: ToastText::UpdateCheckFailed(CheckFailure::Send(error)),
        kind: ToastKind::Error,
    });
    proof { assert(ctx.toasts@.take(old(ctx).toasts@.len() as int) =~= old(ctx).toasts@); }
}

/// Confirms the download of an update: without an update worker nothing happens;
/// otherwise the download overlay is shown from zero bytes and the download request
/// is returned for sending.
pub fn confirm(ctx: &mut RuntimeActionContext) -> (request: Option<UpdateReq>)
    ensures
        !old(ctx).update_worker_available ==> request is None && final(ctx).overlay == old(ctx).overlay
            && final(ctx).toasts@ == old(ctx).toasts@,
        old(ctx).update_worker_available ==> request == Some(UpdateReq::Download)
            && final(ctx).overlay == (Overlay::UpdateDownloading { downloaded: 0, total: None })
            && final(ctx).toasts@ == old(ctx).toasts@,
        final(ctx).update_check == old(ctx).update_check,
        final(ctx).update_worker_available == old(ctx).update_worker_available,
{
    if !ctx.update_worker_available {
        return None;
    }
    ctx.overlay = Overlay::UpdateDownloading { downloaded: 0, total: None };
    Some(UpdateReq::Download)
}

/// After the download request could not be sent: the overlay is closed and an error
/// toast gives the reason.
pub fn confirm_send_failed(ctx: &mut RuntimeActionContext, error: String)
    ensures
        final(ctx).overlay == Overlay::Closed,
        final(ctx).update_check == old(ctx).update_check,
        final(ctx).toasts@.len() == old(ctx).toasts@.len() + 1,
        final(ctx).toasts@.take(old(ctx).toasts@.len() as int) == old(ctx).toasts@,
        final(ctx).toasts@.last().kind == ToastKind::Error,
        final(ctx).toasts@.last().text matches ToastText::UpdateBackgroundFailed(e) && e@ == error@,
        final(ctx).update_worker_available == old(ctx).update_worker_available,
{
    ctx.overlay = Overlay::Closed;
    ctx.toasts.push(Toast { text: ToastText::UpdateBackgroundFailed(error), kind: ToastKind::Error });
    proof { assert(ctx.toasts@.take(old(ctx).toasts@.len() as int) =~= old(ctx).toasts@); }
}

} // verus!
