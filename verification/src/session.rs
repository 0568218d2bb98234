//! Values exchanged with the RDP session worker, and the decisions the
//! worker takes while a session runs and while it tries to restore one.
//!
//! The worker itself (native calls, channels, sleeping) lives outside the
//! library; it asks the functions here what to do next and reports what
//! happened.

use std::path::PathBuf;
use std::sync::mpsc::SyncSender;

use vstd::prelude::*;

use crate::text::{hex8, push_hex8, str_equals};

verus! {

#[verifier::external_type_specification]
#[verifier::external_body]
pub struct ExPathBuf(PathBuf);

#[verifier::external_type_specification]
#[verifier::external_body]
#[verifier::reject_recursive_types(T)]
pub struct ExSyncSender<T>(SyncSender<T>);

/// What a certificate prompt shows about the server's certificate.
#[derive(Debug, Clone)]
pub struct CertificateDetails {
    pub host: String,
    pub port: u16,
    pub common_name: String,
    pub subject: String,
    pub issuer: String,
    pub fingerprint: String,
    pub host_mismatch: bool,
    pub old_subject: Option<String>,
    pub old_issuer: Option<String>,
    pub old_fingerprint: Option<String>,
}

impl CertificateDetails {
    /// A previously trusted certificate for this server was different.
    pub fn changed(&self) -> (r: bool)
        ensures
            r == self.old_fingerprint is Some,
    {
        self.old_fingerprint.is_some()
    }
}

/// The user's answer to a certificate prompt.
#[derive(Debug, Clone, Copy, PartialEq, Eq, Structural)]
pub enum CertificateDecision {
    Reject,
    TrustPermanently,
    TrustOnce,
}

/// The code the native adapter expects for a decision.
pub open spec fn decision_code(d: CertificateDecision) -> u32 {
    match d {
        CertificateDecision::Reject => 0,
        CertificateDecision::TrustPermanently => 1,
        CertificateDecision::TrustOnce => 2,
    }
}

impl CertificateDecision {
    pub fn code(self) -> (c: u32)
        ensures
            c == decision_code(self),
    {
        match self {
            CertificateDecision::Reject => 0,
            CertificateDecision::TrustPermanently => 1,
            CertificateDecision::TrustOnce => 2,
        }
    }

    /// The decision for the response id chosen in the certificate dialog:
    /// `"once"` and `"always"` trust, anything else (cancel, close) rejects.
    pub fn from_response(response: &str) -> (d: CertificateDecision)
        ensures
            d == (if response@ == "once"@ {
                CertificateDecision::TrustOnce
            } else if response@ == "always"@ {
                CertificateDecision::TrustPermanently
            } else {
                CertificateDecision::Reject
            }),
    {
        if str_equals(response, "once") {
            CertificateDecision::TrustOnce
        } else if str_equals(response, "always") {
            CertificateDecision::TrustPermanently
        } else {
            CertificateDecision::Reject
        }
    }
}

/// A local file offered to the remote clipboard.
#[derive(Debug)]
pub struct LocalClipboardFile {
    pub path: PathBuf,
    pub name: String,
    pub size: u64,
    pub is_directory: bool,
}

/// A file the remote clipboard offers.
#[derive(Debug, Clone)]
pub struct RemoteClipboardFile {
    pub name: String,
    pub size: u64,
    pub is_directory: bool,
}

/// A remote clipboard file as plain values.
pub struct RemoteFileModel {
    pub name: Seq<char>,
    pub size: u64,
    pub is_directory: bool,
}

impl View for RemoteClipboardFile {
    type V = RemoteFileModel;

    open spec fn view(&self) -> RemoteFileModel {
        RemoteFileModel { name: self.name@, size: self.size, is_directory: self.is_directory }
    }
}

/// A failure reported by the native adapter.
#[derive(Debug)]
pub struct ConnectionError {
    pub code: u32,
    pub class: u32,
    pub name: String,
    pub message: String,
}

/// Credential (class 1) and authorisation (class 2) failures do not fix
/// themselves.
pub open spec fn is_recoverable_class(class: u32) -> bool {
    class != 1 && class != 2
}

impl ConnectionError {
    /// Credential and authorisation failures will not fix themselves, so they
    /// end a reconnect cycle instead of prolonging it.
    pub fn is_recoverable(&self) -> (r: bool)
        ensures
            r == is_recoverable_class(self.class),
    {
        !(self.class == 1 || self.class == 2)
    }
}

/// Why a session ended.
#[derive(Debug)]
pub enum TerminationReason {
    /// We asked for it: the disconnect button, an abort or the watchdog.
    Local,
    /// The server ended the session: logoff, kick, idle timeout.
    Remote,
    /// Gave up after an unrecoverable failure while trying to reconnect.
    Lost(ConnectionError),
}

/// What the worker reports to the widget.
#[derive(Debug)]
pub enum SessionEvent {
    Frame { buffer: Vec<u8>, width: u32, height: u32, stride: u32 },
    Cursor { data: Vec<u8>, width: u32, height: u32, hotspot_x: u32, hotspot_y: u32 },
    CursorHidden,
    CursorDefault,
    ClipboardText(String),
    ClipboardRemoteTextAvailable,
    ClipboardRemoteFilesAvailable,
    ClipboardRemoteFiles(Vec<RemoteClipboardFile>),
    ClipboardRemoteFileContents { stream_id: u32, data: Vec<u8> },
    CertificateRequest { details: CertificateDetails, response: SyncSender<CertificateDecision> },
    ConnectionFailure(ConnectionError),
    /// The transport died. The worker keeps the session alive and starts
    /// trying to restore it; `can_restore_session` tells whether the server
    /// issued an auto-reconnect cookie.
    Interrupted { detail: String, can_restore_session: bool },
    /// Waiting before the next attempt. `attempt` is the number of attempts
    /// made so far.
    ReconnectCountdown { attempt: u32, seconds_left: u32 },
    /// `attempt` is in progress right now.
    ReconnectAttempt { attempt: u32 },
    /// The session is live again.
    Reconnected,
    Terminated(TerminationReason),
}


/// What the user is told about a failed connection; the surrounding
/// wording is translated by the user interface.
#[derive(Debug)]
pub enum ConnectionErrorText {
    /// The username or password is incorrect.
    IncorrectCredentials,
    /// Access was denied.
    AccessDenied,
    /// Any other failure, with the most specific detail the adapter gave.
    CouldNotConnect(String),
}

/// The detail shown for a generic failure: the adapter's message, else the
/// error's name, else its code in hexadecimal.
pub open spec fn error_detail(e: ConnectionError) -> Seq<char> {
    if e.message@.len() > 0 {
        e.message@
    } else if e.name@.len() > 0 {
        e.name@
    } else {
        "FreeRDP error 0x"@ + hex8(e.code)
    }
}

/// How a connection failure is presented.
pub fn connection_error_text(error: &ConnectionError) -> (t: ConnectionErrorText)
    ensures
        error.class == 1 ==> t is IncorrectCredentials,
        error.class == 2 ==> t is AccessDenied,
        error.class != 1 && error.class != 2 ==> (t matches ConnectionErrorText::CouldNotConnect(d)
            && d@ == error_detail(*error)),
{
    if error.class == 1 {
        ConnectionErrorText::IncorrectCredentials
    } else if error.class == 2 {
        ConnectionErrorText::AccessDenied
    } else if error.message.as_str().is_empty() == false {
        ConnectionErrorText::CouldNotConnect(error.message.clone())
    } else if error.name.as_str().is_empty() == false {
        ConnectionErrorText::CouldNotConnect(error.name.clone())
    } else {
        let mut detail = "FreeRDP error 0x".to_owned();
        push_hex8(&mut detail, error.code);
        ConnectionErrorText::CouldNotConnect(detail)
    }
}

/// The event sent when the first connection attempt fails: a local abort
/// ends the session quietly, anything else is reported as a failure.
pub fn connect_failure_event(aborted: bool, error: ConnectionError) -> (ev: SessionEvent)
    ensures
        aborted ==> ev == SessionEvent::Terminated(TerminationReason::Local),
        !aborted ==> ev == SessionEvent::ConnectionFailure(error),
{
    if aborted {
        SessionEvent::Terminated(TerminationReason::Local)
    } else {
        SessionEvent::ConnectionFailure(error)
    }
}

/// How one poll of a live session turned out.
#[derive(Debug)]
pub enum PollOutcome {
    /// Keep pumping.
    Continue,
    /// The session is over for good.
    Ended(TerminationReason),
    /// The transport died; the session may be restorable.
    Interrupted,
}

/// Reads the result of polling the native session. A positive result means
/// the session is still live. Otherwise a requested shutdown is a local end,
/// `0` means the server ended the session, and a negative result is a
/// transport failure.
pub fn poll_outcome(result: i32, stopping: bool) -> (o: PollOutcome)
    ensures
        result > 0 ==> o is Continue,
        result <= 0 && stopping ==> o == PollOutcome::Ended(TerminationReason::Local),
        result == 0 && !stopping ==> o == PollOutcome::Ended(TerminationReason::Remote),
        result < 0 && !stopping ==> o is Interrupted,
{
    if result > 0 {
        PollOutcome::Continue
    } else if stopping {
        PollOutcome::Ended(TerminationReason::Local)
    } else if result == 0 {
        PollOutcome::Ended(TerminationReason::Remote)
    } else {
        PollOutcome::Interrupted
    }
}

/// Delays between reconnect attempts, in seconds; the last one repeats.
pub open spec fn retry_delay_spec(attempt: u32) -> u32 {
    if attempt == 0 {
        2
    } else if attempt == 1 {
        5
    } else if attempt == 2 {
        10
    } else if attempt == 3 {
        20
    } else if attempt == 4 {
        30
    } else {
        60
    }
}

/// The delay before attempt `attempt + 1`, in seconds. The last delay
/// repeats for every further attempt, so the cycle continues until the user
/// ends it.
pub fn retry_delay(attempt: u32) -> (d: u32)
    ensures
        d == retry_delay_spec(attempt),
{
    let delays: [u32; 6] = [2, 5, 10, 20, 30, 60];
    let index: usize = if attempt < 5 { attempt as usize } else { 5 };
    delays[index]
}

/// The backoff never shrinks, every wait lasts between two seconds and a
/// minute, and from the sixth attempt on it stays at a minute, so the cycle
/// goes on until the user ends it.
pub proof fn retry_delay_backs_off(a: u32, b: u32)
    requires
        a <= b,
    ensures
        retry_delay_spec(a) <= retry_delay_spec(b),
        2 <= retry_delay_spec(a) <= 60,
        a >= 5 ==> retry_delay_spec(a) == 60,
{
}

/// Seconds left of a `delay` once `elapsed` seconds have passed.
pub fn countdown_remaining(delay: u32, elapsed: u32) -> (left: u32)
    ensures
        left == (if elapsed >= delay { 0 } else { delay - elapsed }),
{
    delay.saturating_sub(elapsed)
}

/// Commands from the widget to the worker.
#[derive(Debug)]
pub enum SessionCommand {
    Key { scancode: u32, pressed: bool },
    Unicode { code: u16, pressed: bool },
    Mouse { flags: u16, x: u16, y: u16 },
    Resize { width: u32, height: u32, desktop_scale: u32 },
    ClipboardSetText(String),
    ClipboardSetFiles(Vec<LocalClipboardFile>),
    ClipboardRequestText,
    ClipboardRequestFiles,
    ClipboardUnlockRemoteFiles,
    ClipboardRequestFileSize { stream_id: u32, index: u32 },
    ClipboardRequestFileContents { stream_id: u32, index: u32, offset: u64, size: u32 },
    Disconnect,
    /// Cut a reconnect countdown short.
    ReconnectNow,
}

/// What the worker does with a queued command while waiting out a
/// reconnect delay.
#[derive(Debug, PartialEq, Eq, Structural)]
pub enum WaitReaction {
    /// Input and clipboard traffic is pointless while offline: drop it and
    /// read the next command.
    Ignore,
    /// Nothing is queued: keep counting down.
    Idle,
    /// Skip the rest of the countdown.
    RetryNow,
    /// End the session (disconnect requested, or the widget went away).
    EndLocally,
}

/// Reaction to the command queue during a countdown: `command` is what was
/// received, `None` when nothing was; `closed` tells that the sending side
/// is gone.
pub fn wait_reaction(command: Option<&SessionCommand>, closed: bool) -> (r: WaitReaction)
    ensures
        r == (match command {
            Some(SessionCommand::Disconnect) => WaitReaction::EndLocally,
            Some(SessionCommand::ReconnectNow) => WaitReaction::RetryNow,
            Some(_) => WaitReaction::Ignore,
            None => if closed { WaitReaction::EndLocally } else { WaitReaction::Idle },
        }),
{
    match command {
        Some(SessionCommand::Disconnect) => WaitReaction::EndLocally,
        Some(SessionCommand::ReconnectNow) => WaitReaction::RetryNow,
        Some(_) => WaitReaction::Ignore,
        None => if closed {
            WaitReaction::EndLocally
        } else {
            WaitReaction::Idle
        },
    }
}

/// What a live session does with a command: everything is forwarded to the
/// server except `Disconnect`, which ends the session locally, and
/// `ReconnectNow`, which only matters during a countdown.
pub fn command_ends_session(command: &SessionCommand) -> (ends: bool)
    ensures
        ends == command is Disconnect,
{
    match command {
        SessionCommand::Disconnect => true,
        _ => false,
    }
}

/// The result the native adapter reports for a reconnect attempt.
#[derive(Debug, Clone, Copy, PartialEq, Eq, Structural)]
pub enum ReconnectStatus {
    Reconnected,
    Refused,
    Failed,
    Unexpected(i32),
}

/// How an attempt to restore an interrupted session ended.
#[derive(Debug)]
pub enum AttemptOutcome {
    /// The session is live again.
    Reconnected,
    /// The cycle is over; this is the terminal event's reason.
    Terminated(TerminationReason),
    /// Wait and try again.
    Retry,
}

/// State of the cycle that tries to restore an interrupted session.
#[derive(Debug)]
pub struct ReconnectCycle {
    /// The number of attempts made so far.
    pub attempt: u32,
}

impl ReconnectCycle {
    /// Starts restoring a session whose transport died with `error`. A
    /// server that said why it ended the session (`error_info != 0`) is not
    /// coming back, and an unrecoverable error ends the cycle at once;
    /// otherwise the cycle starts at attempt 0 and the user is told the
    /// session was interrupted.
    pub fn begin(error_info: u32, error: ConnectionError, can_restore_session: bool) -> (r: Result<
        (ReconnectCycle, SessionEvent),
        SessionEvent,
    >)
        ensures
            error_info != 0 ==> r == Err::<(ReconnectCycle, SessionEvent), SessionEvent>(
                SessionEvent::Terminated(TerminationReason::Remote),
            ),
            error_info == 0 && !is_recoverable_class(error.class) ==> r == Err::<
                (ReconnectCycle, SessionEvent),
                SessionEvent,
            >(SessionEvent::Terminated(TerminationReason::Lost(error))),
            error_info == 0 && is_recoverable_class(error.class) ==> r == Ok::<
                (ReconnectCycle, SessionEvent),
                SessionEvent,
            >(
                (
                    ReconnectCycle { attempt: 0 },
                    SessionEvent::Interrupted { detail: error.message, can_restore_session },
                ),
            ),
    {
        if error_info != 0 {
            return Err(SessionEvent::Terminated(TerminationReason::Remote));
        }
        if !error.is_recoverable() {
            return Err(SessionEvent::Terminated(TerminationReason::Lost(error)));
        }
        Ok(
            (
                ReconnectCycle { attempt: 0 },
                SessionEvent::Interrupted { detail: error.message, can_restore_session },
            ),
        )
    }

    /// The delay before the next attempt, in seconds.
    pub fn delay(&self) -> (d: u32)
        ensures
            d == retry_delay_spec(self.attempt),
    {
        retry_delay(self.attempt)
    }

    /// The countdown event for `seconds_left`.
    pub fn countdown(&self, seconds_left: u32) -> (ev: SessionEvent)
        ensures
            ev == (SessionEvent::ReconnectCountdown { attempt: self.attempt, seconds_left }),
    {
        SessionEvent::ReconnectCountdown { attempt: self.attempt, seconds_left }
    }

    /// Starts the next attempt once the delay is over, unless a shutdown was
    /// requested meanwhile.
    pub fn start_attempt(&mut self, stopping: bool) -> (r: Result<SessionEvent, SessionEvent>)
        requires
            old(self).attempt < u32::MAX,
        ensures
            stopping ==> final(self).attempt == old(self).attempt && r == Err::<
                SessionEvent,
                SessionEvent,
            >(SessionEvent::Terminated(TerminationReason::Local)),
            !stopping ==> final(self).attempt == old(self).attempt + 1 && r == Ok::<
                SessionEvent,
                SessionEvent,
            >(SessionEvent::ReconnectAttempt { attempt: final(self).attempt }),
    {
        if stopping {
            return Err(SessionEvent::Terminated(TerminationReason::Local));
        }
        self.attempt = self.attempt + 1;
        Ok(SessionEvent::ReconnectAttempt { attempt: self.attempt })
    }

    /// Judges a finished attempt. `error` is the adapter's last error after
    /// the attempt.
    pub fn attempt_outcome(status: ReconnectStatus, stopping: bool, error: ConnectionError) -> (o:
        AttemptOutcome)
        ensures
            status == ReconnectStatus::Reconnected ==> o is Reconnected,
            status == ReconnectStatus::Refused ==> o == AttemptOutcome::Terminated(
                TerminationReason::Remote,
            ),
            status != ReconnectStatus::Reconnected && status != ReconnectStatus::Refused ==> {
                &&& stopping ==> o == AttemptOutcome::Terminated(TerminationReason::Local)
                &&& !stopping && !is_recoverable_class(error.class) ==> o
                    == AttemptOutcome::Terminated(TerminationReason::Lost(error))
                &&& !stopping && is_recoverable_class(error.class) ==> o is Retry
            },
    {
        match status {
            ReconnectStatus::Reconnected => AttemptOutcome::Reconnected,
            ReconnectStatus::Refused => AttemptOutcome::Terminated(TerminationReason::Remote),
            _ => {
                if stopping {
                    AttemptOutcome::Terminated(TerminationReason::Local)
                } else if !error.is_recoverable() {
                    AttemptOutcome::Terminated(TerminationReason::Lost(error))
                } else {
                    AttemptOutcome::Retry
                }
            },
        }
    }
}


/// The byte length of a frame buffer of `height` rows of `stride` bytes,
/// `None` when it does not fit the address space.
pub fn frame_buffer_len(stride: u32, height: u32) -> (len: Option<usize>)
    ensures
        stride * height <= usize::MAX ==> len == Some((stride * height) as usize),
        stride * height > usize::MAX ==> len is None,
{
    (stride as usize).checked_mul(height as usize)
}

/// The byte length of an RGBA cursor image, `None` when it does not fit the
/// address space.
pub fn cursor_buffer_len(width: u32, height: u32) -> (len: Option<usize>)
    ensures
        width * height * 4 <= usize::MAX ==> len == Some((width * height * 4) as usize),
        width * height * 4 > usize::MAX ==> len is None,
{
    match (width as usize).checked_mul(height as usize) {
        Some(pixels) => {
            let r = pixels.checked_mul(4);
            proof {
                if width * height * 4 > usize::MAX {
                    assert(r is None);
                }
            }
            r
        },
        None => {
            assert(width * height * 4 > usize::MAX) by (nonlinear_arith)
                requires
                    width * height > usize::MAX,
            ;
            None
        },
    }
}

/// The adapter's system cursor kinds: 0 hides the pointer, anything else is
/// the default arrow.
pub fn system_cursor_event(kind: u32) -> (ev: SessionEvent)
    ensures
        kind == 0 ==> ev is CursorHidden,
        kind != 0 ==> ev is CursorDefault,
{
    if kind == 0 {
        SessionEvent::CursorHidden
    } else {
        SessionEvent::CursorDefault
    }
}

/// The size the remote side is told for the `index`-th local clipboard
/// file; 0 for an index out of range.
pub fn local_file_size(files: &[LocalClipboardFile], index: u32) -> (size: u64)
    ensures
        size == (if (index as int) < files@.len() {
            files@[index as int].size
        } else {
            0
        }),
{
    if (index as usize) < files.len() {
        files[index as usize].size
    } else {
        0
    }
}

/// Whether the certificate check's flags report that the certificate's name
/// does not match the host (bit `0x80`).
pub fn certificate_host_mismatch(flags: u32) -> (r: bool)
    ensures
        r == ((flags / 0x80) % 2 == 1),
{
    (flags / 0x80) % 2 == 1
}

} // verus!
