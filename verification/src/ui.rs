//! Presentation rules of the windows and widgets: which page is shown,
//! how a connection is started and ended, what the clipboard forwards, and
//! what the desktop search shows.

use vstd::prelude::*;

use crate::destinations::{
    display_title_spec, models, push_str, string_views, DestinationData, DestinationModel,
};
use crate::input::{mouse_button, key_scancode, freerdp_scancode, xkb_win_code, PTR_FLAGS_DOWN, BUTTON_PRIMARY, BUTTON_SECONDARY, BUTTON_MIDDLE, PTR_FLAGS_BUTTON1, PTR_FLAGS_BUTTON2, PTR_FLAGS_BUTTON3};
use crate::key_handler::KeyAction;
use crate::session::{connection_error_text, error_detail, CertificateDetails, ConnectionError, ConnectionErrorText, SessionCommand};
use crate::text::{char_to_utf16, decimal_string, push_char, push_decimal, str_equals, utf16_of_char};

verus! {

/// The connection state of the remote desktop widget.
#[derive(Debug, Clone, Copy, PartialEq, Eq, Structural)]
pub enum RdpState {
    Disconnected,
    Connecting,
    Connected,
}

impl Default for RdpState {
    fn default() -> (s: RdpState)
        ensures
            s == RdpState::Disconnected,
    {
        RdpState::Disconnected
    }
}

/// The page of the main window's stack for a widget state and a number of
/// saved destinations.
pub open spec fn stack_page_spec(state: RdpState, n_destinations: u32) -> Seq<char> {
    if state == RdpState::Connected {
        "rdppage"@
    } else if state == RdpState::Connecting {
        "connectingpage"@
    } else if n_destinations == 0 {
        "emptypage"@
    } else {
        "destinationspage"@
    }
}

/// The main window shows the session while connected, a progress page
/// while connecting, and otherwise the destination list, or an empty-state
/// page when there is nothing saved.
pub fn stack_page(state: RdpState, n_destinations: u32) -> (page: &'static str)
    ensures
        page@ == stack_page_spec(state, n_destinations),
{
    if state == RdpState::Connected {
        "rdppage"
    } else if state == RdpState::Connecting {
        "connectingpage"
    } else if n_destinations == 0 {
        "emptypage"
    } else {
        "destinationspage"
    }
}

/// Whether closing the window must first ask to end a session.
pub fn close_needs_confirmation(state: RdpState) -> (r: bool)
    ensures
        r == (state == RdpState::Connected || state == RdpState::Connecting),
{
    state == RdpState::Connected || state == RdpState::Connecting
}

/// The size a session is requested at: the window's content size in
/// logical pixels, or 1280×800 while it has no size yet. A size is taken
/// modulo 2^16, as the widget's integer conversion does.
pub fn initial_session_size(width: i32, height: i32) -> (size: (u16, u16))
    ensures
        size.0 == (if width > 0 { (width % 0x1_0000) as u16 } else { 1280 }),
        size.1 == (if height > 0 { (height % 0x1_0000) as u16 } else { 800 }),
{
    let w: u16 = if width > 0 { (width % 0x1_0000) as u16 } else { 1280 };
    let h: u16 = if height > 0 { (height % 0x1_0000) as u16 } else { 800 };
    (w, h)
}

/// How an active session is ended.
#[derive(Debug, Clone, Copy, PartialEq, Eq, Structural)]
pub enum DisconnectAction {
    /// Still connecting: abort at once.
    Abort,
    /// Ask the server to end the session, with a watchdog that aborts if it
    /// does not end in time.
    Graceful,
}

/// A connection in progress is aborted; a live one is ended gracefully.
pub fn disconnect_action(state: RdpState) -> (a: DisconnectAction)
    ensures
        a == (if state == RdpState::Connecting {
            DisconnectAction::Abort
        } else {
            DisconnectAction::Graceful
        }),
{
    if state == RdpState::Connecting {
        DisconnectAction::Abort
    } else {
        DisconnectAction::Graceful
    }
}

/// When the graceful-disconnect watchdog fires, the connection is dropped
/// unless the session already ended.
pub fn watchdog_should_abort(state: RdpState) -> (r: bool)
    ensures
        r == (state != RdpState::Disconnected),
{
    state != RdpState::Disconnected
}

/// The widget state after a frame arrives, and whether this frame is the
/// first of the session (the moment it counts as connected).
pub fn state_after_frame(state: RdpState) -> (r: (RdpState, bool))
    ensures
        r == (if state == RdpState::Connecting {
            (RdpState::Connected, true)
        } else {
            (state, false)
        }),
{
    if state == RdpState::Connecting {
        (RdpState::Connected, true)
    } else {
        (state, false)
    }
}

/// A new size is sent to the server only for a live or starting session
/// and a non-empty allocation.
pub fn should_queue_resize(state: RdpState, width: i32, height: i32) -> (r: bool)
    ensures
        r == (state != RdpState::Disconnected && width > 0 && height > 0),
{
    state != RdpState::Disconnected && width > 0 && height > 0
}

/// Pointer and scroll input is forwarded only while connected.
pub fn forwards_input(state: RdpState) -> (r: bool)
    ensures
        r == (state == RdpState::Connected),
{
    state == RdpState::Connected
}

/// The colour scheme the application forces.
#[derive(Debug, Clone, Copy, PartialEq, Eq, Structural)]
pub enum ColorScheme {
    Default,
    ForceLight,
    ForceDark,
}

/// The colour scheme for the `color-scheme` setting: `"light"` and `"dark"`
/// force one, anything else follows the system.
pub fn color_scheme_for(setting: &str) -> (c: ColorScheme)
    ensures
        c == (if setting@ == "light"@ {
            ColorScheme::ForceLight
        } else if setting@ == "dark"@ {
            ColorScheme::ForceDark
        } else {
            ColorScheme::Default
        }),
{
    if str_equals(setting, "light") {
        ColorScheme::ForceLight
    } else if str_equals(setting, "dark") {
        ColorScheme::ForceDark
    } else {
        ColorScheme::Default
    }
}

/// What the clipboard integration remembers.
pub struct ClipboardModel {
    pub enabled: bool,
    pub last_remote_text: Option<Seq<char>>,
    pub suppress_next_announce: bool,
}

/// Clipboard sharing state of a session widget: whether sharing is on,
/// the text last received from the remote side (so that writing it to the
/// local clipboard does not send it straight back), and whether the next
/// local clipboard change was caused by the remote side.
#[derive(Debug)]
pub struct ClipboardSync {
    enabled: bool,
    last_remote_text: Option<String>,
    suppress_next_announce: bool,
}

impl View for ClipboardSync {
    type V = ClipboardModel;

    closed spec fn view(&self) -> ClipboardModel {
        ClipboardModel {
            enabled: self.enabled,
            last_remote_text: match self.last_remote_text {
                Some(t) => Some(t@),
                None => None,
            },
            suppress_next_announce: self.suppress_next_announce,
        }
    }
}

impl ClipboardSync {
    /// Sharing off, nothing remembered.
    pub fn new() -> (c: ClipboardSync)
        ensures
            c@ == (ClipboardModel {
                enabled: false,
                last_remote_text: None,
                suppress_next_announce: false,
            }),
    {
        ClipboardSync { enabled: false, last_remote_text: None, suppress_next_announce: false }
    }

    pub fn enabled(&self) -> (e: bool)
        ensures
            e == self@.enabled,
    {
        self.enabled
    }

    pub fn set_enabled(&mut self, enabled: bool)
        ensures
            final(self)@ == (ClipboardModel { enabled, ..old(self)@ }),
    {
        self.enabled = enabled;
    }

    /// Text arrived from the remote side. When sharing is on it is
    /// remembered and `true` tells the caller to put it on the local
    /// clipboard.
    pub fn accept_remote_text(&mut self, text: &str) -> (write_local: bool)
        ensures
            (write_local, final(self)@) == after_remote_text(old(self)@, text@),
    {
        if !self.enabled {
            return false;
        }
        self.last_remote_text = Some(text.to_owned());
        true
    }

    /// Files are offered by the remote side. When sharing is on, the caller
    /// takes over the local clipboard, and the change that causes is not
    /// announced back.
    pub fn accept_remote_files(&mut self) -> (take_over: bool)
        ensures
            take_over == old(self)@.enabled,
            take_over ==> final(self)@ == (ClipboardModel {
                suppress_next_announce: true,
                ..old(self)@
            }),
            !take_over ==> final(self)@ == old(self)@,
    {
        if !self.enabled {
            return false;
        }
        self.suppress_next_announce = true;
        true
    }

    /// Taking over the local clipboard failed: the next change is the
    /// user's again.
    pub fn remote_files_failed(&mut self)
        ensures
            final(self)@ == (ClipboardModel { suppress_next_announce: false, ..old(self)@ }),
    {
        self.suppress_next_announce = false;
    }

    /// The local clipboard changed: `true` when the change was caused by the
    /// remote side and must not be announced; the mark is used up.
    pub fn take_suppression(&mut self) -> (suppressed: bool)
        ensures
            suppressed == old(self)@.suppress_next_announce,
            final(self)@ == (ClipboardModel { suppress_next_announce: false, ..old(self)@ }),
    {
        let suppressed = self.suppress_next_announce;
        self.suppress_next_announce = false;
        suppressed
    }

    /// Whether the local clipboard is offered to the remote side: only for a
    /// connected session with sharing on.
    pub fn may_announce(&self, state: RdpState, has_session: bool) -> (r: bool)
        ensures
            r == (state == RdpState::Connected && self@.enabled && has_session),
    {
        state == RdpState::Connected && self.enabled && has_session
    }

    /// Local text is about to be sent. It is not, once, when it is exactly
    /// the text that just came from the remote side.
    pub fn should_send_local_text(&mut self, text: &str) -> (send: bool)
        ensures
            (send, final(self)@) == after_local_text(old(self)@, text@),
    {
        let echo = match &self.last_remote_text {
            Some(last) => str_equals(last.as_str(), text),
            None => false,
        };
        if echo {
            self.last_remote_text = None;
            return false;
        }
        true
    }
}

/// Remote text is written to the local clipboard, and remembered, only
/// while sharing is on.
pub open spec fn after_remote_text(m: ClipboardModel, text: Seq<char>) -> (bool, ClipboardModel) {
    if m.enabled {
        (true, ClipboardModel { last_remote_text: Some(text), ..m })
    } else {
        (false, m)
    }
}

/// Local text equal to the remembered remote text is not sent, and the
/// memory is cleared; any other text is sent.
pub open spec fn after_local_text(m: ClipboardModel, text: Seq<char>) -> (bool, ClipboardModel) {
    if m.last_remote_text == Some(text) {
        (false, ClipboardModel { last_remote_text: None, ..m })
    } else {
        (true, m)
    }
}

/// Text received from the remote side is written locally and not sent back
/// when the local clipboard reports it, but the same text copied again
/// afterwards is sent.
pub proof fn remote_text_is_not_echoed(m: ClipboardModel, text: Seq<char>)
    requires
        m.enabled,
    ensures
        ({
            let (written, after_receive) = after_remote_text(m, text);
            let (echoed, after_echo) = after_local_text(after_receive, text);
            let (sent_again, _) = after_local_text(after_echo, text);
            &&& written
            &&& !echoed
            &&& sent_again
        }),
{
}

/// What the desktop search shows for a destination.
#[derive(Debug, Clone)]
pub struct ResultMeta {
    pub id: String,
    pub name: String,
    pub description: String,
    pub gicon: String,
}

pub open spec fn result_description(d: DestinationModel) -> Seq<char> {
    "Connect to "@ + d.username + "@"@ + d.hostname
}

/// The first destination with identifier `id` among `items`.
pub open spec fn first_with_uuid(items: Seq<DestinationModel>, id: Seq<char>) -> Option<DestinationModel>
    decreases items.len(),
{
    if items.len() == 0 {
        None
    } else if items[0].uuid == id {
        Some(items[0])
    } else {
        first_with_uuid(items.drop_first(), id)
    }
}

/// The search result entries for the requested identifiers, in request
/// order; unknown identifiers are skipped.
pub open spec fn result_metas_spec(items: Seq<DestinationModel>, ids: Seq<Seq<char>>) -> Seq<DestinationModel>
    decreases ids.len(),
{
    if ids.len() == 0 {
        Seq::empty()
    } else {
        result_metas_spec(items, ids.drop_last()) + match first_with_uuid(items, ids.last()) {
            Some(d) => seq![d],
            None => Seq::empty(),
        }
    }
}

fn first_position(items: &[DestinationData], id: &str) -> (r: Option<usize>)
    ensures
        match r {
            Some(i) => i < items@.len() && first_with_uuid(models(items@), id@) == Some(items@[i as int]@),
            None => first_with_uuid(models(items@), id@) is None,
        },
{
    let ghost all = models(items@);
    assert(all.skip(0) =~= all);
    for i in 0..items.len()
        invariant
            all == models(items@),
            first_with_uuid(all, id@) == first_with_uuid(all.skip(i as int), id@),
    {
        let ghost rest = all.skip(i as int);
        assert(rest[0] == items@[i as int]@);
        if str_equals(items[i].uuid.as_str(), id) {
            return Some(i);
        }
        assert(rest.drop_first() =~= all.skip(i + 1));
    }
    assert(all.skip(all.len() as int) =~= Seq::<DestinationModel>::empty());
    None
}

/// Whether a result entry shows destination `d`.
pub open spec fn meta_shows(m: ResultMeta, d: DestinationModel) -> bool {
    &&& m.id@ == d.uuid
    &&& m.name@ == display_title_spec(d)
    &&& m.description@ == result_description(d)
    &&& m.gicon@ == "network-server-symbolic"@
}

/// Builds the desktop search's result entries: each shows the destination's
/// title, "Connect to user@host" and a server icon.
pub fn build_result_metas(items: &[DestinationData], identifiers: &[String]) -> (metas: Vec<ResultMeta>)
    ensures
        metas@.len() == result_metas_spec(models(items@), string_views(identifiers@)).len(),
        forall|k: int| 0 <= k < metas@.len() ==> meta_shows(#[trigger] metas@[k], result_metas_spec(models(items@), string_views(identifiers@))[k]),
{
    let ghost all = models(items@);
    let ghost ids = string_views(identifiers@);
    let mut metas: Vec<ResultMeta> = Vec::new();
    for j in 0..identifiers.len()
        invariant
            all == models(items@),
            ids == string_views(identifiers@),
            metas@.len() == result_metas_spec(all, ids.take(j as int)).len(),
            forall|k: int| 0 <= k < metas@.len() ==> meta_shows(#[trigger] metas@[k], result_metas_spec(all, ids.take(j as int))[k]),
    {
        let ghost prev = result_metas_spec(all, ids.take(j as int));
        let ghost before = metas@;
        assert(ids.take(j + 1).drop_last() =~= ids.take(j as int));
        assert(ids.take(j + 1).last() == identifiers@[j as int]@);
        match first_position(items, identifiers[j].as_str()) {
            Some(i) => {
                let dest = &items[i];
                let mut description = String::new();
                push_str(&mut description, "Connect to ");
                push_str(&mut description, dest.username.as_str());
                push_str(&mut description, "@");
                push_str(&mut description, dest.hostname.as_str());
                let meta = ResultMeta {
                    id: dest.uuid.clone(),
                    name: dest.display_title(),
                    description,
                    gicon: "network-server-symbolic".to_owned(),
                };
                assert(meta_shows(meta, items@[i as int]@));
                metas.push(meta);
                let ghost next = result_metas_spec(all, ids.take(j + 1));
                assert(next == prev.push(items@[i as int]@));
                assert forall|k: int| 0 <= k < metas@.len() implies meta_shows(#[trigger] metas@[k], next[k]) by {
                    if k < before.len() {
                        assert(metas@[k] == before[k]);
                        assert(meta_shows(before[k], prev[k]));
                    }
                }
            },
            None => {
                assert(result_metas_spec(all, ids.take(j + 1)) =~= prev);
            },
        }
    }
    assert(ids.take(ids.len() as int) =~= ids);
    metas
}


/// The flags of a button press or release; buttons other than the first
/// three are not forwarded.
pub fn button_flags(gdk_button: u32, pressed: bool) -> (flags: Option<u16>)
    ensures
        flags == (match mouse_button_spec(gdk_button) {
            Some(f) => Some(if pressed { (f + PTR_FLAGS_DOWN) as u16 } else { f }),
            None => None,
        }),
{
    match mouse_button(gdk_button) {
        Some(f) => Some(if pressed { f + PTR_FLAGS_DOWN } else { f }),
        None => None,
    }
}

pub open spec fn mouse_button_spec(gdk_button: u32) -> Option<u16> {
    if gdk_button == BUTTON_PRIMARY {
        Some(PTR_FLAGS_BUTTON1)
    } else if gdk_button == BUTTON_SECONDARY {
        Some(PTR_FLAGS_BUTTON2)
    } else if gdk_button == BUTTON_MIDDLE {
        Some(PTR_FLAGS_BUTTON3)
    } else {
        None
    }
}

/// Whether `cmd` is the command for one key event.
pub open spec fn is_key_command(cmd: SessionCommand, scancode: u32, pressed: bool) -> bool {
    cmd matches SessionCommand::Key { scancode: s, pressed: p } && s == scancode && p == pressed
}

pub open spec fn is_unicode_command(cmd: SessionCommand, code: u16, pressed: bool) -> bool {
    cmd matches SessionCommand::Unicode { code: c, pressed: p } && c == code && p == pressed
}

/// The commands a key action becomes: nothing unless connected; a keycode
/// is sent as its FreeRDP scancode (nothing for an unknown keycode), and a
/// character as its UTF-16 code units.
pub fn key_commands(state: RdpState, action: KeyAction) -> (cmds: Vec<SessionCommand>)
    ensures
        state != RdpState::Connected ==> cmds@.len() == 0,
        state == RdpState::Connected ==> match action {
            KeyAction::Key(keycode, pressed) => match xkb_win_code(keycode) {
                Some(win) => cmds@.len() == 1 && is_key_command(cmds@[0], freerdp_scancode(win), pressed),
                None => cmds@.len() == 0,
            },
            KeyAction::Unicode(ch, pressed) => cmds@.len() == utf16_of_char(ch).len() && forall|k: int|
                0 <= k < cmds@.len() ==> is_unicode_command(#[trigger] cmds@[k], utf16_of_char(ch)[k], pressed),
        },
{
    let mut cmds: Vec<SessionCommand> = Vec::new();
    if state != RdpState::Connected {
        return cmds;
    }
    match action {
        KeyAction::Key(keycode, pressed) => {
            if let Some(scancode) = key_scancode(keycode) {
                cmds.push(SessionCommand::Key { scancode, pressed });
            }
        },
        KeyAction::Unicode(ch, pressed) => {
            let units = char_to_utf16(ch);
            for k in 0..units.len()
                invariant
                    units@ == utf16_of_char(ch),
                    cmds@.len() == k,
                    forall|m: int| 0 <= m < k ==> is_unicode_command(#[trigger] cmds@[m], units@[m], pressed),
            {
                cmds.push(SessionCommand::Unicode { code: units[k], pressed });
            }
        },
    }
    cmds
}

/// How the remote framebuffer is placed inside the widget.
#[derive(Debug, Clone, Copy, PartialEq, Eq, Structural)]
pub enum Fit {
    /// The framebuffer matches the widget; draw it pixel for pixel.
    Exact,
    /// Fill the whole widget, ignoring the aspect ratio. Used while a resize
    /// requested from the server is still in flight.
    Stretch,
    /// Scale to fit while keeping the aspect ratio, centered. Used when the
    /// server cannot follow the window size.
    Contain,
}

/// The placement for a widget of `physical_width`×`physical_height` device
/// pixels (its logical size times the surface scale, rounded) and a remote
/// framebuffer of `remote_width`×`remote_height`: sizes within one pixel
/// match exactly; otherwise a server that follows the window size is
/// stretched to it meanwhile, and one that cannot is letterboxed.
pub fn fit_for(physical_width: i64, physical_height: i64, remote_width: u32, remote_height: u32, server_resizable: bool) -> (f: Fit)
    ensures
        f == (if -1 <= physical_width - remote_width <= 1 && -1 <= physical_height - remote_height <= 1 {
            Fit::Exact
        } else if server_resizable {
            Fit::Stretch
        } else {
            Fit::Contain
        }),
{
    let rw = remote_width as i64;
    let rh = remote_height as i64;
    if physical_width >= rw - 1 && physical_width <= rw + 1 && physical_height >= rh - 1
        && physical_height <= rh + 1 {
        Fit::Exact
    } else if server_resizable {
        Fit::Stretch
    } else {
        Fit::Contain
    }
}

/// The translated wording of the certificate prompt.
#[derive(Debug, Clone)]
pub struct CertificateLabels {
    pub heading_changed: String,
    pub heading_untrusted: String,
    pub server: String,
    pub subject: String,
    pub issuer: String,
    pub fingerprint: String,
    pub common_name: String,
    pub name_mismatch: String,
    pub previous_fingerprint: String,
    pub previous_subject: String,
    pub previous_issuer: String,
}

/// `"\n" + label + ": " + value`.
pub open spec fn detail_line(label: Seq<char>, value: Seq<char>) -> Seq<char> {
    seq!['\n'] + label + ": "@ + value
}

pub open spec fn optional_line(label: Seq<char>, value: Option<String>) -> Seq<char> {
    match value {
        Some(v) => detail_line(label, v@),
        None => Seq::empty(),
    }
}

/// The prompt's text: server, subject, issuer and fingerprint; the common
/// name when known; a warning when the name does not match the host; and
/// what was trusted before when the certificate changed.
pub open spec fn certificate_body_spec(d: CertificateDetails, l: CertificateLabels) -> Seq<char> {
    l.server@ + ": "@ + d.host@ + ":"@ + decimal_string(d.port as nat)
        + detail_line(l.subject@, d.subject@) + detail_line(l.issuer@, d.issuer@)
        + detail_line(l.fingerprint@, d.fingerprint@)
        + (if d.common_name@.len() > 0 { detail_line(l.common_name@, d.common_name@) } else { Seq::empty() })
        + (if d.host_mismatch { "\n\n"@ + l.name_mismatch@ } else { Seq::empty() })
        + optional_line(l.previous_fingerprint@, d.old_fingerprint)
        + optional_line(l.previous_subject@, d.old_subject)
        + optional_line(l.previous_issuer@, d.old_issuer)
}

fn push_detail_line(out: &mut String, label: &str, value: &str)
    ensures
        final(out)@ == old(out)@ + detail_line(label@, value@),
{
    push_char(out, '\n');
    push_str(out, label);
    push_str(out, ": ");
    push_str(out, value);
    assert(final(out)@ =~= old(out)@ + detail_line(label@, value@));
}

fn push_optional_line(out: &mut String, label: &str, value: &Option<String>)
    ensures
        final(out)@ == old(out)@ + optional_line(label@, *value),
{
    match value {
        Some(v) => push_detail_line(out, label, v.as_str()),
        None => {
            assert(out@ =~= old(out)@ + Seq::<char>::empty());
        },
    }
}

/// The heading and text of the prompt asking whether to trust a server's
/// certificate.
pub fn certificate_prompt(details: &CertificateDetails, labels: &CertificateLabels) -> (prompt: (String, String))
    ensures
        prompt.0@ == (if details.old_fingerprint is Some { labels.heading_changed@ } else { labels.heading_untrusted@ }),
        prompt.1@ == certificate_body_spec(*details, *labels),
{
    let heading = if details.changed() {
        labels.heading_changed.clone()
    } else {
        labels.heading_untrusted.clone()
    };
    let mut body = String::new();
    push_str(&mut body, labels.server.as_str());
    push_str(&mut body, ": ");
    push_str(&mut body, details.host.as_str());
    push_str(&mut body, ":");
    let ghost before_port = body@;
    push_decimal(&mut body, details.port as u64);
    let ghost s0 = body@;
    push_detail_line(&mut body, labels.subject.as_str(), details.subject.as_str());
    push_detail_line(&mut body, labels.issuer.as_str(), details.issuer.as_str());
    push_detail_line(&mut body, labels.fingerprint.as_str(), details.fingerprint.as_str());
    let ghost s1 = body@;
    if !details.common_name.as_str().is_empty() {
        push_detail_line(&mut body, labels.common_name.as_str(), details.common_name.as_str());
    }
    let ghost s2 = body@;
    if details.host_mismatch {
        push_str(&mut body, "\n\n");
        push_str(&mut body, labels.name_mismatch.as_str());
    }
    let ghost s3 = body@;
    push_optional_line(&mut body, labels.previous_fingerprint.as_str(), &details.old_fingerprint);
    push_optional_line(&mut body, labels.previous_subject.as_str(), &details.old_subject);
    push_optional_line(&mut body, labels.previous_issuer.as_str(), &details.old_issuer);
    proof {
        let d = *details;
        let l = *labels;
        assert(before_port =~= l.server@ + ": "@ + d.host@ + ":"@);
        assert(s0 =~= l.server@ + ": "@ + d.host@ + ":"@ + decimal_string(d.port as nat));
        if d.common_name@.len() > 0 {
            assert(s2 =~= s1 + detail_line(l.common_name@, d.common_name@));
        } else {
            assert(s2 =~= s1 + Seq::<char>::empty());
        }
        if d.host_mismatch {
            assert(s3 =~= s2 + ("\n\n"@ + l.name_mismatch@));
        } else {
            assert(s3 =~= s2 + Seq::<char>::empty());
        }
        assert(body@ =~= certificate_body_spec(d, l));
    }
    (heading, body)
}

/// The translated wording of connection failures.
#[derive(Debug, Clone)]
pub struct ErrorLabels {
    pub incorrect_credentials: String,
    pub access_denied: String,
    pub could_not_connect: String,
}

/// The message shown for a failed connection: the credential and access
/// texts for those classes, otherwise the generic text, a blank line and
/// the detail.
pub fn friendly_connection_error(error: &ConnectionError, labels: &ErrorLabels) -> (message: String)
    ensures
        message@ == (if error.class == 1 {
            labels.incorrect_credentials@
        } else if error.class == 2 {
            labels.access_denied@
        } else {
            labels.could_not_connect@ + "\n\n"@ + error_detail(*error)
        }),
{
    match connection_error_text(error) {
        ConnectionErrorText::IncorrectCredentials => labels.incorrect_credentials.clone(),
        ConnectionErrorText::AccessDenied => labels.access_denied.clone(),
        ConnectionErrorText::CouldNotConnect(detail) => {
            let mut message = labels.could_not_connect.clone();
            push_str(&mut message, "\n\n");
            push_str(&mut message, detail.as_str());
            assert(message@ =~= labels.could_not_connect@ + "\n\n"@ + error_detail(*error));
            message
        },
    }
}

/// GDK numbers the buttons left 1, middle 2, right 3; FreeRDP flags them
/// left `BUTTON1`, right `BUTTON2`, middle `BUTTON3`. Each GDK button gets
/// its own FreeRDP button, a press adds the down flag, and no other button
/// is forwarded.
pub proof fn buttons_keep_their_meaning(b: u32)
    ensures
        b == 1 ==> mouse_button_spec(b) == Some(0x1000u16),
        b == 2 ==> mouse_button_spec(b) == Some(0x4000u16),
        b == 3 ==> mouse_button_spec(b) == Some(0x2000u16),
        (b < 1 || b > 3) ==> mouse_button_spec(b) is None,
        mouse_button_spec(b) matches Some(f) ==> (f + PTR_FLAGS_DOWN) as u16 == f + 0x8000,
{
}

} // verus!
