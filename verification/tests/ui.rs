use longlens::destinations::{ConnectionOptions, DestinationData};
use longlens::input::{BUTTON_PRIMARY, PTR_FLAGS_BUTTON1, PTR_FLAGS_DOWN};
use longlens::key_handler::KeyAction;
use longlens::session::{CertificateDetails, ConnectionError, SessionCommand};
use longlens::ui::{
    build_result_metas, button_flags, certificate_prompt, close_needs_confirmation,
    color_scheme_for, disconnect_action, fit_for, forwards_input, friendly_connection_error,
    initial_session_size, key_commands, should_queue_resize, stack_page, state_after_frame,
    watchdog_should_abort, CertificateLabels, ClipboardSync, ColorScheme, DisconnectAction,
    ErrorLabels, Fit, RdpState,
};

#[test]
fn stack_pages() {
    assert_eq!(stack_page(RdpState::Connected, 0), "rdppage");
    assert_eq!(stack_page(RdpState::Connecting, 3), "connectingpage");
    assert_eq!(stack_page(RdpState::Disconnected, 0), "emptypage");
    assert_eq!(stack_page(RdpState::Disconnected, 2), "destinationspage");
}

#[test]
fn session_lifecycle_rules() {
    assert!(close_needs_confirmation(RdpState::Connected));
    assert!(close_needs_confirmation(RdpState::Connecting));
    assert!(!close_needs_confirmation(RdpState::Disconnected));
    assert_eq!(disconnect_action(RdpState::Connecting), DisconnectAction::Abort);
    assert_eq!(disconnect_action(RdpState::Connected), DisconnectAction::Graceful);
    assert!(watchdog_should_abort(RdpState::Connected));
    assert!(!watchdog_should_abort(RdpState::Disconnected));
    assert_eq!(state_after_frame(RdpState::Connecting), (RdpState::Connected, true));
    assert_eq!(state_after_frame(RdpState::Connected), (RdpState::Connected, false));
    assert!(should_queue_resize(RdpState::Connected, 10, 10));
    assert!(!should_queue_resize(RdpState::Connected, 0, 10));
    assert!(!should_queue_resize(RdpState::Disconnected, 10, 10));
    assert!(forwards_input(RdpState::Connected));
    assert!(!forwards_input(RdpState::Connecting));
    assert_eq!(RdpState::default(), RdpState::Disconnected);
}

#[test]
fn initial_size_defaults_before_allocation() {
    assert_eq!(initial_session_size(0, 0), (1280, 800));
    assert_eq!(initial_session_size(1024, -1), (1024, 800));
    assert_eq!(initial_session_size(70000, 600), (4464, 600));
}

#[test]
fn color_schemes() {
    assert_eq!(color_scheme_for("light"), ColorScheme::ForceLight);
    assert_eq!(color_scheme_for("dark"), ColorScheme::ForceDark);
    assert_eq!(color_scheme_for("default"), ColorScheme::Default);
    assert_eq!(color_scheme_for(""), ColorScheme::Default);
}

#[test]
fn remote_text_is_not_echoed_back() {
    let mut clipboard = ClipboardSync::new();
    assert!(!clipboard.accept_remote_text("ignored while off"));
    clipboard.set_enabled(true);
    assert!(clipboard.enabled());
    assert!(clipboard.accept_remote_text("hello"));
    assert!(!clipboard.should_send_local_text("hello"));
    assert!(clipboard.should_send_local_text("hello"));
    assert!(clipboard.should_send_local_text("other"));
}

#[test]
fn remote_files_suppress_one_announcement() {
    let mut clipboard = ClipboardSync::new();
    assert!(!clipboard.accept_remote_files());
    assert!(!clipboard.take_suppression());
    clipboard.set_enabled(true);
    assert!(clipboard.accept_remote_files());
    assert!(clipboard.take_suppression());
    assert!(!clipboard.take_suppression());
    assert!(clipboard.accept_remote_files());
    clipboard.remote_files_failed();
    assert!(!clipboard.take_suppression());
    assert!(clipboard.may_announce(RdpState::Connected, true));
    assert!(!clipboard.may_announce(RdpState::Connecting, true));
    assert!(!clipboard.may_announce(RdpState::Connected, false));
}

fn destination(name: &str, hostname: &str, username: &str) -> DestinationData {
    DestinationData::new(
        name.to_owned(),
        hostname.to_owned(),
        username.to_owned(),
        ConnectionOptions {
            clipboard_enabled: true,
            sound_enabled: true,
            inhibit_system_shortcuts: true,
        },
    )
}

#[test]
fn search_results_show_title_and_login() {
    let items = vec![destination("Office", "office", "alice"), destination("", "lab", "bob")];
    let ids = vec![items[1].uuid.clone(), "unknown".to_owned(), items[0].uuid.clone()];
    let metas = build_result_metas(&items, &ids);
    assert_eq!(metas.len(), 2);
    assert_eq!(metas[0].id, items[1].uuid);
    assert_eq!(metas[0].name, "lab");
    assert_eq!(metas[0].description, "Connect to bob@lab");
    assert_eq!(metas[0].gicon, "network-server-symbolic");
    assert_eq!(metas[1].name, "Office");
    assert_eq!(metas[1].description, "Connect to alice@office");
}

#[test]
fn button_press_and_release_flags() {
    assert_eq!(button_flags(BUTTON_PRIMARY, true), Some(PTR_FLAGS_BUTTON1 | PTR_FLAGS_DOWN));
    assert_eq!(button_flags(BUTTON_PRIMARY, false), Some(PTR_FLAGS_BUTTON1));
    assert_eq!(button_flags(9, true), None);
}

#[test]
fn key_actions_become_commands() {
    assert!(key_commands(RdpState::Connecting, KeyAction::Key(38, true)).is_empty());
    let cmds = key_commands(RdpState::Connected, KeyAction::Key(105, false));
    assert!(matches!(
        cmds.as_slice(),
        [SessionCommand::Key { scancode: 0x011d, pressed: false }]
    ));
    let cmds = key_commands(RdpState::Connected, KeyAction::Unicode('\u{1F600}', true));
    assert!(matches!(
        cmds.as_slice(),
        [
            SessionCommand::Unicode { code: 0xd83d, pressed: true },
            SessionCommand::Unicode { code: 0xde00, pressed: true }
        ]
    ));
    let cmds = key_commands(RdpState::Connected, KeyAction::Unicode('a', false));
    assert!(matches!(cmds.as_slice(), [SessionCommand::Unicode { code: 0x61, pressed: false }]));
}

#[test]
fn viewport_fit() {
    assert_eq!(fit_for(1280, 800, 1280, 800, true), Fit::Exact);
    assert_eq!(fit_for(961, 599, 960, 600, false), Fit::Exact);
    assert_eq!(fit_for(1000, 500, 800, 600, true), Fit::Stretch);
    assert_eq!(fit_for(1000, 300, 800, 600, false), Fit::Contain);
}

fn labels() -> CertificateLabels {
    CertificateLabels {
        heading_changed: "Changed".into(),
        heading_untrusted: "Untrusted".into(),
        server: "Server".into(),
        subject: "Subject".into(),
        issuer: "Issuer".into(),
        fingerprint: "Fingerprint".into(),
        common_name: "Common name".into(),
        name_mismatch: "Name mismatch".into(),
        previous_fingerprint: "Previous fingerprint".into(),
        previous_subject: "Previous subject".into(),
        previous_issuer: "Previous issuer".into(),
    }
}

fn details() -> CertificateDetails {
    CertificateDetails {
        host: "host".into(),
        port: 3389,
        common_name: String::new(),
        subject: "CN=host".into(),
        issuer: "CN=ca".into(),
        fingerprint: "aa:bb".into(),
        host_mismatch: false,
        old_subject: None,
        old_issuer: None,
        old_fingerprint: None,
    }
}

#[test]
fn certificate_prompt_for_new_certificate() {
    let (heading, body) = certificate_prompt(&details(), &labels());
    assert_eq!(heading, "Untrusted");
    assert_eq!(
        body,
        "Server: host:3389\nSubject: CN=host\nIssuer: CN=ca\nFingerprint: aa:bb"
    );
}

#[test]
fn certificate_prompt_for_changed_certificate() {
    let mut d = details();
    d.common_name = "other".into();
    d.host_mismatch = true;
    d.old_fingerprint = Some("cc:dd".into());
    d.old_issuer = Some("CN=old".into());
    let (heading, body) = certificate_prompt(&d, &labels());
    assert_eq!(heading, "Changed");
    assert_eq!(
        body,
        "Server: host:3389\nSubject: CN=host\nIssuer: CN=ca\nFingerprint: aa:bb\nCommon name: other\n\nName mismatch\nPrevious fingerprint: cc:dd\nPrevious issuer: CN=old"
    );
}

fn error(class: u32, code: u32, name: &str, message: &str) -> ConnectionError {
    ConnectionError {
        code,
        class,
        name: name.into(),
        message: message.into(),
    }
}

#[test]
fn friendly_errors() {
    let labels = ErrorLabels {
        incorrect_credentials: "Wrong password".into(),
        access_denied: "Denied".into(),
        could_not_connect: "Could not connect".into(),
    };
    assert_eq!(friendly_connection_error(&error(1, 5, "n", "m"), &labels), "Wrong password");
    assert_eq!(friendly_connection_error(&error(2, 5, "n", "m"), &labels), "Denied");
    assert_eq!(
        friendly_connection_error(&error(0, 5, "n", "timed out"), &labels),
        "Could not connect\n\ntimed out"
    );
    assert_eq!(
        friendly_connection_error(&error(0, 5, "ERRCONNECT", ""), &labels),
        "Could not connect\n\nERRCONNECT"
    );
    assert_eq!(
        friendly_connection_error(&error(0, 0x2000c, "", ""), &labels),
        "Could not connect\n\nFreeRDP error 0x0002000c"
    );
}
