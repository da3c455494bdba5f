use phantom::bridge::{
    control_request, stays_in_control, ControlRequest, clamp_dim, coalesce, inbound_action, requested_dim, wants_compression, window_after_send,
    InboundAction, DEFAULT_COLS, DEFAULT_ROWS, DEFAULT_WINDOW,
};
use phantom::config::{DaemonConfig, RateLimitConfig, SessionConfig};
use phantom::devices::{AuditAction, DeviceError, DeviceStore};
use phantom::frame::{Frame, MAX_PAYLOAD};
use phantom::ids::{fingerprint, fingerprint_base64, session_id_from, validate_id, IdError};
use phantom::ipc::{ipc_method, line_fits, port_of, IpcMethod, RequestWindow};
use phantom::ratelimit::RateLimiter;
use phantom::session::{AttachError, ConnectionRegistry, SessionState};
use phantom::tokens::PairingTokens;

#[test]
fn rate_limiter_window_slides() {
    let mut rl = RateLimiter::new(2, 100);
    assert!(rl.check(1, 0));
    assert!(rl.check(1, 50));
    assert!(!rl.check(1, 99));
    assert!(rl.check(1, 100));
    assert!(!rl.is_allowed(1, 120));
    assert!(rl.is_allowed(1, 150));
    rl.record(1, 150);
    assert!(!rl.is_allowed(1, 151));
}

#[test]
fn token_validates_once() {
    let mut tokens = PairingTokens::new();
    let t = tokens.create_pairing_token(&[1u8; 32], 1_000);
    assert_eq!(t.len(), 43);
    assert!(!t.contains('='));
    let mut store = DeviceStore::new(tokens);
    assert!(store.validate_pairing_token(&t, 1_100));
    assert!(!store.validate_pairing_token(&t, 1_101));
}

#[test]
fn token_expires() {
    let mut tokens = PairingTokens::new();
    let t = tokens.create_pairing_token(&[2u8; 32], 1_000);
    assert!(!tokens.validate_pairing_token(&t, 1_300));
    assert!(tokens.entries().is_empty());
    let u = tokens.create_pairing_token(&[3u8; 32], 1_000);
    tokens.insert("other".to_string(), 5_000);
    tokens.prune(2_000);
    assert_eq!(tokens.entries().len(), 1);
    assert!(!tokens.validate_pairing_token(&u, 1_100));
}

#[test]
fn device_store_pairs_and_revokes() {
    let mut store = DeviceStore::new(PairingTokens::new());
    let id = "phone-1".to_string();
    assert_eq!(store.get_public_key(&id), Err(DeviceError::NotPaired));
    assert_eq!(store.add_device(id.clone(), "KEY".to_string(), "Phone".to_string(), 10), AuditAction::Pair);
    assert_eq!(store.get_public_key(&id), Ok("KEY".to_string()));
    assert_eq!(store.record_auth(&id, true, 20), AuditAction::AuthOk);
    assert_eq!(store.record_auth(&id, false, 30), AuditAction::AuthFail);
    let listed = store.list_devices();
    assert_eq!(listed.len(), 1);
    assert_eq!(listed[0].last_seen, Some(20));
    assert_eq!(listed[0].paired_at, 10);
    assert_eq!(store.revoke_device(&id), Ok(AuditAction::Revoke));
    assert_eq!(store.revoke_device(&id), Err(DeviceError::NotPaired));
    assert_eq!(AuditAction::AuthFail.as_str(), "auth_fail");
    assert_eq!(AuditAction::Revoke.as_str(), "revoke");
}

#[test]
fn second_attach_is_rejected() {
    let mut s = SessionState::new(Some("test-device-001".to_string()), 100);
    let dev = "test-device-001".to_string();
    assert_eq!(s.begin_attach(&dev, 101), Ok(()));
    assert_eq!(s.begin_attach(&"other".to_string(), 102), Err(AttachError::AlreadyAttached));
    assert_eq!(s.last_attached_by(), Some(dev.clone()));
    assert_eq!(s.last_attached_at(), Some(101));
    s.end_attach(true);
    assert!(!s.attached());
    assert!(s.is_alive(false));
    assert!(!s.should_reap(false));
    assert_eq!(s.begin_attach(&dev, 103), Ok(()));
    s.end_attach(false);
    assert!(s.damaged());
    assert!(!s.is_alive(false));
    assert!(s.should_reap(false));
    assert_eq!(s.begin_attach(&dev, 104), Err(AttachError::Damaged));
}

#[test]
fn session_metadata_after_create() {
    let dev = "test-device-001".to_string();
    let mut s = SessionState::new(Some(dev.clone()), 500);
    s.begin_attach(&dev, 500).unwrap();
    s.end_attach(true);
    s.touch(700);
    assert!(s.is_alive(false));
    assert!(!s.attached());
    assert_eq!(s.created_by(), Some(dev.clone()));
    assert_eq!(s.last_attached_by(), Some(dev));
    assert_eq!(s.created_at(), 500);
    assert_eq!(s.last_activity_at(), 700);
    assert!(s.should_reap(true));
    assert!(!s.is_alive(true));
}

#[test]
fn connection_registry_evicts_previous() {
    let mut reg: ConnectionRegistry<u32> = ConnectionRegistry::new();
    assert_eq!(reg.register_connection("a".to_string(), 1), None);
    assert_eq!(reg.register_connection("b".to_string(), 2), None);
    assert_eq!(reg.register_connection("a".to_string(), 3), Some(1));
    let mut ids = reg.connected_device_ids();
    ids.sort();
    assert_eq!(ids, vec!["a".to_string(), "b".to_string()]);
    assert_eq!(reg.unregister_connection(&"a".to_string()), Some(3));
    assert_eq!(reg.unregister_connection(&"a".to_string()), None);
    assert_eq!(reg.connected_device_ids(), vec!["b".to_string()]);
}

#[test]
fn dimensions_are_clamped() {
    assert_eq!(clamp_dim(0), 1);
    assert_eq!(clamp_dim(1), 1);
    assert_eq!(clamp_dim(500), 500);
    assert_eq!(clamp_dim(501), 500);
    assert_eq!(requested_dim(None, DEFAULT_ROWS), 24);
    assert_eq!(requested_dim(None, DEFAULT_COLS), 80);
    assert_eq!(requested_dim(Some(70_000), DEFAULT_ROWS), 500);
    assert_eq!(requested_dim(Some(65_536), DEFAULT_ROWS), 500);
    assert_eq!(requested_dim(Some(0), DEFAULT_COLS), 1);
    assert_eq!(requested_dim(Some(u64::MAX), DEFAULT_COLS), 500);
    assert_eq!(requested_dim(Some(120), DEFAULT_ROWS), 120);
}

#[test]
fn window_accounting_saturates() {
    assert_eq!(window_after_send(DEFAULT_WINDOW, 15 + 1000), DEFAULT_WINDOW - 1000);
    assert_eq!(window_after_send(500, 15 + 1000), 0);
    assert_eq!(window_after_send(500, 10), 500);
    assert_eq!(window_after_send(0, 100), 0);
    assert!(wants_compression(257));
    assert!(!wants_compression(256));
}

#[test]
fn coalesce_stops_before_overflow() {
    let first = vec![1u8; 10];
    let queued = vec![vec![2u8; 20], vec![3u8; MAX_PAYLOAD - 30], vec![4u8; 1], vec![5u8; 1]];
    let (data, taken) = coalesce(&first, &queued);
    assert_eq!(taken, 2);
    assert_eq!(data.len(), MAX_PAYLOAD);
    assert_eq!(&data[..10], &[1u8; 10]);
    assert_eq!(data[10], 2);
    assert_eq!(data[MAX_PAYLOAD - 1], 3);
    let (all, n) = coalesce(&first, &vec![vec![9u8; 3]]);
    assert_eq!(n, 1);
    assert_eq!(all.len(), 13);
}

#[test]
fn inbound_frames_map_to_actions() {
    assert_eq!(inbound_action(&Frame::data(1, b"ls\n".to_vec())), InboundAction::WriteInput);
    assert_eq!(inbound_action(&Frame::resize(1, 900, 0)), InboundAction::Resize { cols: 500, rows: 1 });
    assert_eq!(inbound_action(&Frame::window_update(1, 4096)), InboundAction::SetWindow(4096));
    assert_eq!(inbound_action(&Frame::close(1)), InboundAction::Close);
    assert_eq!(inbound_action(&Frame::heartbeat(1)), InboundAction::Ignore);
    assert_eq!(inbound_action(&Frame::scrollback(0, vec![1])), InboundAction::Ignore);
}

#[test]
fn admin_ids_are_checked() {
    assert_eq!(validate_id("abc-DEF_123"), Ok(()));
    assert_eq!(validate_id(""), Err(IdError::Length));
    assert_eq!(validate_id(&"a".repeat(129)), Err(IdError::Length));
    assert_eq!(validate_id("a b"), Err(IdError::Characters));
    assert_eq!(validate_id("ü"), Err(IdError::Characters));
}

#[test]
fn certificate_fingerprint() {
    let empty = fingerprint(b"");
    assert_eq!(empty[0], 0xe3);
    assert_eq!(empty[31], 0x55);
    assert_eq!(fingerprint_base64(b""), "47DEQpj8HBSa+/TImW+5JCeuQeRkm5NMpJWZG3hSuFU=");
}

#[test]
fn session_ids_are_hex() {
    assert_eq!(session_id_from(&[0x00, 0x01, 0xab, 0xff, 0x10, 0x20, 0x7f, 0x80]), "0001abff10207f80");
}

#[test]
fn config_defaults() {
    let c = DaemonConfig::default();
    assert!(c.bind.is_none());
    assert_eq!(c.rate_limit, RateLimitConfig::default());
    assert_eq!(c.rate_limit.connection_limit, 5);
    assert_eq!(c.rate_limit.connection_window_secs, 60);
    assert_eq!(c.rate_limit.auth_failure_limit, 3);
    assert_eq!(c.rate_limit.auth_failure_window_secs, 300);
    assert_eq!(c.session, SessionConfig::default());
    assert_eq!(c.session.scrollback_bytes, 65536);
    assert_eq!(c.session.reaper_interval_secs, 5);
}

#[test]
fn control_requests_are_classified() {
    assert_eq!(control_request(&"create_session".to_string()), ControlRequest::Create);
    assert_eq!(control_request(&"attach_session".to_string()), ControlRequest::Attach);
    assert_eq!(control_request(&"list_sessions".to_string()), ControlRequest::List);
    assert_eq!(control_request(&"destroy_session".to_string()), ControlRequest::Destroy);
    assert_eq!(control_request(&"remove_device".to_string()), ControlRequest::RemoveDevice);
    assert_eq!(control_request(&"ping".to_string()), ControlRequest::Unknown);
    assert!(stays_in_control(ControlRequest::List));
    assert!(stays_in_control(ControlRequest::Unknown));
    assert!(!stays_in_control(ControlRequest::Create));
    assert!(!stays_in_control(ControlRequest::RemoveDevice));
}

#[test]
fn session_info_reports_metadata() {
    let dev = "test-device-001".to_string();
    let mut s = SessionState::new(Some(dev.clone()), 1_700_000_000);
    s.begin_attach(&dev, 1_700_000_005).unwrap();
    s.end_attach(true);
    let info = s.info("0123456789abcdef".to_string(), "/bin/sh".to_string(), false);
    assert!(info.alive);
    assert!(!info.attached);
    assert!(!info.damaged);
    assert_eq!(info.id, "0123456789abcdef");
    assert_eq!(info.shell, "/bin/sh");
    assert_eq!(info.created_at, 1_700_000_000);
    assert_eq!(info.created_by_device_id.as_deref(), Some("test-device-001"));
    assert_eq!(info.last_attached_by.as_deref(), Some("test-device-001"));
    assert_eq!(info.last_attached_at, Some(1_700_000_005));
    assert_eq!(info.last_activity_at, 1_700_000_000);
    assert!(!s.info("x".to_string(), "sh".to_string(), true).alive);
}

#[test]
fn stored_tokens_replace_loaded_ones() {
    let mut store = DeviceStore::new(PairingTokens::new());
    let loaded = PairingTokens::from_entries(vec![("abc".to_string(), 2_000), ("old".to_string(), 10)]);
    store.set_pairing_tokens(loaded);
    assert_eq!(store.pairing_tokens().entries().len(), 2);
    assert!(!store.validate_pairing_token(&"old".to_string(), 100));
    assert!(store.validate_pairing_token(&"abc".to_string(), 100));
    assert!(store.pairing_tokens().entries().is_empty());
}

#[test]
fn admin_methods_are_classified() {
    assert_eq!(ipc_method(&"status".to_string()), IpcMethod::Status);
    assert_eq!(ipc_method(&"list_sessions".to_string()), IpcMethod::ListSessions);
    assert_eq!(ipc_method(&"list_devices".to_string()), IpcMethod::ListDevices);
    assert_eq!(ipc_method(&"create_pairing".to_string()), IpcMethod::CreatePairing);
    assert_eq!(ipc_method(&"revoke_device".to_string()), IpcMethod::RevokeDevice);
    assert_eq!(ipc_method(&"destroy_session".to_string()), IpcMethod::DestroySession);
    assert_eq!(ipc_method(&"reboot".to_string()), IpcMethod::Unknown);
    assert!(line_fits(65536));
    assert!(!line_fits(65537));
}

#[test]
fn admin_requests_are_limited_per_second() {
    let mut w = RequestWindow::new(0);
    for _ in 0..20 {
        assert!(w.count_request(500));
    }
    assert!(!w.count_request(999));
    assert!(w.count_request(1000));
}

#[test]
fn port_comes_from_bind_address() {
    assert_eq!(port_of("[::]:4433"), 4433);
    assert_eq!(port_of("0.0.0.0:9000"), 9000);
    assert_eq!(port_of("127.0.0.1:+81"), 81);
    assert_eq!(port_of("host:65535"), 65535);
    assert_eq!(port_of("host:65536"), 4433);
    assert_eq!(port_of("host:"), 4433);
    assert_eq!(port_of("host:12a"), 4433);
    assert_eq!(port_of("8080"), 8080);
    assert_eq!(port_of("+"), 4433);
}

#[test]
fn restored_devices_keep_their_record() {
    let mut store = DeviceStore::new(PairingTokens::new());
    store.restore_device(phantom::devices::PairedDevice {
        device_id: "tablet".to_string(),
        public_key: "PK".to_string(),
        device_name: "Tablet".to_string(),
        paired_at: 5,
        last_seen: Some(9),
    });
    assert_eq!(store.get_public_key(&"tablet".to_string()), Ok("PK".to_string()));
    let listed = store.list_devices();
    assert_eq!(listed[0].last_seen, Some(9));
    assert_eq!(listed[0].device_name, "Tablet");
}

#[test]
fn small_bridge_predicates() {
    assert!(phantom::frame::control_message_fits(65536));
    assert!(!phantom::frame::control_message_fits(65537));
    assert!(phantom::bridge::window_open(1));
    assert!(!phantom::bridge::window_open(0));
    assert_eq!(phantom::bridge::WINDOW_WAIT_SECS, 5);
}

#[test]
fn tokens_are_url_safe_without_padding() {
    let mut tokens = PairingTokens::new();
    let t = tokens.create_pairing_token(&[0xfbu8; 32], 0);
    assert_eq!(t.len(), 43);
    assert!(t.chars().all(|c| c.is_ascii_alphanumeric() || c == '-' || c == '_'));
    assert!(t.contains('-') || t.contains('_'));
}

#[test]
fn registry_keys_are_distinct() {
    let mut reg: ConnectionRegistry<u8> = ConnectionRegistry::new();
    reg.register_connection("a".to_string(), 1);
    reg.register_connection("a".to_string(), 2);
    reg.register_connection("b".to_string(), 3);
    let ids = reg.connected_device_ids();
    assert_eq!(ids.len(), 2);
    assert_ne!(ids[0], ids[1]);
}
