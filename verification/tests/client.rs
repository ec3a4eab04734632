use monami::client::{command_output, MonamiClient};
use monami::shared::MessageType;

fn client(hostname: Option<String>) -> MonamiClient {
    MonamiClient::with_identity(
        "0f8fad5b-d9cb-469f-a165-70867728950e".to_string(),
        hostname,
        "127.0.0.1".to_string(),
        "12345".to_string(),
        "minamo".to_string(),
        10,
        "uptime".to_string(),
        "web".to_string(),
    )
}

#[test]
fn new_client_has_hyphenated_v4_id() {
    let c = MonamiClient::new(
        "127.0.0.1".to_string(),
        "12345".to_string(),
        "minamo".to_string(),
        10,
        "uptime".to_string(),
        "web".to_string(),
    );
    let id: Vec<char> = c.id().chars().collect();
    assert_eq!(id.len(), 36);
    for (i, ch) in id.iter().enumerate() {
        if i == 8 || i == 13 || i == 18 || i == 23 {
            assert_eq!(*ch, '-');
        } else {
            assert!(ch.is_ascii_hexdigit() && !ch.is_ascii_uppercase());
        }
    }
    assert_eq!(id[14], '4');
    assert!("89ab".contains(id[19]));
    assert_eq!(c.host(), "127.0.0.1");
    assert_eq!(c.port(), "12345");
    assert_eq!(c.secret(), "minamo");
    assert_eq!(c.interval(), 10);
    assert_eq!(c.command(), "uptime");
    assert_eq!(c.tag(), "web");
    assert!(!c.hostname().is_empty());
}

#[test]
fn two_clients_get_different_ids() {
    let a = MonamiClient::new("h".to_string(), "1".to_string(), "s".to_string(), 1, "c".to_string(), "t".to_string());
    let b = MonamiClient::new("h".to_string(), "1".to_string(), "s".to_string(), 1, "c".to_string(), "t".to_string());
    assert_ne!(a.id(), b.id());
}

#[test]
fn missing_hostname_becomes_dash() {
    assert_eq!(client(None).hostname(), "-");
    assert_eq!(client(Some("box".to_string())).hostname(), "box");
}

#[test]
fn status_report_carries_client_fields() {
    let c = client(Some("box".to_string()));
    let m = c.status_report("up 3 days".to_string(), 1_600_000_000);
    assert_eq!(m.message_type, MessageType::Status);
    assert!(m.message_control.is_none());
    let s = m.message_status.unwrap();
    assert_eq!(s.hostname, "box");
    assert_eq!(s.uuid, "0f8fad5b-d9cb-469f-a165-70867728950e");
    assert_eq!(s.tag, "web");
    assert_eq!(s.command, "uptime");
    assert_eq!(s.output, "up 3 days");
    assert_eq!(s.timestamp, 1_600_000_000);
}

#[test]
fn command_output_is_trimmed_text() {
    assert_eq!(command_output(b"  up 3 days\n"), "up 3 days");
    assert_eq!(command_output(b""), "");
    assert_eq!(command_output(b"\t\n "), "");
    assert_eq!(command_output("line one\nline two\n".as_bytes()), "line one\nline two");
}

#[test]
fn command_output_replaces_invalid_utf8() {
    assert_eq!(command_output(b"ok \xff\n"), "ok \u{FFFD}");
}
