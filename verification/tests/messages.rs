use monami::shared::{str_equal, MessageType, MonamiControlMessage, MonamiMessage, MonamiStatusMessage};

fn status() -> MonamiStatusMessage {
    MonamiStatusMessage {
        hostname: "box".to_string(),
        uuid: "id-1".to_string(),
        tag: "web".to_string(),
        command: "uptime".to_string(),
        output: "up 3 days".to_string(),
        timestamp: 1_600_000_000,
    }
}

#[test]
fn str_equal_compares_characters() {
    assert!(str_equal("list-nodes", "list-nodes"));
    assert!(!str_equal("list-nodes", "list-node"));
    assert!(!str_equal("tag", "tab"));
    assert!(str_equal("", ""));
    assert!(str_equal("ü", "ü"));
    assert!(!str_equal("ü", "u"));
}

#[test]
fn parameter_lookup_finds_named_value() {
    let control = MonamiControlMessage {
        function: "list-nodes".to_string(),
        parameters: vec![("kind".to_string(), "x".to_string()), ("tag".to_string(), "web".to_string())],
    };
    assert_eq!(control.parameter("tag"), Some(&"web".to_string()));
    assert_eq!(control.parameter("kind"), Some(&"x".to_string()));
    assert_eq!(control.parameter("other"), None);
}

#[test]
fn parameter_lookup_on_empty_parameters() {
    let control = MonamiControlMessage { function: "list-nodes".to_string(), parameters: vec![] };
    assert_eq!(control.parameter("tag"), None);
}

#[test]
fn message_constructors() {
    let m = MonamiMessage::invalid();
    assert_eq!(m.message_type, MessageType::Invalid);
    assert!(m.message_status.is_none() && m.message_control.is_none());

    let m = MonamiMessage::status(status());
    assert_eq!(m.message_type, MessageType::Status);
    assert_eq!(m.message_status.as_ref().unwrap().uuid, "id-1");
    assert!(m.message_control.is_none());

    let m = MonamiMessage::control(MonamiControlMessage { function: "get-details".to_string(), parameters: vec![] });
    assert_eq!(m.message_type, MessageType::Control);
    assert!(m.message_status.is_none());
    assert_eq!(m.message_control.as_ref().unwrap().function, "get-details");
}

#[test]
fn status_message_duplicate_is_equal() {
    let s = status();
    let d = s.duplicate();
    assert_eq!(d.hostname, s.hostname);
    assert_eq!(d.uuid, s.uuid);
    assert_eq!(d.tag, s.tag);
    assert_eq!(d.command, s.command);
    assert_eq!(d.output, s.output);
    assert_eq!(d.timestamp, s.timestamp);
}
