use monami::server::{MonamiServer, ServerReply};
use monami::shared::{MessageType, MonamiControlMessage, MonamiMessage, MonamiStatusMessage};
use monami::utils::{aes_encrypt, CipherError};

fn report(uuid: &str, tag: &str, output: &str) -> MonamiMessage {
    MonamiMessage::status(MonamiStatusMessage {
        hostname: format!("host-{}", uuid),
        uuid: uuid.to_string(),
        tag: tag.to_string(),
        command: "uptime".to_string(),
        output: output.to_string(),
        timestamp: 0,
    })
}

fn control(function: &str, parameters: Vec<(&str, &str)>) -> MonamiMessage {
    MonamiMessage::control(MonamiControlMessage {
        function: function.to_string(),
        parameters: parameters.into_iter().map(|(k, v)| (k.to_string(), v.to_string())).collect(),
    })
}

fn uuids(server: &MonamiServer) -> Vec<String> {
    server.nodes().iter().map(|n| n.message().uuid.clone()).collect()
}

#[test]
fn new_server_is_empty() {
    let server = MonamiServer::new("minamo".to_string(), 30);
    assert!(server.nodes().is_empty());
    assert_eq!(server.secret(), "minamo");
    assert_eq!(server.expiration(), 30);
}

#[test]
fn report_registers_node() {
    let mut server = MonamiServer::new("minamo".to_string(), 30);
    let reply = server.handle_message(report("a", "web", "up"), "10.0.0.1".to_string(), 1000);
    assert!(matches!(reply, ServerReply::Accepted));
    assert_eq!(server.nodes().len(), 1);
    let node = &server.nodes()[0];
    assert_eq!(node.message().uuid, "a");
    assert_eq!(node.message().output, "up");
    assert_eq!(node.address(), "10.0.0.1");
    assert_eq!(node.expires_at(), 1030);
}

#[test]
fn repeated_report_refreshes_expiry_only() {
    let mut server = MonamiServer::new("minamo".to_string(), 30);
    server.handle_message(report("a", "web", "first"), "10.0.0.1".to_string(), 1000);
    server.handle_message(report("a", "db", "second"), "10.0.0.9".to_string(), 1010);
    assert_eq!(server.nodes().len(), 1);
    let node = &server.nodes()[0];
    assert_eq!(node.message().output, "first");
    assert_eq!(node.message().tag, "web");
    assert_eq!(node.address(), "10.0.0.1");
    assert_eq!(node.expires_at(), 1040);
}

#[test]
fn report_drops_expired_nodes() {
    let mut server = MonamiServer::new("minamo".to_string(), 30);
    server.handle_message(report("a", "web", "x"), "10.0.0.1".to_string(), 1000);
    server.handle_message(report("b", "web", "y"), "10.0.0.2".to_string(), 1020);
    assert_eq!(uuids(&server), vec!["a", "b"]);
    // a expires at 1030: a report at 1030 drops it (expiry must be after now)
    server.handle_message(report("c", "db", "z"), "10.0.0.3".to_string(), 1030);
    assert_eq!(uuids(&server), vec!["b", "c"]);
}

#[test]
fn live_nodes_keep_their_order() {
    let mut server = MonamiServer::new("minamo".to_string(), 100);
    for (i, id) in ["a", "b", "c"].iter().enumerate() {
        server.handle_message(report(id, "web", "x"), "10.0.0.1".to_string(), 1000 + i as i64);
    }
    server.handle_message(report("b", "web", "x"), "10.0.0.1".to_string(), 1050);
    assert_eq!(uuids(&server), vec!["a", "b", "c"]);
    assert_eq!(server.nodes()[1].expires_at(), 1150);
}

#[test]
fn zero_expiration_keeps_nothing() {
    let mut server = MonamiServer::new("minamo".to_string(), 0);
    let reply = server.handle_message(report("a", "web", "x"), "10.0.0.1".to_string(), 1000);
    assert!(matches!(reply, ServerReply::Accepted));
    assert!(server.nodes().is_empty());
}

#[test]
fn invalid_message_is_rejected() {
    let mut server = MonamiServer::new("minamo".to_string(), 30);
    server.handle_message(report("a", "web", "x"), "10.0.0.1".to_string(), 1000);
    let reply = server.handle_message(MonamiMessage::invalid(), "10.0.0.1".to_string(), 5000);
    assert!(matches!(reply, ServerReply::Rejected));
    assert_eq!(uuids(&server), vec!["a"]);
}

#[test]
fn get_details_lists_every_node() {
    let mut server = MonamiServer::new("minamo".to_string(), 30);
    server.handle_message(report("a", "web", "x"), "10.0.0.1".to_string(), 1000);
    server.handle_message(report("b", "db", "y"), "10.0.0.2".to_string(), 1001);
    match server.handle_message(control("get-details", vec![]), "10.0.0.3".to_string(), 9999) {
        ServerReply::Details(nodes) => {
            let ids: Vec<&str> = nodes.iter().map(|n| n.message().uuid.as_str()).collect();
            assert_eq!(ids, vec!["a", "b"]);
            assert_eq!(nodes[1].address(), "10.0.0.2");
        },
        other => panic!("unexpected reply {:?}", other),
    }
    // control requests expire nothing
    assert_eq!(uuids(&server), vec!["a", "b"]);
}

#[test]
fn list_nodes_filters_by_tag() {
    let mut server = MonamiServer::new("minamo".to_string(), 30);
    server.handle_message(report("a", "web", "x"), "10.0.0.1".to_string(), 1000);
    server.handle_message(report("b", "db", "y"), "10.0.0.2".to_string(), 1001);
    server.handle_message(report("c", "web", "z"), "10.0.0.3".to_string(), 1002);
    match server.handle_message(control("list-nodes", vec![("tag", "web")]), "h".to_string(), 1003) {
        ServerReply::Listing(nodes) => {
            let ids: Vec<&str> = nodes.iter().map(|n| n.message().uuid.as_str()).collect();
            assert_eq!(ids, vec!["a", "c"]);
        },
        other => panic!("unexpected reply {:?}", other),
    }
    match server.handle_message(control("list-nodes", vec![("tag", "none")]), "h".to_string(), 1003) {
        ServerReply::Listing(nodes) => assert!(nodes.is_empty()),
        other => panic!("unexpected reply {:?}", other),
    }
}

#[test]
fn list_nodes_without_tag_lists_all() {
    let mut server = MonamiServer::new("minamo".to_string(), 30);
    server.handle_message(report("a", "web", "x"), "10.0.0.1".to_string(), 1000);
    server.handle_message(report("b", "db", "y"), "10.0.0.2".to_string(), 1001);
    match server.handle_message(control("list-nodes", vec![("other", "web")]), "h".to_string(), 1003) {
        ServerReply::Listing(nodes) => assert_eq!(nodes.len(), 2),
        other => panic!("unexpected reply {:?}", other),
    }
}

#[test]
fn unknown_function_is_unsupported() {
    let mut server = MonamiServer::new("minamo".to_string(), 30);
    let reply = server.handle_message(control("reboot", vec![]), "h".to_string(), 1);
    assert!(matches!(reply, ServerReply::Unsupported));
}

#[test]
fn open_request_with_shared_secret() {
    let server = MonamiServer::new("minamo".to_string(), 30);
    let sealed = aes_encrypt("{\"message_type\":\"Invalid\"}", "minamo").unwrap();
    assert_eq!(server.open_request(&sealed), Some(Ok("{\"message_type\":\"Invalid\"}".to_string())));
    assert_eq!(server.open_request("@@@"), Some(Err(CipherError::InvalidLength)));
    assert_eq!(server.open_request("rlqzb1H5OHthQVSmrB4NZA=="), None);
}

#[test]
fn message_type_is_kept() {
    assert_eq!(report("a", "t", "o").message_type, MessageType::Status);
}

#[test]
fn stored_report_survives_a_run_of_messages() {
    let mut server = MonamiServer::new("minamo".to_string(), 30);
    server.handle_message(report("a", "web", "first"), "10.0.0.1".to_string(), 1000);
    server.handle_message(control("get-details", vec![]), "h".to_string(), 1005);
    server.handle_message(report("b", "db", "other"), "10.0.0.2".to_string(), 1010);
    server.handle_message(MonamiMessage::invalid(), "h".to_string(), 1015);
    server.handle_message(report("a", "db", "second"), "10.0.0.9".to_string(), 1020);
    server.handle_message(report("a", "x", "third"), "10.0.0.7".to_string(), 1045);
    let node = server.nodes().iter().find(|n| n.message().uuid == "a").unwrap();
    assert_eq!(node.message().output, "first");
    assert_eq!(node.message().tag, "web");
    assert_eq!(node.address(), "10.0.0.1");
    assert_eq!(node.expires_at(), 1075);
    // b expired at 1040 and is gone; ids stay distinct
    assert_eq!(uuids(&server), vec!["a"]);
}

#[test]
fn expired_client_registers_afresh() {
    let mut server = MonamiServer::new("minamo".to_string(), 30);
    server.handle_message(report("a", "web", "first"), "10.0.0.1".to_string(), 1000);
    server.handle_message(report("b", "db", "other"), "10.0.0.2".to_string(), 1040);
    server.handle_message(report("a", "db", "again"), "10.0.0.9".to_string(), 1041);
    let node = server.nodes().iter().find(|n| n.message().uuid == "a").unwrap();
    assert_eq!(node.message().output, "again");
    assert_eq!(node.address(), "10.0.0.9");
}
