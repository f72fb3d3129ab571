use authpicker::client::Client;
use authpicker::msg::{msgReplyType, msgSendType, msgType, Msg};
use authpicker::types::{Connection, Server, ServerAction};

#[test]
fn server_and_client_keep_their_socket_path() {
    let server = Server::new("/tmp/picker.sock");
    assert_eq!(server.socket_path(), "/tmp/picker.sock");
    let client = Client::new("/run/agent.sock");
    assert_eq!(client.socket_path(), "/run/agent.sock");
}

fn identities_request() -> Msg {
    Msg::server_parse_msg_recieved(&vec![0, 0, 0, 1, 11])
}

#[test]
fn identities_request_is_forwarded_with_the_tag() {
    let conn = Connection::new();
    assert!(!conn.tagged_key_given());
    match conn.on_request(&identities_request()) {
        ServerAction::Forward { request, filter } => {
            assert_eq!(request, vec![0, 0, 0, 1, 11]);
            assert_eq!(filter, Some("yubai".to_string()));
        }
        ServerAction::Refuse => panic!("identities request refused"),
    }
}

#[test]
fn other_requests_are_refused() {
    let conn = Connection::new();
    let msg = Msg { length: 1, msgtype: msgType::msgSendType(msgSendType::SSH_AGENTC_LOCK), contents: vec![] };
    assert!(matches!(conn.on_request(&msg), ServerAction::Refuse));
    let msg = Msg { length: 1, msgtype: msgType::msgReplyType(msgReplyType::SSH_AGENT_SUCCESS), contents: vec![] };
    assert!(matches!(conn.on_request(&msg), ServerAction::Refuse));
}

fn agent_reply(keys: &[(&[u8], &[u8])], nkeys: u32) -> [u8; 4096] {
    let mut body: Vec<u8> = Vec::new();
    body.push(12);
    body.extend_from_slice(&nkeys.to_be_bytes());
    for (blob, comment) in keys {
        body.extend_from_slice(&(blob.len() as u32).to_be_bytes());
        body.extend_from_slice(blob);
        body.extend_from_slice(&(comment.len() as u32).to_be_bytes());
        body.extend_from_slice(comment);
    }
    let mut buf = [0u8; 4096];
    buf[..4].copy_from_slice(&(body.len() as u32).to_be_bytes());
    buf[4..4 + body.len()].copy_from_slice(&body);
    buf
}

#[test]
fn agent_reply_is_read_and_filtered() {
    let buf = agent_reply(&[(b"k1", b"yubai"), (b"k2", b"work"), (b"k3", b"last")], 3);
    let (msg, keys) = Server::read_agent_reply(&buf.to_vec(), &Some(String::from("yubai"))).unwrap();
    assert_eq!(msg.msgtype, msgType::msgReplyType(msgReplyType::SSH_AGENT_IDENTITIES_ANSWER));
    assert_eq!(keys.len(), 1);
    assert_eq!(keys[0].commentstr, "yubai");
}

#[test]
fn agent_reply_without_filter_gives_every_key() {
    let buf = agent_reply(&[(b"k1", b"yubai"), (b"k2", b"work"), (b"k3", b"last")], 3);
    let (_, keys) = Server::read_agent_reply(&buf.to_vec(), &None).unwrap();
    let comments: Vec<&str> = keys.iter().map(|k| k.commentstr.as_str()).collect();
    assert_eq!(comments, vec!["yubai", "work", "last"]);
}

#[test]
fn unreadable_agent_replies() {
    let buf = [0u8; 4096];
    assert!(Server::read_agent_reply(&buf.to_vec(), &Some(String::from("yubai"))).is_none());
    let buf = agent_reply(&[(b"k1", b"a")], 5);
    assert!(Server::read_agent_reply(&buf.to_vec(), &None).is_none());
}

#[test]
fn every_key_is_shown_once_a_tagged_key_was_given() {
    let mut conn = Connection::new();
    let buf = agent_reply(&[(b"k1", b"work"), (b"k2", b"yubai laptop"), (b"k3", b"spare")], 3);

    // first request: filtered by the tag
    let filter = match conn.on_request(&identities_request()) {
        ServerAction::Forward { filter, .. } => filter,
        ServerAction::Refuse => panic!("refused"),
    };
    let (_, keys) = Server::read_agent_reply(&buf.to_vec(), &filter).unwrap();
    assert_eq!(keys.len(), 1);
    assert_eq!(keys[0].commentstr, "yubai laptop");
    conn.on_answer(&keys);
    assert!(conn.tagged_key_given());

    // later requests on the same connection: every key
    let filter = match conn.on_request(&identities_request()) {
        ServerAction::Forward { filter, .. } => filter,
        ServerAction::Refuse => panic!("refused"),
    };
    assert_eq!(filter, None);
    let (_, keys) = Server::read_agent_reply(&buf.to_vec(), &filter).unwrap();
    assert_eq!(keys.len(), 3);
    conn.on_answer(&Vec::new());
    assert!(conn.tagged_key_given());
}

#[test]
fn connection_stays_filtered_while_no_tagged_key_is_given() {
    let mut conn = Connection::new();
    let buf = agent_reply(&[(b"k1", b"work"), (b"k2", b"home")], 2);
    let (_, keys) = Server::read_agent_reply(&buf.to_vec(), &Some("yubai".to_string())).unwrap();
    assert!(keys.is_empty());
    conn.on_answer(&keys);
    assert!(!conn.tagged_key_given());
    match conn.on_request(&identities_request()) {
        ServerAction::Forward { filter, .. } => assert_eq!(filter, Some("yubai".to_string())),
        ServerAction::Refuse => panic!("refused"),
    }
}
