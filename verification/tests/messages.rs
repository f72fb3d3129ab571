use authpicker::msg::{msgReplyType, msgSendType, msgType, Msg};

#[test]
fn send_type_numbers() {
    let all = [
        (11u8, msgSendType::SSH_AGENTC_REQUEST_IDENTITIES),
        (13, msgSendType::SSH_AGENTC_SIGN_REQUEST),
        (17, msgSendType::SSH_AGENTC_ADD_IDENTITY),
        (18, msgSendType::SSH_AGENTC_REMOVE_IDENTITY),
        (19, msgSendType::SSH_AGENTC_REMOVE_ALL_IDENTITIES),
        (20, msgSendType::SSH_AGENTC_ADD_SMARTCARD_KEY),
        (21, msgSendType::SSH_AGENTC_REMOVE_SMARTCARD_KEY),
        (22, msgSendType::SSH_AGENTC_LOCK),
        (23, msgSendType::SSH_AGENTC_UNLOCK),
        (25, msgSendType::SSH_AGENTC_ADD_ID_CONSTRAINED),
        (26, msgSendType::SSH_AGENTC_ADD_SMARTCARD_KEY_CONSTRAINED),
        (27, msgSendType::SSH_AGENTC_EXTENSION),
    ];
    for (b, t) in all {
        assert_eq!(msgSendType::from_repr(b), Some(t));
        assert_eq!(t.repr(), b);
    }
    for b in [0u8, 5, 6, 12, 14, 24, 28, 29, 255] {
        assert_eq!(msgSendType::from_repr(b), None);
    }
}

#[test]
fn reply_type_numbers() {
    let all = [
        (5u8, msgReplyType::SSH_AGENT_FAILURE),
        (6, msgReplyType::SSH_AGENT_SUCCESS),
        (12, msgReplyType::SSH_AGENT_IDENTITIES_ANSWER),
        (14, msgReplyType::SSH_AGENT_SIGN_RESPONSE),
        (28, msgReplyType::SSH_AGENT_EXTENSION_FAILURE),
        (29, msgReplyType::SSH_AGENT_EXTENSION_RESPONSE),
    ];
    for (b, t) in all {
        assert_eq!(msgReplyType::from_repr(b), Some(t));
        assert_eq!(t.repr(), b);
    }
    for b in [0u8, 7, 11, 13, 27, 30, 255] {
        assert_eq!(msgReplyType::from_repr(b), None);
    }
}

#[test]
fn no_number_is_both_request_and_reply() {
    for b in 0u8..=255 {
        assert!(!(msgSendType::from_repr(b).is_some() && msgReplyType::from_repr(b).is_some()));
    }
}

#[test]
fn identities_request_parses_on_the_server() {
    let raw: Vec<u8> = vec![0, 0, 0, 1, 11];
    assert!(Msg::request_is_parsable(&raw));
    let msg = Msg::server_parse_msg_recieved(&raw);
    assert_eq!(msg.length, 1);
    assert_eq!(msg.msgtype, msgType::msgSendType(msgSendType::SSH_AGENTC_REQUEST_IDENTITIES));
    assert!(msg.contents.is_empty());
}

#[test]
fn server_parse_takes_the_bytes_after_the_type() {
    let raw: Vec<u8> = vec![0, 0, 0, 9, 13, 1, 2, 3, 4, 5, 6, 7, 8, 99];
    assert!(Msg::request_is_parsable(&raw));
    let msg = Msg::server_parse_msg_recieved(&raw);
    assert_eq!(msg.length, 9);
    assert_eq!(msg.msgtype, msgType::msgSendType(msgSendType::SSH_AGENTC_SIGN_REQUEST));
    assert_eq!(msg.contents, vec![1, 2, 3, 4, 5, 6, 7, 8]);
}

#[test]
fn server_parse_of_a_short_request() {
    let raw: Vec<u8> = vec![0, 0, 0, 6, 22, 0, 0, 0, 1, 0x70];
    assert!(Msg::request_is_parsable(&raw));
    let msg = Msg::server_parse_msg_recieved(&raw);
    assert_eq!(msg.length, 6);
    assert_eq!(msg.msgtype, msgType::msgSendType(msgSendType::SSH_AGENTC_LOCK));
    assert_eq!(msg.contents, vec![0, 0, 0, 1, 0x70]);
}

#[test]
fn server_parse_length_zero_has_no_contents() {
    let raw: Vec<u8> = vec![0, 0, 0, 0, 22, 9, 9];
    assert!(Msg::request_is_parsable(&raw));
    let msg = Msg::server_parse_msg_recieved(&raw);
    assert_eq!(msg.length, 0);
    assert_eq!(msg.msgtype, msgType::msgSendType(msgSendType::SSH_AGENTC_LOCK));
    assert!(msg.contents.is_empty());
}

#[test]
fn unreadable_requests() {
    // too short
    assert!(!Msg::request_is_parsable(&vec![0, 0, 0, 1]));
    // a reply number in the type byte
    assert!(!Msg::request_is_parsable(&vec![0, 0, 0, 1, 12]));
    // a length that frames one byte more than there is
    assert!(!Msg::request_is_parsable(&vec![0, 0, 0, 5, 11, 0, 0, 0]));
    // a length that frames more than there is
    assert!(!Msg::request_is_parsable(&vec![0, 0, 0, 20, 11, 0, 0, 0]));
}

#[test]
fn client_parse_reads_the_frame() {
    let raw: Vec<u8> = vec![0, 0, 0, 3, 12, 7, 8, 9, 9];
    assert!(Msg::reply_is_parsable(&raw));
    let msg = Msg::client_parse_msg_recieved(&raw);
    assert_eq!(msg.length, 3);
    assert_eq!(msg.msgtype, msgType::msgReplyType(msgReplyType::SSH_AGENT_IDENTITIES_ANSWER));
    assert_eq!(msg.contents, vec![7, 8]);
}

#[test]
fn client_parse_of_a_bare_failure() {
    let raw: Vec<u8> = vec![0, 0, 0, 1, 5];
    assert!(Msg::reply_is_parsable(&raw));
    let msg = Msg::client_parse_msg_recieved(&raw);
    assert_eq!(msg.length, 1);
    assert_eq!(msg.msgtype, msgType::msgReplyType(msgReplyType::SSH_AGENT_FAILURE));
    assert!(msg.contents.is_empty());
}

#[test]
fn unreadable_replies() {
    assert!(!Msg::reply_is_parsable(&vec![0, 0, 0, 1]));
    // length 0
    assert!(!Msg::reply_is_parsable(&vec![0, 0, 0, 0, 5]));
    // a request number in the type byte
    assert!(!Msg::reply_is_parsable(&vec![0, 0, 0, 1, 11]));
    // a length that frames more than there is
    assert!(!Msg::reply_is_parsable(&vec![0, 0, 0, 2, 5]));
    // a length whose sum with 4 does not fit in 32 bits
    assert!(!Msg::reply_is_parsable(&vec![255, 255, 255, 254, 5]));
}

#[test]
fn create_reply_keeps_the_message() {
    let mut msg = Msg { length: 3, msgtype: msgType::msgReplyType(msgReplyType::SSH_AGENT_SUCCESS), contents: vec![1, 2] };
    msg.create_reply();
    assert_eq!(msg.length, 3);
    assert_eq!(msg.msgtype, msgType::msgReplyType(msgReplyType::SSH_AGENT_SUCCESS));
    assert_eq!(msg.contents, vec![1, 2]);
    msg.create_reply_reply(msgReplyType::SSH_AGENT_FAILURE);
    assert_eq!(msg.contents, vec![1, 2]);
}

#[test]
fn send_handlers_answer_nothing() {
    let mut msg = Msg { length: 1, msgtype: msgType::msgSendType(msgSendType::SSH_AGENTC_LOCK), contents: vec![] };
    for b in [11u8, 13, 17, 18, 19, 20, 21, 22, 23, 25, 26, 27] {
        let t = msgSendType::from_repr(b).unwrap();
        assert!(msg.create_send_reply(t).is_empty());
    }
    assert_eq!(msg.length, 1);
}
