use authpicker::key::Key;
use authpicker::msg::{msgReplyType, msgSendType, msgType, Msg};

fn key_bytes(blob: &[u8], comment: &[u8]) -> Vec<u8> {
    let mut out = Vec::new();
    out.extend_from_slice(&(blob.len() as u32).to_be_bytes());
    out.extend_from_slice(blob);
    out.extend_from_slice(&(comment.len() as u32).to_be_bytes());
    out.extend_from_slice(comment);
    out
}

fn answer(nkeys: u32, keys: &[(&[u8], &[u8])]) -> Msg {
    let mut contents = Vec::new();
    contents.extend_from_slice(&nkeys.to_be_bytes());
    for (blob, comment) in keys {
        contents.extend_from_slice(&key_bytes(blob, comment));
    }
    Msg {
        length: contents.len() as u32 + 1,
        msgtype: msgType::msgReplyType(msgReplyType::SSH_AGENT_IDENTITIES_ANSWER),
        contents,
    }
}

#[test]
fn key_from_reads_blob_and_comment() {
    let buf = vec![0, 0, 0, 2, 0xAA, 0xBB, 0, 0, 0, 3, b'a', b'b', b'c', 99];
    let mut pos = 0usize;
    let key = Key::from(&buf, &mut pos);
    assert_eq!(key.keyblob(), &[0xAA, 0xBB]);
    assert_eq!(key.comment(), b"abc");
    assert_eq!(key.commentstr, "abc");
    assert_eq!(key.to_string(), "abc");
    assert_eq!(pos, 13);
    assert_eq!(key.to_bytes(), vec![0xAA, 0xBB, b'a', b'b', b'c']);
}

#[test]
fn key_from_with_an_empty_comment() {
    let buf = vec![0, 0, 0, 1, 0x07, 0, 0, 0, 0];
    let mut pos = 0usize;
    let key = Key::from(&buf, &mut pos);
    assert_eq!(key.to_bytes(), vec![0x07]);
    assert_eq!(key.commentstr, "");
    assert_eq!(pos, buf.len());
}

#[test]
fn key_from_cuts_the_comment_at_the_end() {
    let buf = vec![0, 0, 0, 1, 7, 0, 0, 0, 10, b'x', b'y'];
    let mut pos = 0usize;
    let key = Key::from(&buf, &mut pos);
    assert_eq!(key.keyblob(), &[7]);
    assert_eq!(key.comment(), b"xy");
    assert_eq!(pos, buf.len());
}

#[test]
fn key_from_starts_at_the_cursor() {
    let mut buf = vec![1, 2, 3];
    buf.extend_from_slice(&key_bytes(b"k", b"c"));
    let mut pos = 3usize;
    let key = Key::from(&buf, &mut pos);
    assert_eq!(key.keyblob(), b"k");
    assert_eq!(key.comment(), b"c");
    assert_eq!(pos, buf.len());
}

#[test]
fn invalid_utf8_comment_is_replaced() {
    let buf = key_bytes(b"k", &[b'o', 0xFF, b'k']);
    let mut pos = 0usize;
    let key = Key::from(&buf, &mut pos);
    assert_eq!(key.comment(), &[b'o', 0xFF, b'k']);
    assert_eq!(key.commentstr, "o\u{FFFD}k");
}

#[test]
fn answer_reads_every_announced_key() {
    let msg = answer(3, &[(b"k1", b"one"), (b"k2", b"two"), (b"k3", b"three")]);
    assert!(msg.answer_is_well_formed());
    let keys = msg.get_keys_from_answ();
    assert_eq!(keys.len(), 3);
    assert_eq!(keys[0].keyblob(), b"k1");
    assert_eq!(keys[0].commentstr, "one");
    assert_eq!(keys[1].keyblob(), b"k2");
    assert_eq!(keys[1].commentstr, "two");
    assert_eq!(keys[2].keyblob(), b"k3");
    assert_eq!(keys[2].commentstr, "three");
}

#[test]
fn answer_of_one_key_reads_it() {
    let msg = Msg {
        length: 14,
        msgtype: msgType::msgReplyType(msgReplyType::SSH_AGENT_IDENTITIES_ANSWER),
        contents: vec![0, 0, 0, 1, 0, 0, 0, 1, 0xAB, 0, 0, 0, 1, 0x63],
    };
    assert!(msg.answer_is_well_formed());
    let keys = msg.get_keys_from_answ();
    assert_eq!(keys.len(), 1);
    assert_eq!(keys[0].to_bytes(), vec![0xAB, 0x63]);
    assert_eq!(keys[0].commentstr, "c");
}

#[test]
fn answer_of_no_key_reads_none() {
    let msg = answer(0, &[]);
    assert!(msg.answer_is_well_formed());
    assert!(msg.get_keys_from_answ().is_empty());
}

#[test]
fn malformed_answers() {
    // no count
    let msg = Msg { length: 3, msgtype: msgType::msgReplyType(msgReplyType::SSH_AGENT_IDENTITIES_ANSWER), contents: vec![0, 0] };
    assert!(!msg.answer_is_well_formed());
    // announces more keys than it holds
    let msg = answer(3, &[(b"k1", b"one"), (b"k2", b"two")]);
    assert!(!msg.answer_is_well_formed());
    // a blob longer than the rest of the answer
    let mut msg = answer(1, &[(b"k1", b"one")]);
    msg.contents[7] = 200;
    assert!(!msg.answer_is_well_formed());
}

#[test]
fn filter_shows_keys_whose_comment_carries_the_tag() {
    let msg = answer(4, &[(b"k1", b"yubai-main"), (b"k2", b"laptop"), (b"k3", b"my yubai"), (b"k4", b"spare")]);
    let filter = String::from("yubai");
    let keys = msg.filter_shown_keys(&filter).unwrap();
    assert_eq!(keys.len(), 2);
    assert_eq!(keys[0].commentstr, "yubai-main");
    assert_eq!(keys[0].keyblob(), b"k1");
    assert_eq!(keys[1].commentstr, "my yubai");
    assert_eq!(keys[1].keyblob(), b"k3");
}

#[test]
fn filter_shows_a_tagged_last_key() {
    let msg = answer(2, &[(b"k1", b"laptop"), (b"k2", b"yubai")]);
    let keys = msg.filter_shown_keys(&String::from("yubai")).unwrap();
    assert_eq!(keys.len(), 1);
    assert_eq!(keys[0].keyblob(), b"k2");
}

#[test]
fn filter_of_a_tagged_first_key() {
    let mut contents: Vec<u8> = vec![0, 0, 0, 2, 0, 0, 0, 1, 0xAB, 0, 0, 0, 5];
    contents.extend_from_slice(b"yubai");
    contents.extend_from_slice(&[0, 0, 0, 1, 0xCD, 0, 0, 0, 1]);
    contents.extend_from_slice(b"x");
    let msg = Msg { length: 29, msgtype: msgType::msgReplyType(msgReplyType::SSH_AGENT_IDENTITIES_ANSWER), contents };
    let keys = msg.filter_shown_keys(&"yubai".to_string()).unwrap();
    assert_eq!(keys.len(), 1);
    assert_eq!(keys[0].commentstr, "yubai");
    let mut bytes = vec![0xAB];
    bytes.extend_from_slice(b"yubai");
    assert_eq!(keys[0].to_bytes(), bytes);
}

#[test]
fn filter_keeps_order_of_shown_keys() {
    let msg = answer(5, &[(b"k1", b"xa"), (b"k2", b"b"), (b"k3", b"xc"), (b"k4", b"dx"), (b"k5", b"e")]);
    let keys = msg.filter_shown_keys(&String::from("x")).unwrap();
    let comments: Vec<&str> = keys.iter().map(|k| k.commentstr.as_str()).collect();
    assert_eq!(comments, vec!["xa", "xc", "dx"]);
}

#[test]
fn empty_filter_shows_every_key() {
    let msg = answer(3, &[(b"k1", b"a"), (b"k2", b"b"), (b"k3", b"c")]);
    assert_eq!(msg.filter_shown_keys(&String::new()).unwrap().len(), 3);
}

#[test]
fn filter_that_no_comment_contains_shows_none() {
    let msg = answer(3, &[(b"k1", b"a"), (b"k2", b"b"), (b"k3", b"c")]);
    assert!(msg.filter_shown_keys(&String::from("zzz")).unwrap().is_empty());
}

fn identities_request() -> Msg {
    Msg { length: 1, msgtype: msgType::msgSendType(msgSendType::SSH_AGENTC_REQUEST_IDENTITIES), contents: vec![] }
}

#[test]
fn server_builds_the_identities_answer() {
    let agent = Msg {
        length: 14,
        msgtype: msgType::msgReplyType(msgReplyType::SSH_AGENT_IDENTITIES_ANSWER),
        contents: vec![0, 0, 0, 1, 0, 0, 0, 1, 0xAB, 0, 0, 0, 1, 0x63],
    };
    let keys = agent.get_keys_from_answ();
    let reply = identities_request().server_build_msg(keys).unwrap();
    assert_eq!(reply, vec![0, 0, 0, 15, 12, 0, 0, 0, 1, 0, 0, 0, 1, 0xAB, 0, 0, 0, 1, 0x63]);
}

#[test]
fn server_answer_with_no_keys() {
    let reply = identities_request().server_build_msg(Vec::new()).unwrap();
    assert_eq!(reply, vec![0, 0, 0, 5, 12, 0, 0, 0, 0]);
}

#[test]
fn built_answer_reads_back_as_its_keys() {
    let agent = answer(3, &[(b"AB", b"c1"), (b"D", b""), (b"zz", b"yubai")]);
    let keys = agent.get_keys_from_answ();
    let reply = identities_request().server_build_msg(keys).unwrap();
    assert!(Msg::reply_is_parsable(&reply));
    let back = Msg::client_parse_msg_recieved(&reply);
    assert_eq!(back.length as usize, reply.len() - 4);
    assert_eq!(back.msgtype, msgType::msgReplyType(msgReplyType::SSH_AGENT_IDENTITIES_ANSWER));
    assert!(back.answer_is_well_formed());
    let read = back.get_keys_from_answ();
    let got: Vec<(Vec<u8>, String)> = read.iter().map(|k| (k.to_bytes(), k.commentstr.clone())).collect();
    assert_eq!(
        got,
        vec![
            (b"ABc1".to_vec(), "c1".to_string()),
            (b"D".to_vec(), "".to_string()),
            (b"zzyubai".to_vec(), "yubai".to_string()),
        ]
    );
}

#[test]
fn client_frames_a_reply() {
    let msg = Msg { length: 3, msgtype: msgType::msgReplyType(msgReplyType::SSH_AGENT_SUCCESS), contents: vec![7, 8] };
    assert_eq!(msg.client_build_msg().unwrap(), vec![0, 0, 0, 3, 6, 7, 8]);
}
