use vstd::prelude::*;

use crate::msg::{Msg, msgReplyType, msgSendType, msgType};

verus! {

impl Msg {
    /// Splits the handling of a message by whether it is a request or a reply; neither
    /// path changes the message.
    pub fn create_reply(&mut self)
        ensures
            *final(self) == *old(self),
    {
        match &self.msgtype {
            msgType::msgSendType(_send_type) => {},
            msgType::msgReplyType(_reply_type) => {},
        }
    }

    /// Hands a request to its handler and returns the handler's answer bytes. Every
    /// handler answers with no bytes and leaves the message as it is.
    pub fn create_send_reply(&mut self, send_type: msgSendType) -> (answer: Vec<u8>)
        ensures
            answer@ == Seq::<u8>::empty(),
            *final(self) == *old(self),
    {
        match &send_type {
            msgSendType::SSH_AGENTC_REQUEST_IDENTITIES => self.identities_req_handle(),
            msgSendType::SSH_AGENTC_SIGN_REQUEST => self.sign_req_handle(),
            msgSendType::SSH_AGENTC_ADD_IDENTITY => self.add_identities_handle(),
            msgSendType::SSH_AGENTC_REMOVE_IDENTITY => self.remove_identities_handle(),
            msgSendType::SSH_AGENTC_REMOVE_ALL_IDENTITIES => self.remove_all_identities_handle(),
            msgSendType::SSH_AGENTC_ADD_SMARTCARD_KEY => self.add_smartcard_handle(),
            msgSendType::SSH_AGENTC_REMOVE_SMARTCARD_KEY => self.remove_smartcard_handle(),
            msgSendType::SSH_AGENTC_LOCK => self.lock_handle(),
            msgSendType::SSH_AGENTC_UNLOCK => self.unlock_handle(),
            msgSendType::SSH_AGENTC_ADD_ID_CONSTRAINED => self.add_id_c_handle(),
            msgSendType::SSH_AGENTC_ADD_SMARTCARD_KEY_CONSTRAINED => self.add_smartcard_c_handle(),
            msgSendType::SSH_AGENTC_EXTENSION => self.extenstion_handle(),
        }
    }

    /// Hands a reply to its handler; no handler changes the message.
    pub fn create_reply_reply(&mut self, reply_type: msgReplyType)
        ensures
            *final(self) == *old(self),
    {
        match reply_type {
            msgReplyType::SSH_AGENT_FAILURE => self.fail_handle(),
            msgReplyType::SSH_AGENT_SUCCESS => self.success_handle(),
            msgReplyType::SSH_AGENT_IDENTITIES_ANSWER => self.identities_answer_handle(),
            msgReplyType::SSH_AGENT_SIGN_RESPONSE => self.sign_response_handle(),
            msgReplyType::SSH_AGENT_EXTENSION_FAILURE => self.extension_fail(),
            msgReplyType::SSH_AGENT_EXTENSION_RESPONSE => self.extension_response_handle(),
        }
    }

    /// A request succeeded.
    fn success_handle(&self) {
    }

    /// A request failed.
    fn fail_handle(&self) {
    }

    fn identities_answer_handle(&self) {
    }

    fn sign_response_handle(&self) {
    }

    fn extension_fail(&self) {
    }

    fn extension_response_handle(&self) {
    }

    fn identities_req_handle(&self) -> (answer: Vec<u8>)
        ensures
            answer@ == Seq::<u8>::empty(),
    {
        Vec::new()
    }

    fn sign_req_handle(&self) -> (answer: Vec<u8>)
        ensures
            answer@ == Seq::<u8>::empty(),
    {
        Vec::new()
    }

    fn add_identities_handle(&self) -> (answer: Vec<u8>)
        ensures
            answer@ == Seq::<u8>::empty(),
    {
        Vec::new()
    }

    fn remove_identities_handle(&self) -> (answer: Vec<u8>)
        ensures
            answer@ == Seq::<u8>::empty(),
    {
        Vec::new()
    }

    fn remove_all_identities_handle(&self) -> (answer: Vec<u8>)
        ensures
            answer@ == Seq::<u8>::empty(),
    {
        Vec::new()
    }

    fn add_smartcard_handle(&self) -> (answer: Vec<u8>)
        ensures
            answer@ == Seq::<u8>::empty(),
    {
        Vec::new()
    }

    fn remove_smartcard_handle(&self) -> (answer: Vec<u8>)
        ensures
            answer@ == Seq::<u8>::empty(),
    {
        Vec::new()
    }

    fn lock_handle(&self) -> (answer: Vec<u8>)
        ensures
            answer@ == Seq::<u8>::empty(),
    {
        Vec::new()
    }

    fn unlock_handle(&self) -> (answer: Vec<u8>)
        ensures
            answer@ == Seq::<u8>::empty(),
    {
        Vec::new()
    }

    fn add_id_c_handle(&self) -> (answer: Vec<u8>)
        ensures
            answer@ == Seq::<u8>::empty(),
    {
        Vec::new()
    }

    fn add_smartcard_c_handle(&self) -> (answer: Vec<u8>)
        ensures
            answer@ == Seq::<u8>::empty(),
    {
        Vec::new()
    }

    fn extenstion_handle(&self) -> (answer: Vec<u8>)
        ensures
            answer@ == Seq::<u8>::empty(),
    {
        Vec::new()
    }
}

} // verus!
