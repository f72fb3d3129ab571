use vstd::prelude::*;

use crate::key::Key;
use crate::msg::{
    Msg, answer_keys, answer_well_formed, client_contents, client_parse_ok, frame_length,
    contains_substring, key_shown, key_views, msgReplyType, msgSendType, msgType, reply_type_of, shown_keys,
    str_contains,
};

verus! {

/// The proxy that clients connect to in place of the agent.
pub struct Server {
    socket_path: String,
}

impl View for Server {
    type V = Seq<char>;

    /// The path of the socket that the server listens on.
    closed spec fn view(&self) -> Seq<char> {
        self.socket_path@
    }
}

/// What the server does with a request.
pub enum ServerAction {
    /// Send `request` to the agent and show the client the keys of the answer: with a
    /// `filter`, only the keys whose comment carries it; without, every key.
    Forward { request: Vec<u8>, filter: Option<String> },
    /// The request is not one that the server answers.
    Refuse,
}

/// The request for the agent's identities: length 1, then the request's type byte.
pub open spec fn identities_request() -> Seq<u8> {
    seq![0u8, 0u8, 0u8, 1u8, 11u8]
}

/// The tag that the server's keys carry in their comment.
pub open spec fn server_filter() -> Seq<char> {
    "yubai"@
}

/// The keys that a forwarded answer gives the client: with a filter, the keys tagged
/// with it; without, every key that was read.
pub open spec fn given_keys(contents: Seq<u8>, filter: Option<Seq<char>>) -> Seq<crate::key::KeyView> {
    match filter {
        Some(f) => shown_keys(answer_keys(contents), f),
        None => answer_keys(contents),
    }
}

/// Some key of `keys` carries the server's tag in its comment.
pub open spec fn gives_tagged_key(keys: Seq<crate::key::KeyView>) -> bool {
    exists|i: int| 0 <= i < keys.len() && contains_substring(#[trigger] keys[i].commentstr, server_filter())
}

/// A filtered answer gives the client a tagged key exactly when the agent's answer holds
/// one, so the first such answer on a connection switches it to showing every key.
pub proof fn lemma_filtered_answer_gives_tagged_key(contents: Seq<u8>)
    ensures
        gives_tagged_key(given_keys(contents, Some(server_filter())))
            <==> gives_tagged_key(answer_keys(contents)),
{
    let all = answer_keys(contents);
    let shown = shown_keys(all, server_filter());
    crate::msg::lemma_shown_keys_exact(all, server_filter());
    if gives_tagged_key(all) {
        let i = choose|i: int| 0 <= i < all.len() && key_shown(#[trigger] all[i], server_filter());
        assert(shown.contains(all[i]));
        let j = choose|j: int| 0 <= j < shown.len() && shown[j] == all[i];
        assert(key_shown(shown[j], server_filter()));
    }
    if gives_tagged_key(shown) {
        let j = choose|j: int| 0 <= j < shown.len() && key_shown(#[trigger] shown[j], server_filter());
        assert(all.contains(shown[j]));
        let i = choose|i: int| 0 <= i < all.len() && all[i] == shown[j];
        assert(key_shown(all[i], server_filter()));
    }
}

/// What the server remembers of one client connection: whether a key tagged with the
/// server's tag has been given on it. Until then only tagged keys are shown; from then
/// on every key is.
pub struct Connection {
    tagged_key_given: bool,
}

impl View for Connection {
    type V = bool;

    /// Whether a tagged key has been given on the connection.
    closed spec fn view(&self) -> bool {
        self.tagged_key_given
    }
}

impl Connection {
    /// A new connection, on which no key has been given.
    pub fn new() -> (conn: Connection)
        ensures
            conn@ == false,
    {
        Connection { tagged_key_given: false }
    }

    /// Whether a tagged key has been given on the connection.
    pub fn tagged_key_given(&self) -> (given: bool)
        ensures
            given == self@,
    {
        self.tagged_key_given
    }

    /// Decides what to do with a parsed request: a request for identities is forwarded
    /// to the agent as an identities request, filtered by the server's tag until a
    /// tagged key has been given on the connection and unfiltered after; any other
    /// request is refused.
    pub fn on_request(&self, msg: &Msg) -> (action: ServerAction)
        ensures
            msg.msgtype == msgType::msgSendType(msgSendType::SSH_AGENTC_REQUEST_IDENTITIES)
                ==> (action matches ServerAction::Forward { request, filter } && request@
                == identities_request() && (if self@ {
                filter is None
            } else {
                filter matches Some(f) && f@ == server_filter()
            })),
            msg.msgtype != msgType::msgSendType(msgSendType::SSH_AGENTC_REQUEST_IDENTITIES)
                ==> action is Refuse,
    {
        match &msg.msgtype {
            msgType::msgSendType(send_type) => match send_type {
                msgSendType::SSH_AGENTC_REQUEST_IDENTITIES => {
                    let request: Vec<u8> = vec![0u8, 0u8, 0u8, 1u8, 11u8];
                    assert(request@ =~= identities_request());
                    if self.tagged_key_given {
                        ServerAction::Forward { request, filter: None }
                    } else {
                        let filter = "yubai".to_owned();
                        proof {
                            reveal_strlit("yubai");
                        }
                        ServerAction::Forward { request, filter: Some(filter) }
                    }
                },
                _ => ServerAction::Refuse,
            },
            msgType::msgReplyType(_) => ServerAction::Refuse,
        }
    }

    /// Records the keys that a forwarded answer gave the client: once one of them
    /// carries the server's tag, the connection counts as having been given a tagged
    /// key, and stays so.
    pub fn on_answer(&mut self, given: &Vec<Key>)
        ensures
            final(self)@ == (old(self)@ || gives_tagged_key(key_views(given@))),
    {
        let tag = "yubai".to_owned();
        proof {
            reveal_strlit("yubai");
        }
        let mut found = self.tagged_key_given;
        let ghost was = self.tagged_key_given;
        let mut i: usize = 0;
        while i < given.len()
            invariant
                i <= given@.len(),
                tag@ == server_filter(),
                found == (was || exists|j: int|
                    0 <= j < i && contains_substring(
                        #[trigger] key_views(given@)[j].commentstr,
                        server_filter(),
                    )),
            decreases given@.len() - i,
        {
            let key = &given[i];
            let tagged = str_contains(key.comment_str(), &tag);
            assert(key_views(given@)[i as int] == key@);
            if tagged {
                found = true;
            }
            i += 1;
        }
        self.tagged_key_given = found;
    }
}

impl Server {
    /// A server for the socket at `sock_path`.
    pub fn new(sock_path: &str) -> (server: Server)
        ensures
            server@ == sock_path@,
    {
        Server { socket_path: sock_path.to_owned() }
    }

    /// The path of the socket.
    pub fn socket_path(&self) -> (path: &str)
        ensures
            path@ == self@,
    {
        self.socket_path.as_str()
    }

    /// Reads the agent's answer to a forwarded request and keeps the keys that the
    /// client may see: with a `filter`, the keys whose comment carries it; without,
    /// every key. `None` where the answer cannot be read: its frame, its type byte or
    /// its key list is malformed.
    pub fn read_agent_reply(reply: &Vec<u8>, filter: &Option<String>) -> (read: Option<(Msg, Vec<Key>)>)
        ensures
            read is Some <==> client_parse_ok(reply@) && answer_well_formed(client_contents(reply@)),
            read matches Some((msg, keys)) ==> {
                &&& msg.length == frame_length(reply@)
                &&& msg.msgtype == msgType::msgReplyType(reply_type_of(reply@[4])->0)
                &&& msg.contents@ == client_contents(reply@)
                &&& key_views(keys@) == given_keys(
                    client_contents(reply@),
                    match filter {
                        Some(f) => Some(f@),
                        None => None,
                    },
                )
            },
    {
        if !Msg::reply_is_parsable(reply) {
            return None;
        }
        let msg = Msg::client_parse_msg_recieved(reply);
        if !msg.answer_is_well_formed() {
            return None;
        }
        match filter {
            Some(f) => match msg.filter_shown_keys(f) {
                Ok(keys) => Some((msg, keys)),
                Err(_) => None,
            },
            None => {
                let keys = msg.get_keys_from_answ();
                Some((msg, keys))
            },
        }
    }
}

} // verus!
