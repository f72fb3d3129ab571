use vstd::prelude::*;

verus! {

/// A client of an agent socket.
pub struct Client {
    socket_path: String,
}

impl View for Client {
    type V = Seq<char>;

    /// The path of the agent socket.
    closed spec fn view(&self) -> Seq<char> {
        self.socket_path@
    }
}

impl Client {
    /// A client for the agent socket at `sock_path`.
    pub fn new(sock_path: &str) -> (client: Client)
        ensures
            client@ == sock_path@,
    {
        Client { socket_path: sock_path.to_owned() }
    }

    /// The path of the agent socket.
    pub fn socket_path(&self) -> (path: &str)
        ensures
            path@ == self@,
    {
        self.socket_path.as_str()
    }
}

} // verus!
