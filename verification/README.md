# authpicker

An SSH authentication agent proxy that limits which keys a remote host sees: it
forwards a client's identities request to the real agent and answers with only
the keys whose comment carries a tag. Once a tagged key has been given on a
connection, later requests on that connection see every key.

- `src/` is the verified library (Verus): the message framing of the agent
  protocol (`msg`, `wire`), the key list format (`key`), the message handlers
  (`parse`) and the proxy's decisions (`types`, `client`).
- `app/` is the program around it: the Unix socket I/O with tokio.
- `tests/` runs the library on concrete messages.
