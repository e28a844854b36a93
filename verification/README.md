# mc-transfer-gateway

A gateway for Minecraft Java clients. It looks at the host that a client asks for, at the
region and provider of its address, and at lists of VPN, Tor and spam addresses; it then
picks a line and sends the client there with a transfer packet. It is no proxy: the target
has to be reachable by the client itself, and to accept transfers.

It runs on Unix: paths are taken apart at slashes.

## Layout

- `src/` is the library. Every function in it is verified with Verus against the contract
  that it states; the few calls into other crates stand behind small functions whose
  contracts are trusted, each with a comment that says what is claimed of the call.
- `app/` is the program: sockets, files, timers, name resolution, downloads and the log. It
  asks the library what to do next, does it, and reports what came of it.
- `tests/` runs the library on concrete values.

The modules of the library, from the bottom up:

- `text`, `names`, `path`, `problem`: characters, maps by name, slash-separated paths, and
  reports on what went wrong;
- `varint`, `packet`, `protocol`, `chat`, `json`: what travels between client and gateway;
- `address`, `network`, `trie`, `security`: addresses, blocks of addresses, and who is
  turned away;
- `ip2region`, `matching`, `balance`, `routing`, `vhosts`, `dns`: where a client is and
  where it is sent;
- `config`, `url`, `document`, `language`, `templates`: the configuration and the messages;
- `login`, `status`, `server`: what happens on a connection;
- `runtime`, `watch`, `download`, `bootstrap`: how the state is loaded, reloaded and kept up
  to date.

Laws that span several functions are public proof functions whose names begin with
`lemma_`; their comments state them in words.
