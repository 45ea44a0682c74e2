# Tunly

A self-hosted HTTP tunnel: it exposes servers on a local machine under subdomains of a public one,
over a single WebSocket connection per tunnel. What server and client decide is verified with Verus.

- `src/` is the verified library: who may open a tunnel and under which name, which tunnel a request
  is for, how a request and its answer travel, what a client does with what it receives, and when it
  connects again. `src/laws.rs` states what holds of a tunnel as a whole, `src/session.rs` of a
  client over the whole of its connection, and `src/service.rs` of a server with many requests at a
  time.
- `app/` is the program around it: sockets, HTTP, JSON, the command line and timers. It reports what
  happened to the library and does what the library says.
- `tests/` runs the library.

## Server

    TUNLY_DOMAIN=yourdomain.com TUNLY_TOKEN=mysecrettoken PORT=3010 tunly server

## Client

    tunly http 3000 --server wss://yourdomain.com/tunnel --token mysecrettoken
    tunly http 3000 --server wss://yourdomain.com/tunnel --token mysecrettoken --name myapp
    tunly http 3000:api 4000:admin --server wss://yourdomain.com/tunnel --token mysecrettoken

A tunnel named `myapp` is reached at `https://myapp.yourdomain.com`.
