# http_gateway

A small, tree-structured HTTP router for building REST APIs, verified with Verus.

An API is described as a tree of `MakeRoute` nodes; the router walks the URL path
one segment at a time, running middleware, routes, and method leaves. JSON bodies,
`Authorization` handling, and transactional middleware are provided by extension
traits.

## Layout

- `src/router.rs`: declarations, nodes and the helpers to declare with;
  `src/router/walk.rs` decides what is done for a request, `src/router/laws.rs`
  states what holds of every tree, `src/router/auth.rs` and `src/router/ext.rs` are
  the extensions.
- `src/handler.rs`: requests, responses, bodies and the case-insensitive keys;
  `src/fields.rs`: headers and query parameters.
- `src/uri_subject.rs`: paths and queries; `src/server.rs`: request and response
  heads, frames, the address to listen on.
- `src/text.rs`, `src/json.rs`, `src/ids.rs`, `src/buffers.rs`, `src/http.rs`: texts,
  JSON documents, UUIDs, byte buffers, methods and status codes.
- `src/echo.rs`, `src/files.rs`, `src/todos.rs`: three small servers.
- `app/`: the part that does input and output, around the library.

## Running

A server reads its configuration from the environment (a `.env` file is loaded if
present) and needs a `LISTEN` URL:

```sh
LISTEN=http://0.0.0.0:8080 http_gateway todos
```

The first argument is `echo`, `files` or `todos`.
