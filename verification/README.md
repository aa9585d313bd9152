# moon_lsp

A language server client: the framing, the position arithmetic, what is asked of a server and what
its answers mean, and a registry of the servers running for each workspace. Every decision it makes
is verified with [Verus](https://github.com/verus-lang/verus).

An editor that wants go-to-definition and completions needs a client, and a client is more work
than it sounds:

- find the server on the user's own `PATH` and start it in the repo
- walk it through `initialize` / `initialized`, and read back what it *agreed* to rather than what
  it was asked for
- keep it fed with the whole text of every open document
- know when it is actually ready, which is not when it answered `initialize`
- ask about a position counted in the units that server agreed to. `héllo` is five characters, six
  bytes and five UTF-16 units, so a client that hands a UTF-16 server its byte columns points at the
  wrong place on every line holding anything but ASCII.

## Layout

`src/` decides, and is verified:

| module | what it says |
| --- | --- |
| `framing` | the envelope messages travel in: what goes out reads back, in order, however the bytes arrive, and nothing is read past what breaks it |
| `protocol::positions` | columns, between an editor's bytes and a server's units |
| `protocol::uris` | paths as `file://` URIs, and back |
| `protocol::params` | what a server is asked and told |
| `protocol::wire` | what a server answered, read with `serde_json` into the shapes of `lsp_types` |
| `protocol::answers`, `places`, `changes`, `progress` | what the answers mean |
| `edits` | edits put into a text, all of them or none, and never two over the same text |
| `languages` | which server serves which file, and where it is installed |
| `process` | one server: its readiness, its work, its documents, the questions waiting for it |
| `registry` | the servers of each workspace, and what is started, told and asked |
| `json`, `lines`, `order`, `paths`, `text`, `payload`, `error` | what the rest is written with |

The laws that span several functions are public proof functions, each named `law_...` beside what it
is about.

`app/` does what is decided: it runs the processes and their pipes, waits, reads files, and carries
the answers over a wire of the caller's own with `serde`.

## What is not proved

What a JSON text is read as is `serde_json`'s and `lsp_types`'s business. Each reading in
`protocol::wire` is given a name, and everything said about an answer is said over that name. The
few functions of the standard library that Verus has no specification for are wrapped in `text`.

## License

MIT
