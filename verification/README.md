# ts3

A verified codec for the TeamSpeak 3 server query protocol.

`src/` is the library, with its contracts and proofs:

- `escape` — escaping and unescaping of values (`\s` for a space, `\p` for `|`, …), with the
  proof that decoding what was escaped gives the text back;
- `number` — decimal integers: the lenient prefix reading that `Decode` does, std-style
  `from_str` reading, and decimal writing, with read-back proofs;
- `codec` — the `Decode` and `Serialize` traits and their impls for strings, integers,
  booleans, lists and error lines;
- `list`, `command` — `|`-separated lists and command building;
- `event`, `client` — server events, raw responses and client information, and the routing of
  an event to its handler;
- `split` — splitting and joining on separators.

`app/` holds what runs around it: the asynchronous event handler trait, the dispatch of events
onto tasks, and `Display` for the errors.
