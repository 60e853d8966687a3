# cow

A light HTTP server: it serves files from a root directory and forwards
requests to an upstream server, choosing between the two by the regular
expressions of the `[[server]]` locations in `cow.toml`.

- `src/` is the library, verified with Verus: configuration lookups
  (`config`), location patterns (`pattern`, over the `regex` crate), routing
  (`routing`), request paths and media types (`paths`), the static-file
  steps (`static_files`), header filtering and request forwarding
  (`headers`, `proxy`), responses and errors (`response`, `error`).
- `app/` is the executable: command line, configuration file, logging, and
  the hyper server and client that carry out what the library decides.
- `tests/` runs the library on concrete requests.

## Plain values in place of `HeaderMap` and `HashMap`

Header maps reach the server from hyper's network code and leave through it,
so `app/` converts them at that edge: a `HeaderMap` becomes a list of
(name, value) pairs in the order the map yields them, repeated names
included, and a list becomes a map again by appending each pair. The
library filters and extends such lists. Keeping `http::HeaderMap` itself
behind declared types would need its names and values handed back in as
`HeaderName` and `HeaderValue` built from bytes, and the crate does not
guarantee that values already in a map pass that check again, so no
contract for such a wrapper could be stated truthfully. The one rule of
the map that the library states for itself is how an entry is set
(`set_header`: the first header of the name takes the value, the others of
that name go), which is what `x-forwarded-for` needs.

A location table is a `HashMap<String, String>` in the configuration file.
Lookups in a std `HashMap` keyed by `String` have no usable specification
here, and the specified `StringHashMap` cannot be walked, which converting
back to the file's form needs; so a location is a list of (key, value)
pairs, looked up by the first pair with the key, which is the only one in a
table read from TOML.
