# mattermost

A client library for the Mattermost API, verified with Verus.

`src/` holds what the client decides: the URLs and query strings of its
requests, the reading of a login's answer (status, token, CSRF cookie), the
assembly of a page of posts from the server's id-keyed answer, the
in-memory cache and the steps of loading a resource from memory, disk or
network, and the state behind the channel list (filtering, stable ordering
of categories, sections), the post list (paging, authors) and the login
form. Each public function states its result in its contract; laws that
relate several functions are public proof functions named `law_*`.

`src/outside.rs` declares the outside types the library carries and the
trusted wrappers around the outside functions it calls (`url` parsing,
Unicode case mapping).

`app/` holds what talks to the outside world: the serde forms of the
library's types, the HTTP requests (reqwest), the MessagePack disk cache,
the session saved in the keychain, and the flows that feed the library's
list and form states.
