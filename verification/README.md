# koiweb

The core of a small Express-style web framework, verified with Verus.

- `src/method.rs` – HTTP methods.
- `src/path.rs` – splitting paths at `/`, route patterns with `:name`
  segments, and what a pattern captures from a path.
- `src/string_map.rs` – the string map used for path parameters and headers.
- `src/router.rs` – the router: exact routes first, then patterns in the
  order they were registered; the laws relating registration and lookup.
- `src/response.rs` – responses, header setting with hyper's header-name and
  header-value checks, JSON responses.
- `src/error.rs` – the application errors and the response each one gets.
- `src/application.rs` – the application, route groups, and the chaining of
  middleware around a handler.
- `src/limits.rs` – the token-bucket decision of the rate limiter and the
  upload size limit.
- `app/` – the hyper server, request bodies, handler and middleware types,
  and the example application.

Two collections are the library's own. Path parameters and response
headers are held in `StringMap`, a list of entries with distinct names,
and the router keeps its exact routes in a list with unique
(method, path) keys. vstd specifies `std::collections::HashMap` only for
keys that obey its key model, which it establishes for integers and
`bool` but not for `String`, so a `HashMap` keyed by strings could not be
reasoned about here. Responses are the library's own type (status, header
map, body); `app/` turns them into hyper responses and their headers into
a `HeaderMap`.

A caller that registers routes through a group and then reasons about
the application brings `RouteGroup::lemma_group_released` into scope with
`broadcast use`.
