# Neemata Proxy

A reverse proxy for Neemata runtime workers, callable from Node.js. It accepts requests, finds the
application that each is for, and forwards it to one of that application's upstreams.

## Layout

- `src/` is the library: options, routing, sticky sessions, upstreams and pools, starting and
  stopping. It is written in Verus. Every function states what it does, and the `laws` modules state
  what holds of the functions together.
- `tests/` runs the library on concrete values.
- `app/` is the addon around the library: the classes that Node.js calls, the listener, the load
  balancers and the tasks, on top of napi-rs, Tokio and Pingora.

## How requests are routed

1. By host: an application's subdomain, compared without case and without port.
2. By path: an application's name is the first path segment. The segment is stripped on the way.
3. To the default application.

An upgrade request goes to the application's `http` upstreams and to no others. Other requests go to
`http2` upstreams, or else to `http`. No request goes to `ws` upstreams. What matches no application is
answered with 404; what cannot be served, with 503.

## Operational notes

Upstreams that were added become routable once their health check has found them healthy, so
requests may be answered with 503 for as long as `healthCheckIntervalMs`.
