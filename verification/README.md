# route_schedule

Decides over which routes to attempt connecting to a server, in which order, and when.

Routes with host names are resolved to groups of routes with IP addresses. Groups are taken up in the
order of the routes that they came from, as far as they have been resolved. The routes of a group are
attempted one after the other, a fixed delay apart ("happy eyeballs"), and each of them later still
if connecting over it has failed lately.

## Layout

* `src/` is the library. Every function in it is verified with Verus against its contract. The one
  thing taken on trust is what `HashMap::retain` does (`retain_remembered` in `src/outcomes.rs`),
  besides what `vstd` states of the standard library.
* `app/` runs the library's decisions on `futures` streams and `tokio` timers, and holds the floating
  point formula for how delays grow.
* `tests/` runs the library on concrete values, with a simulated clock.

## How the schedule is driven

`Schedule::next` is called with `Event::Started` when a route is wanted. It answers with a route, with
the news that all routes are exhausted, or with what to wait for: a time, the resolver, or both. It is
then called again with whatever came first. The resolver's input is polled outside; each result goes
to `Schedule::poll_resolver`, which says whether to poll again, or hands out a group of routes to pass
on to `next`.
