# fetch_server

A small download server: it queues URLs, runs `gallery-dl` or `megadl` on them,
tells its clients how far the downloads have come, and serves what was
downloaded, with thumbnails and byte ranges.

- `src/` is the library, verified with Verus. It decides: what becomes of a job,
  which range of a file is sent, which path is refused, what a listing holds. It
  does no I/O. Where input and decisions take turns (a run, a file request, a
  connection, a walk, a recovery) it asks for one action after the other and is
  told what came of it.
- `app/` is the server around it: routes, JSON, files, programs, the clock. A
  percentage is turned into a floating-point number there. It serves the page
  `index.html` from the folder that it is started in.
- `tests/` runs the library on concrete values, next to the standard library
  where the two are to agree.

The library trusts two functions of the standard library (`String::push`,
`str::to_lowercase`) and one of the `uuid` crate (`Uuid::new_v4`); what it takes
from each stands above the item.
