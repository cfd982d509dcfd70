# nupkgd

A local NuGet v3 feed: it serves the `.nupkg` files of a directory (optionally its
subdirectories too) and keeps up with changes to that directory.

- `src/` is the library, written in Verus: version parsing and precedence, reading the
  `.nuspec` inside a package, the feed's state, and every response the server gives
  (service index, package and registration indexes, search, the HTML page), each with
  its contract, together with the laws that hold between them.
- `tests/` runs the library on concrete inputs.
- `app/` is the server around it: the command line, reading files, watching the
  directory, HTTP routing and JSON.

Start it with `nupkgd start --dir <directory> [--recursive] [--base-url <url>] [--bind <port>]`
and add `http://localhost:5555/v3/index.json` as a NuGet source.
