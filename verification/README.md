# aeris

The decisions behind a desktop front end for the package managers a Linux
system already has, written in Verus and proved against their contracts.

## Layout

- `src/` is the verified library.
  - `registry`: the adapter registry, where a listing comes from, how several
    are merged (the first registry to offer an adapter wins), checksums,
    cache ages and which adapters have a newer version.
  - `icons`: which published icon a package is drawn with, where it is
    published, and where it is kept once fetched.
  - `desktop`: reading `.desktop` entries and choosing between icon sizes.
  - `privilege`: running a manager as another user, and telling a refusal
    apart from a failure.
  - `xdg`, `paths`: the base directories and path joining.
  - `browse`, `updates`, `output`, `frame`: what the pages say and offer,
    decided from plain values, for whatever draws them.
  - `text`, `table`, `version`, `digest`, `display`, `assets`: the pieces
    the others are built from.
- `tests/` runs the library on concrete values.
- `app/` is the unverified rest: reading the environment, the network and
  the disk, parsing TOML, and the parts written with floating point.
