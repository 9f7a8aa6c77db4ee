# br — BrowserRouter

`br` routes each `http`/`https` link to the right browser or browser
profile: URL filters clean the link (tracking parameters, HTTP→HTTPS), rules
pick a target by URL pattern, host, path, query parameters, source
application or modifier keys, and a picker asks the user when no rule decides.

## Layout

- `src/` — the verified library (Verus). Each module states its behaviour in
  `requires`/`ensures` contracts and proves it:
  - `model`, `config` — the configuration and its validation;
  - `glob`, `filters`, `engine` — URL filters and the rule engine;
  - `dispatch`, `daemon` — what `br open`, the link handler and the daemon do
    with a URL, the daemon's line protocol and its replies;
  - `picker`, `settings`, `i18n` — the decisions behind the picker and the
    settings window;
  - `platform`, `desktop_entry`, `linux`, `macos`, `windows` — browser
    discovery, registration and launching, as decisions over what the
    operating system reports;
  - `text`, `urls` — string helpers, and the trusted wrappers around the
    `url` and `regex` crates and Unicode case mapping.
- `tests/` — tests of the library on concrete values.
- `app/` — the `br` program: command line, configuration file (TOML), the
  daemon's socket, processes and files. Run as `br-handler` it is the URL
  handler; run as `br-daemon` it is the background daemon.

## What this build leaves out

- The picker and settings windows (egui) and the tray icon are not part of
  this build; their decisions (key navigation, labels, "always open here",
  adding and ordering entries) are in the library. When no rule decides,
  `br-handler` and the daemon report that the picker is not available, and
  `br open` opens nothing.
- On Windows, the registry is not read or written: discovery finds nothing
  and registration reports an error. The library holds the decisions over
  what the registry would report.
