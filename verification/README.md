# mirage

Identity projection for sandboxed applications. A profile names the identity a
sandbox should present (hostname, machine id, timezone, locale, DNS servers,
CPU model, MAC address, user name, position); the library plans the `bwrap`
launch that presents it, the network namespace it may run in, the fake D-Bus
system bus that answers for it, and the script of an interactive session. It
also audits the host's own signals and scores how consistent they are.

## Layout

- `src/` — the library, verified with Verus.
  - `protocol` — signal kinds and values, profiles, the signal map.
  - `consistency` — the consistency rules and the score, with their laws.
  - `providers`, `network`, `account` — what each identity provider reads
    from the host's files and what it stages for a sandbox.
  - `runner` — the `bwrap` argument list; `launch` — the run directory, the
    launch command line and the session script; `netns` — the network
    namespace commands; `dbus` — the fake bus plan and the values it serves.
  - `session` — leak detection over the process table; `audit` — the audit
    result; `diversity` — generated identity values; `plugin` — plugin file
    and return-code decisions; `tui` — the profile browser's selection.
  - `text`, `rng`, `sandbox` — string primitives, random draws, run handles.
- `tests/` — tests of the library.
- `app/` — the `mirage` command: file, process, network and D-Bus I/O, plugin
  loading, and the terminal browser, around the library.
