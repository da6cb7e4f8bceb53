# herdr_desktop_switcher

A Herdr plugin that opens a popup picker of desktops (Local and any number of
SSH-reachable Herdr servers) and launches or focuses one endpoint-specific
Herdr client per desktop, each under its own macOS app identity.

The library under `src/` is verified with Verus:

- `parse` reads `desktops.toml` (through the `toml` crate) and validates it:
  every configuration it returns obeys `DesktopConfig::is_valid`.
- `launch` derives each desktop's app, bundle id and client plan, builds the
  helper argument arrays, checks the identity the launch helper reports and
  the effective SSH options of remote targets.
- `launch_flow` is the launch as a state machine: from each result it decides
  the next step (focus, forget a stale record, preflight, mark pending,
  launch, record, terminate, clear), with laws such as "a leftover pending
  marker blocks the launch" and "an unknown outcome keeps the marker".
- `registry` holds the rules of the instance registry: valid records, file
  names, which entries pruning keeps, and their order.
- `pick` is the picker: rows, selection, notices, key decoding, and the exact
  text of every screen.
- `api` is the socket protocol's reply handling.
- `text` and `toml_doc` hold the string and document models the rest is
  stated over.

`app/` is the program around it: the command line, files, processes, the
terminal and the socket, all of which hand plain values to the library.
