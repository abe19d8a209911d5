# segs

The logic of SEGS, a ground station for telemetry analysis and visualization, as a library
whose behaviour is stated in `requires`/`ensures` contracts and proved with Verus.

## Layout

- `src/` — the verified library:
  - `text`, `layout`, `catalog`, `search`, `manager_modal`, `layout_guard`: layout names and
    slugs, the layout catalog and its startup default, searching layouts, the layout manager's
    inline editor and the unsaved-changes guard.
  - `dataflow`, `protocol`, `schema`, `mavlink`, `streams`: keys, values and commands, protocol
    descriptors, MAVLink profiles, encoding and decoding of command frames, telemetry samples.
  - `pending`, `commands`, `correlation`, `io_stats`, `clock`: correlation slots, the command
    log, correlating responses with commands, timeouts, and link statistics.
  - `descriptor_index`, `descriptor_nesting`, `settings`, `command_panel`, `views`, `status`,
    `adapter`: the stream selector's flattened hierarchy, widget settings, the command panel's
    drafts, view and popup decisions, and the receive-activity indicator.
- `tests/` — tests of the library.
- `app/` — the program around it: command-line arguments, layout files on disk, the data store
  of received samples, and the link that moves frames between channels and the library.
