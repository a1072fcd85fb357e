# nodes

A node-editor game prototype and a task-transition log, with their rules
verified by Verus.

`src/` is the verified library:

- `game` — the gameplay state (`GameCore`) and the frame hooks of the render
  and UI layers.
- `platform` — asset errors and the asset source trait.
- `color` — colors and their `#RRGGBB` / `#RRGGBBAA` text form, read byte by
  byte over the UTF-8 encoding.
- `text` — Unicode whitespace, as `str::trim` sees it.
- `template` — node templates and the rules a template must meet.
- `layout` — port rows, label sides, socket colors and property texts of a
  node's render plan.
- `graph` — the node graph editor's rules: fresh node ids, links from output
  to input ports (one per input), waypoints.
- `shell` — what the node editor's and the scene viewer's windows do with each
  window event.
- `clock` — UTC instants as `chrono` represents them, and their text forms.
- `pivot` — the task transition log and its day-by-day text export.

`app/` holds what runs around the library: the `ticklog` command line, the
JSON file of the log, node templates read from JSON, and the egui node editor
with its floating-point geometry.
