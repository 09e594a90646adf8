# circuit_ci_gui

The editing logic behind a circuit project editor, verified with Verus.

A project is a YAML document with a `board` (components, nets, schematic styles, node
positions and wire routes) and a list of run setups (`scenarios`). The library reads and
writes that document and proves what each edit does to it.

`src/` (verified):

- `text`, `naming`, `order` — strings, decimal names, collision-free names, the order of
  strings and of mapping entries by key.
- `doc`, `yaml_io` — the YAML tree and its mapping operations; reading and writing YAML
  text with `serde_yaml_ng`, behind trusted wrappers.
- `board` — adding, editing and removing components, nets, pins and wires; schematic
  styles and wire routes.
- `layout` — schematic node positions and wire routes drawn through points.
- `snapshot`, `labels` — what the sketch shows of a project (components, nets, net labels,
  component label placements, wire routes, libraries), and the editor defaults picked
  from it.
- `probes`, `scope_run`, `run` — adding the missing scope probes, getting a project ready
  for a scope run, and the order of the steps before a run.
- `analog`, `forms`, `metrics` — the analog run setups, the check editors' defaults and
  presets, and their tables of metrics, names and relations.
- `bundles`, `selection`, `canvas`, `state` — net bundles, the sketch selection, canvas
  labels and the editor state.

`app/` holds what stays outside the proofs: floating-point limits and coordinates, the
wording of errors, saving the project file and driving a scope run.
