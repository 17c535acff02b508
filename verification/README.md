# musubicad

The verified core of MusubiCAD, a parametric CAD system whose design changes
are reviewed like code. Every function in `src/` is proved by Verus against
a contract that says what it returns wherever there is something to say;
`app/` holds the edges that Verus does not see (floating-point evaluation
and measurement, fingerprint scoring, serde forms).

## Layout

- `src/param_expr.rs`, `src/expr_steps.rs`, `src/param_graph.rs`,
  `src/fixtures.rs` — parameter expressions (tokens, referenced names, the
  grammar as the evaluator's steps), the parameter graph with its
  dependency order, and the parameter sets of the sample parts.
- `src/diff.rs` — semantic diffs of parameter graphs and of topology
  references, and their one-line summary.
- `src/refs.rs`, `src/topo_sync.rs`, `src/ref_sync.rs` — semantic topology
  references, face derivation histories, rebinding, merging discovered faces,
  naming faces, and resolution of persisted references.
- `src/provenance.rs` — fail-closed classification of reference resolutions
  (exact, fingerprint, ambiguous, missing).
- `src/profile.rs`, `src/constraint.rs` — sketch profile detection (closed
  loops, open chains, circles) and constraints with the entities they name.
- `src/step.rs`, `src/bytes.rs` — deterministic STEP headers.
- `src/selection.rs`, `src/face_catalog.rs`, `src/overlay.rs`,
  `src/offscreen.rs`, `src/mesh.rs`, `src/presentation.rs` — pick ids,
  grouping of triangles into faces, pickable overlay lines, read-back
  buffers, animation settings, mesh merging, and the feature and boundary
  edges drawn over renders.
- `src/kernel.rs`, `src/store.rs`, `src/occt.rs` — kernel handles, the mock
  kernel, and the backend's bookkeeping (handles, compounds, face tags, face
  history).
- `src/equations.rs`, `src/residual.rs` — constrained sketches as solver
  problems: the variables of a sketch by name, the residual equations each
  constraint adds (with the errors it is refused with), the variables each
  residual reads, and repeated equations.
- `src/index_map.rs` — the `indexmap` calls the logic makes, with their
  contracts.
- `app/` — the numeric sketch solve (damped Gauss-Newton, degrees of
  freedom, solve diagnostics), expression evaluation in SI units, the render backdrop, face
  measurement, fingerprint scoring and candidate lists, quantizing mesh
  positions for edge overlays, animation angles, and the serde forms of the
  core's types.

Public proof functions named `law_*` state the properties the library keeps
across calls (dependency order, round trips, idempotent normalization, sorted
and stable reference lists, fail-closed reference resolution, and so on).
