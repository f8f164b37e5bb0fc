# cargo-soothfast

`cargo soothfast` measures a workspace's benches, gates regressions against
a saved baseline or a merge-base, probes a live server's answers against its
API spec, renders API reference pages, and serves read-only MCP tools over
the crate's surface and measurements.

The decision logic is a Verus-verified library (`src/`); every public
function states what it returns in its `ensures`, and the properties that
span several calls are proved as `law_*` proof functions. `app/` is the
command-line program around it: subprocesses, files, sockets and the
floating-point measurements the library does not hold.

Layout of `src/`:

- `gate`, `gate_lock`, `gate_config`, `invoke`, `runcache`, `buildstamp`,
  `buildcost`, `trend`, `coverage`: the regression gate, its accept lock,
  baselines, the run cache and the build stamp.
- `spec_probe`, `probe_manifest`: the live-server probe's HTTP framing and
  its manifest.
- `json`, `spec_schema`, `spec_render`, `spec_openapi`, `spec_asyncapi`,
  `spec_mcp`, `spec_html`, `spec`: API reference pages and the route
  reconciliation table.
- `mcp`: the MCP server's request dispatch and tool answers.
- `cargo_metadata`, `workspace`, `rustdoc_cache`: reading what cargo prints
  as JSON, and walks of the `cargo metadata` graph.
- `toml_lines`, `sdk_config`, `bind_config`, `changelog_config`,
  `spec_config`, `args`, `keyed`, `text`, `docs`, `bind`, `bind_bench`,
  `bind_bench_launch`: configuration tables, arguments and text helpers.
