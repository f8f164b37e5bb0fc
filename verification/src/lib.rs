//! Decision logic of `cargo soothfast`: the regression gate's verdicts,
//! baseline scoping, lock-file reconciliation, workspace walks and the
//! text helpers behind its rendered reports.

pub mod args;
pub mod bind;
pub mod bind_bench;
pub mod bind_bench_launch;
pub mod bind_config;
pub mod buildcost;
pub mod buildstamp;
pub mod cargo_metadata;
pub mod changelog_config;
pub mod coverage;
pub mod docs;
pub mod gate;
pub mod gate_config;
pub mod gate_lock;
pub mod invoke;
pub mod json;
pub mod keyed;
pub mod mcp;
pub mod probe_manifest;
pub mod runcache;
pub mod rustdoc_cache;
pub mod sdk_config;
pub mod spec;
pub mod spec_asyncapi;
pub mod spec_config;
pub mod spec_html;
pub mod spec_mcp;
pub mod spec_openapi;
pub mod spec_probe;
pub mod spec_render;
pub mod spec_schema;
pub mod text;
pub mod toml_lines;
pub mod trend;
pub mod workspace;
