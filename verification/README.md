# netqmon_collector

The collector of netqmon keeps live traffic views, identifies devices and
applications, raises insights and answers queries about stored flows. This
crate is its core, written in Verus: the functions in `src/` carry
contracts that Verus proves, except the small trusted wrappers around
outside crates and std, whose contracts are believed rather than proved.
The properties that span several functions stand as public proof functions
beside them.

Layout:

- `src/` — the verified library, one module per concern: access control
  (`access`), live view (`realtime`), packet sampling decisions
  (`sampling`), batch ingestion decisions (`ingest`), JSON evidence
  lists (`evidence_json`), device evidence (`device`,
  `mac_prefix`), classification metadata (`classifier`), endpoint bindings
  and favicon probes (`service_binding`, `favicon_probe`), insights
  (`insight_rules`, `insights_model`, `flow_groups`), query parameters and
  filters (`query`, `identity_filters`), geography (`geo`, `geo_summary`),
  licensing (`license`), recognition diagnostics (`recognition`), demo mode
  (`demo`), icon cache settings (`icon_settings`), the load generator's
  parsing (`loadgen`), and shared text and map helpers (`text`, `keyed`).
  Calls into `sha2`, `subtle`, `getrandom`, `argon2`, `serde_json` and a few
  std functions
  go through small trusted wrappers whose contracts are documented where
  they stand.
- `app/` — the I/O around the library: SQLite reads and writes, geolocation
  downloads, the load generator's socket, JSON copies of library types, and
  the estimates computed in floating point.
- `tests/` — tests of the library through its public interface.
