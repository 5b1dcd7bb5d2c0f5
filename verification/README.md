# sayaka engine

The decision logic of a cautious macOS cleaning tool, written in Verus.

The library in `src/` never touches the machine. Its callers look at the file system, at
processes and at the clock, hand what they saw to the library as plain values, and perform
the actions that come back. Every decision is a function with a contract: which inputs are
refused and with which error, what a preview shows, in which order the steps of an
operation come, and what is left behind where one of them fails.

## Layout

- Inventory of applications: `app_inventory`, `candidates`, `inventory_run`, `bundle`,
  `bundle_check`, `bundle_record`, `running`, with the property list readers `plist`,
  `plist_xml`, `xml_text` and `plist_binary`, and the budgets of `probe`.
- Data that belongs to applications: `app_related` and the `related_*` modules,
  `app_orphans`, `app_uninstall`, `ai_footprint`.
- Moving things to the Trash: `session` decides one native move at a time; `execute`,
  `journal` and `history` hold its plans and records; `native`, `batch`, `rule_binding` and
  the `*_session` modules prepare and guard the different kinds of selection.
- The exclusion policy: `clean_policy`, `wire`, `policy_edit`, `policy_snapshot`,
  `policy_store`.
- The dedicated installation: `installation`, `package`, `handles`, `verify`, `macho`,
  `version`, `lifecycle`, `recover`, `plan`, `update`, `removal`, `operation`.
- Shared ground: `path`, `text`, `unicode`, `order`, `hex`, `digest`, `model`, `error`.

What the library promises as a whole stands in public proof functions beside the functions
they speak of; those on sessions, on the exclusion policy, on the steps of an operation and
on interrupted updates have modules of their own: `session_laws`, `policy_laws`,
`operation_laws` and `lifecycle_laws`.

`app/` is the ordinary Rust around the library: it opens, reads, locks, renames and prints.
`tests/` runs the library on concrete values.

## What is trusted

SHA-256 comes from `sha2`, version precedence from `semver`, and the tokens of an XML
document from `quick-xml`. Their contracts, and those of a few functions of the standard
library, stand in `digest`, `version`, `plist_xml`, `unicode` and `probe`; everything else
is proved.
