//! Decision logic of the sayaka cleaning engine.
//!
//! The crate holds the data structures, parsers, rules and state machines of the
//! engine. Everything that touches the machine (files, clocks, processes, the
//! journal store) happens in the caller, which hands plain observations in and
//! performs the actions that come back.

pub mod ai_footprint;
pub mod app_inventory;
pub mod app_laws;
pub mod app_orphans;
pub mod app_related;
pub mod app_uninstall;
pub mod batch;
pub mod bundle;
pub mod bundle_check;
pub mod bundle_record;
pub mod bundle_session;
pub mod cache_session;
pub mod candidates;
pub mod clean_policy;
pub mod clean_session;
pub mod digest;
pub mod error;
pub mod exclusion_laws;
pub mod execute;
pub mod handles;
pub mod hex;
pub mod history;
pub mod history_laws;
pub mod install_laws;
pub mod installation;
pub mod installer_session;
pub mod inventory_laws;
pub mod inventory_run;
pub mod journal;
pub mod lifecycle;
pub mod lifecycle_laws;
pub mod macho;
pub mod model;
pub mod native;
pub mod operation;
pub mod operation_laws;
pub mod order;
pub mod package;
pub mod path;
pub mod path_laws;
pub mod plan;
pub mod plist;
pub mod plist_binary;
pub mod plist_laws;
pub mod plist_xml;
pub mod policy_edit;
pub mod policy_laws;
pub mod policy_snapshot;
pub mod policy_store;
pub mod probe;
pub mod purge_session;
pub mod recover;
pub mod related_finish;
pub mod related_laws;
pub mod related_plan;
pub mod related_preview;
pub mod related_probe;
pub mod related_result;
pub mod removal;
pub mod rule_binding;
pub mod running;
pub mod selection_laws;
pub mod session;
pub mod session_laws;
pub mod text;
pub mod trash_session;
pub mod unicode;
pub mod update;
pub mod verify;
pub mod version;
pub mod wire;
pub mod xml_text;
