//! Verified core of the uwu infrastructure: state-based CRDT primitives,
//! hierarchical topics and the decisions of the event mesh, the record
//! framing of the event log, SQL and migration helpers, and the rule-based
//! pieces of the context database.

pub mod strmap;
pub mod mapsum;
pub mod counter;
pub mod vector_clock;
pub mod text;
pub mod lww_register;
pub mod lww_map;
pub mod or_set;
pub mod crdt;
pub mod type_id;
pub mod mesh_error;
pub mod topic;
pub mod dedup;
pub mod ring;
pub mod subscriber;
pub mod broker;
pub mod flow;
pub mod idempotency;
pub mod event_kind;
pub mod decimal;
pub mod record;
pub mod log_index;
pub mod segments;
pub mod memory_store;
pub mod sql_text;
pub mod migrations;
pub mod intent;
pub mod character;
pub mod federation;
pub mod metacog;
pub mod context_types;
pub mod doc;
pub mod sandbox;
pub mod compute;
pub mod history;
pub mod type_table;
pub mod filter;
pub mod replay;
pub mod semantic;
pub mod vector_sql;
pub mod top_k;
