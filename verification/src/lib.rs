//! A SQL Server schema introspection library.
//!
//! The crate builds a self-contained schema graph for one database: tables
//! with columns, views, foreign-key relationships, triggers and routines,
//! together with a read/write reference graph derived from the SQL text of
//! routine definitions.  All logic here is pure: the surrounding application
//! performs the network and driver I/O and hands rows and payloads to these
//! functions as plain values.

pub mod connection;
pub mod laws;
pub mod mock;
pub mod queries;
pub mod refs;
pub mod schema;
pub mod schema_loader;
pub mod ssrp;
pub mod state;
pub mod text;

pub use connection::{build_connection_string, parse_server_endpoint, ConnectionError,
    ConnectionParams, ServerTarget};
pub use mock::load_schema_mock;
pub use queries::format_data_type;
pub use refs::{build_name_index, extract_table_references, NameIndex};
pub use schema::{Column, ProcedureParameter, RelationshipEdge, ScalarFunction, SchemaGraph,
    StoredProcedure, TableNode, Trigger, ViewNode};
pub use schema_loader::{load_schema_from_connection, SchemaError};
pub use ssrp::{build_ssrp_request, parse_ssrp_response, SsrpError};
pub use state::{AppSettings, AppSettingsUpdate, AppState, ConnectionHistory, MenuUiState};
