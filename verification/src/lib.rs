//! A database client without its windows and its sockets: how SQL is quoted and
//! its parameters are bound, how results are paged, what is known of schemas and
//! connections, and what the workspace, the tables and the grids do.

pub mod binding;
pub mod browse;
pub mod cell_input;
pub mod changes;
pub mod clipboard;
pub mod connection;
pub mod context_menu;
pub mod data_grid;
pub mod dialect;
pub mod editing;
pub mod engine;
pub mod foreign_key;
pub mod foreign_key_editing;
pub mod grid;
pub mod grid_view;
pub mod model;
pub mod ordered_map;
pub mod paging;
pub mod params;
pub mod query;
pub mod registry;
pub mod schema;
pub mod schema_node;
pub mod sidebar;
pub mod sql_server;
pub mod sqlite_schema;
pub mod table_workspace;
pub mod text;
pub mod value;
pub mod workspace_model;
