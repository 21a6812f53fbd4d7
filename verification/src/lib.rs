//! Compiler for tabular game-design data.
//!
//! A raw table (rows of strings, as read from a spreadsheet) is turned into a
//! validated, typed configuration table. The first three rows of a sheet give
//! the column names, the cell types and the visibility tags; the remaining
//! rows (after two reserved ones) are data. Every data cell is validated
//! against its column's cell type. A compiled dataset can be packed into one
//! versioned binary blob, and each table can be rendered as a read-only Lua
//! module with a key index and a column-name index.

pub mod checker;
pub mod convert;
pub mod error;
pub mod excel_define;
pub mod lua;
pub mod lua_helper;
pub mod num;
pub mod pack;
pub mod table;
pub mod text;

pub use checker::CellChecker;
pub use checker::Checker;
pub use checker::check_data_type;
pub use convert::LuaWriter;
pub use convert::Parse;
pub use convert::ToLua;
pub use error::ConfigError;
pub use excel_define::CellType;
pub use excel_define::GameConfig;
pub use excel_define::GameConfigs;
pub use excel_define::KeyType;
pub use lua::generate_all_lua;
pub use lua::lua_meta_table;
pub use lua_helper::RustUtil;
pub use pack::decode_game_configs;
pub use pack::encode_game_configs;
pub use pack::pack_game_configs;
pub use table::Audience;
pub use table::RawCell;
pub use table::compile_game_config;
pub use table::drop_client_data;
pub use table::filter_columns;
