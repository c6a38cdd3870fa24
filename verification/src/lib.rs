pub mod command;
pub mod connection;
pub mod rdb_parser;
pub mod resp;
pub mod store;
pub mod text;
