pub mod errors;
pub mod file_parser;
pub mod helper;
pub mod manager;
pub mod ports;
