pub mod config;
pub mod frame;
pub mod id;
pub mod interface;
pub mod mode;
pub mod parse;
