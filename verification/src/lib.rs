//! Rusty hunter's database: the query text, input parsing and command
//! decisions of a small recon database client, with their contracts.

pub mod text;
pub mod helpers;
pub mod configuration;
pub mod urls;
pub mod db_logic;
