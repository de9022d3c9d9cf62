pub mod config;
pub mod db;
pub mod pattern;
pub mod select;
pub mod util;
