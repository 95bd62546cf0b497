pub mod config;
pub mod invoke;
pub mod parse;
pub mod schedule;
pub mod status;
pub mod textutil;
