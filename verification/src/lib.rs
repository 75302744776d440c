//! Verified core of a timelapse synchroniser for Snapmaker U1 printers.
#![allow(unused_imports)]

pub mod text;
pub mod paths;
pub mod models;
pub mod sync_engine;
pub mod protocol;
pub mod urls;
pub mod candidates;
pub mod storage;
pub mod commands;
pub mod discovery;
