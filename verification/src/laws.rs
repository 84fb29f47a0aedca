//! What holds of the station as a whole: of any number of calls, or of two that are compared.
//!
//! Each law is stated over what goes in and what comes out.

pub mod acquire;
pub mod clock;
pub mod config;
pub mod decode;
pub mod export;
pub mod limit_file;
pub mod limits;
pub mod log;
pub mod number;
pub mod packet;
pub mod probe;
pub mod report;
pub mod sequence;
pub mod session;
pub mod store;
pub mod tables;
pub mod text;
pub mod time;
pub mod views;
