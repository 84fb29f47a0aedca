//! A ground station for CCSDS telemetry: the parts that decide, file and render.

pub mod acquire;
pub mod args;
pub mod cli;
pub mod config;
pub mod csv;
pub mod decimate;
pub mod decode;
pub mod decoded;
pub mod definition;
pub mod dispatch;
pub mod error;
pub mod event;
pub mod export;
pub mod float;
pub mod ids;
pub mod laws;
pub mod limit_file;
pub mod limits;
pub mod link;
pub mod losses;
pub mod packet;
pub mod probe;
pub mod ratio;
pub mod record;
pub mod report;
pub mod ring;
pub mod sample;
pub mod sctime;
pub mod sequence;
pub mod session;
pub mod stats;
pub mod store;
pub mod text;
pub mod time;
pub mod value;
