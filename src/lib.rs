//! Lists the archived captures of a web page from a public web-archive index
//! and plans their download, one capture at a time.
//!
//! The library holds the parts that decide: reading the index response into
//! records, building the playback URL and the output path of each capture, and
//! the run itself as a state machine that a driver feeds with outcomes.

pub mod index;
pub mod run;
pub mod snapshot;
