//! Reading, naming and transcoding optical discs: the decisions behind the
//! ripper, stated as contracts and proved.

pub mod bluray;
pub mod cli;
pub mod config;
pub mod disc;
pub mod distributed;
pub mod dvd;
pub mod gather;
pub mod list;
pub mod rip;
pub mod text;
pub mod tmdb;
pub mod transcode;
