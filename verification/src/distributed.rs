//! Transcoding on several machines: jobs are files in a shared directory, and
//! the directory a job's file stands in is the job's state.

pub mod clock;
pub mod fs_ops;
pub mod job;
pub mod manager;
pub mod reader;
pub mod worker;
