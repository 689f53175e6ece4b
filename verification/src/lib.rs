//! Browse, preview and delete recorded coding-agent sessions: the verified core.

pub mod text;
pub mod title;
pub mod paths;
pub mod mounts;
pub mod num;
pub mod time;
pub mod index;
pub mod bytes;
pub mod del;
pub mod json;
pub mod scan;
pub mod transcript;
pub mod cli;
pub mod report;
pub mod update;
pub mod browse;
pub mod screen;
pub mod assemble;
pub mod pick;
