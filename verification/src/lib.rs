//! Capture the files a process has mapped, keep them as a named snapshot, and
//! plan the system calls that bring those files into the page cache.

pub mod filelist;
pub mod filter;
pub mod memory;
pub mod number;
pub mod pathset;
pub mod process;
pub mod snapshot;
pub mod text;
pub mod util;
