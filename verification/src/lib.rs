pub mod cmdline;
pub mod common;
pub mod mem;
pub mod render;
pub mod smaps;
pub mod status;
pub mod tok;
