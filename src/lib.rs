//! Adds a `LC_LOAD_DYLIB` load command to 64-bit Mach-O images, plain or
//! inside a fat (universal) archive, working on the file's bytes in memory.
pub mod bytes;
pub mod layout;
pub mod error;
pub mod engine;
pub mod fat;
pub mod dispatch;
