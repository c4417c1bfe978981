//! Dynamic library dependency resolution inside a relocated root, together
//! with supporting pieces of the surrounding build tool: path normalization,
//! symlink resolution over a sysroot snapshot, `ld.so.conf` parsing, the
//! prioritized library search path, shell completion and signature diffing.

pub mod strutil;
pub mod paths;
pub mod lpaths;
pub mod fstree;
pub mod errors;
pub mod resolve;
pub mod textenc;
pub mod elfread;
pub mod conf;
pub mod ldd;
pub mod completion;
pub mod sig;
pub mod steps;
pub mod tarcmd;

pub use errors::LddError;
pub use fstree::FsNode;
pub use fstree::FsTree;
pub use ldd::Ldd;
pub use lpaths::LPathSource;
pub use lpaths::LPaths;
pub use paths::normalize_path;
pub use paths::with_sysroot;
pub use resolve::resolve_link;
