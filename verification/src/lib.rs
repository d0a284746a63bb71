//! Verified core of the DocCrate offline documentation publisher.
//!
//! The library decides what the publisher and the reader do: which
//! repositories are cloned and where, which files go into a `.docpack`
//! archive and under which names, how packs are listed, read and searched,
//! how staged sources are kept, and how the generated index pages look.
//! Everything that touches the disk, the network or a process is left to
//! the caller, which performs the actions the library asks for.

pub mod archive;
pub mod engine;
pub mod json;
pub mod render;
pub mod search_index;
pub mod site;
pub mod staging;
pub mod text;

pub use archive::{list_docpack_files, read_docpack_file, search_docpack};
pub use engine::{build_offline_pack, EngineAction, EngineEvent, PackEngine, ScanEntry};
pub use render::parse_markdown;
