//! Python symbol indexing and search for a workspace-symbol language server.
//!
//! The library holds the symbol model, the extraction of symbols from
//! Python source, the per-file symbol index, the fuzzy search over symbol
//! names, the ignore rules of a workspace, the coordinator that keeps the
//! index up to date from file events, and the answers of the language
//! server.

pub mod error;
pub mod index;
pub mod lsp;
pub mod parser;
pub mod paths;
pub mod search;
pub mod symbols;
pub mod updater;
pub mod watcher;
pub mod workspace_ignore;

pub use error::{Error, Result};
pub use index::SymbolIndex;
pub use parser::PythonParser;
pub use search::{SearchEngine, SearchResult};
pub use symbols::{Symbol, SymbolKind};
pub use updater::IndexUpdater;
pub use watcher::{FileEvent, FileEventHandler, WatcherConfig};
pub use workspace_ignore::{init_ignore_filter, should_ignore_dir, should_watch_path, IgnoreFilter};
