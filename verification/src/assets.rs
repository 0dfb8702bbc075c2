//! Asset abstractions.
//!
//! Two levels of abstraction:
//!
//! - [`FileProvider`]: low-level I/O, "read bytes from this filesystem
//!   path", implemented by the caller to swap between plain reads, memory
//!   maps and test buffers.
//! - [`AssetResolver`]: high-level game assets, "give me bytes for this
//!   virtual game path" (such as `data\objects.xml.xmb`), whatever backs it.
use vstd::prelude::*;

verus! {

/// Provides raw file bytes from some backing store.
pub trait FileProvider {
    /// Handle to the file contents.
    type Data;

    /// Reads a file by filesystem path, returning a handle to its bytes, or
    /// `None` if the file does not exist.
    fn open(&self, path: &str) -> Option<Self::Data>;

    /// Whether a file exists, without reading it.
    fn file_exists(&self, path: &str) -> bool;
}

/// Resolves game assets by virtual path.
///
/// Paths use the engine convention: lowercase with backslash separators.
pub trait AssetResolver {
    /// Reads a file by virtual path, or `None` if no backing store has it.
    fn resolve(&mut self, path: &str) -> Option<Vec<u8>>;

    /// Whether a file exists, without reading it.
    fn file_exists(&self, path: &str) -> bool;
}

} // verus!
