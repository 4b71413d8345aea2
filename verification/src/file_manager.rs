//! The file manager: retrieves what animation files are available and
//! organizes them.
//!
//! Implementations live with the surrounding application, where the files
//! themselves are: what a path points at is outside this library, so the
//! methods carry no contracts beyond their signatures.

use vstd::prelude::*;

verus! {

/// Retrieves what files are available and organizes them; paths are
/// carried as plain strings.
pub trait FileManager {
    /// Returns every path that can be opened by this manager.
    fn get_all_files(&self) -> Vec<String>;

    /// Returns the display name for a particular path, if one is set.
    fn display_name_for_path(&self, path: &String) -> Option<String>;

    /// Reserves a path for a new file: the path is valid and will not be
    /// handed out again, but no file exists there yet.
    fn create_new_path(&mut self) -> String;

    /// Updates or creates the display name associated with a path that
    /// `get_all_files` returns.
    fn set_display_name_for_path(&mut self, path: &String, display_name: String);
}

} // verus!
