//! The storage tool as the pipeline sees it.

use crate::destroy::is_destroy_argument;
use crate::enums::SystemResult;
use vstd::prelude::*;

verus! {

/// The calls the pipeline makes to the storage layer. Nothing is assumed of
/// an implementation: every verified caller is proved for whatever these
/// methods return.
pub trait Communicator {
    /// The names of all snapshots, one per line.
    fn get_snapshots(&self) -> SystemResult;

    /// Destroys the snapshots named by `snapshots`. A destroy call is made
    /// for one batch: the argument has the form `dataset@suffix,suffix,...`
    /// and names snapshots of one dataset.
    fn destroy_snapshots(&self, snapshots: String) -> SystemResult
        requires
            is_destroy_argument(snapshots@),
    ;

    /// The contents of the exclude file, one snapshot name per line.
    fn get_excluded_snapshots(&self, exclude_file: &str) -> SystemResult;

    /// Whether the file exists.
    fn does_file_exist(&self, filename: &str) -> bool;
}

} // verus!
