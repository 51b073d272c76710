//! The ways in which a cleaning run can fail.

use vstd::prelude::*;

verus! {

/// Why a step of the cleaning could not do its work.
#[derive(Clone, Copy, Debug, PartialEq, Eq, Structural)]
pub enum Error {
    /// The directory could not be listed.
    DirectoryUnreadable,
    /// The file could not be read or is no image.
    DecodeFailure,
    /// The pixels are in a layout that is not understood, or the samples do
    /// not fill the image in the layout it names.
    UnsupportedLayout,
}

} // verus!
