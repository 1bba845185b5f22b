//! Which paths a default listing keeps.

use vstd::prelude::*;

verus! {

/// Whether a path of a default listing is kept: always while other
/// filesystems are counted; else where it lives on the device of the working
/// directory, and also where either device cannot be told.
pub open spec fn listed(
    cross_filesystems: bool,
    working_device: Option<u64>,
    path_device: Option<u64>,
) -> bool {
    cross_filesystems || working_device is None || path_device is None || path_device
        == working_device
}

/// Decides whether a path of a default listing is kept, given the device of
/// the working directory and that of the path, each `None` where it could
/// not be told.
pub fn keep_listed(
    cross_filesystems: bool,
    working_device: Option<u64>,
    path_device: Option<u64>,
) -> (keep: bool)
    ensures
        keep == listed(cross_filesystems, working_device, path_device),
{
    if cross_filesystems {
        true
    } else {
        match (working_device, path_device) {
            (Some(working), Some(path)) => working == path,
            _ => true,
        }
    }
}

} // verus!
