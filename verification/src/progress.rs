//! Progress display styles.
//!
//! The terminal rendering lives outside the library; here are the
//! styles themselves and the rule that picks one for each phase of a
//! recovery run.

use vstd::prelude::*;

use crate::par2::Par2Operation;

verus! {

/// The visual styles of the progress bar.
#[derive(Debug, Clone, Copy, PartialEq, Eq, Structural)]
pub enum ProgressStyle {
    Download,
    Par2,
    Par2Verify,
    Par2Repair,
    Par2Warning,
    Par2Error,
    Extract,
}

/// The style shown while the recovery kernel reports each operation.
pub fn style_for_operation(op: Par2Operation) -> (r: ProgressStyle)
    ensures
        op is Scanning ==> r is Par2,
        op is Loading ==> r is Par2,
        op is Verifying ==> r is Par2Verify,
        op is Repairing ==> r is Par2Repair,
{
    match op {
        Par2Operation::Scanning => ProgressStyle::Par2,
        Par2Operation::Loading => ProgressStyle::Par2,
        Par2Operation::Verifying => ProgressStyle::Par2Verify,
        Par2Operation::Repairing => ProgressStyle::Par2Repair,
    }
}

} // verus!
