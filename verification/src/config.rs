//! The configuration that the driver hands to every pass.

use vstd::prelude::*;

verus! {

/// Settings of a compiler run.  The passes receive it read-only and none of
/// those in this crate looks into it.
#[derive(Debug, Clone, Copy, PartialEq, Eq, Default)]
pub struct Config {}

} // verus!
