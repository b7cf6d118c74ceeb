//! The error taxonomy of one conversion. Every error is scoped to the
//! file or stream it arose in; a batch goes on with the next file.

use vstd::prelude::*;
use crate::binary::BinaryDetection;

verus! {

/// Why one conversion failed.
#[derive(Copy, Clone, PartialEq, Eq, Structural, Debug)]
pub enum ConvertError {
    /// The source held no bytes at all and no explicit encoding was given.
    EmptySource,
    /// A control byte marked the content as binary and no force flag
    /// allowed rewriting it; the content must be left untouched.
    BinaryDetected(BinaryDetection),
}

} // verus!
