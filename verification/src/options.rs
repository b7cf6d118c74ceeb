//! The read-only configuration of one conversion: byte-order-mark policy,
//! the binary force flag, end-of-line completion, what of the original
//! file to preserve, and where the output goes.

use vstd::prelude::*;

verus! {

/// Where the rewritten bytes go: over the original file, or into a new
/// file beside it. Exactly one of the two holds per conversion.
#[derive(Copy, Clone, PartialEq, Eq, Structural, Debug)]
pub enum OutputPlacement {
    Overwrite,
    NewFile,
}

/// The configuration of one conversion, built once from user input and
/// never changed while processing.
#[derive(Copy, Clone, PartialEq, Eq, Structural, Debug)]
pub struct ConversionOptions {
    /// Keep a byte-order mark that the input starts with.
    pub keep_bom: bool,
    /// Strip any byte-order mark; wins over `keep_bom` and `add_bom`.
    pub remove_bom: bool,
    /// Start the output with a byte-order mark even when the input had none.
    pub add_bom: bool,
    /// Rewrite content even when the classifier calls it binary.
    pub force_binary: bool,
    /// Append the target line terminator when the last line has none.
    pub add_missing_eol: bool,
    /// Copy the original file's permission bits onto the replacement.
    pub preserve_permissions: bool,
    /// Copy the original file's access and modification times onto the
    /// replacement.
    pub preserve_timestamps: bool,
    /// Copy the original to a backup path before swapping files.
    pub make_backup: bool,
    /// Whether the original is overwritten or a new file is written.
    pub placement: OutputPlacement,
}

/// Whether the output starts with a byte-order mark, given whether the
/// input had one: `remove_bom` always wins; otherwise `add_bom` or a kept
/// input mark puts one there.
pub open spec fn emits_bom(opts: ConversionOptions, had_bom: bool) -> bool {
    !opts.remove_bom && (opts.add_bom || (had_bom && opts.keep_bom))
}

impl Default for ConversionOptions {
    /// Everything off, original overwritten in place.
    fn default() -> (r: Self)
        ensures
            r == (ConversionOptions {
                keep_bom: false,
                remove_bom: false,
                add_bom: false,
                force_binary: false,
                add_missing_eol: false,
                preserve_permissions: false,
                preserve_timestamps: false,
                make_backup: false,
                placement: OutputPlacement::Overwrite,
            }),
    {
        ConversionOptions {
            keep_bom: false,
            remove_bom: false,
            add_bom: false,
            force_binary: false,
            add_missing_eol: false,
            preserve_permissions: false,
            preserve_timestamps: false,
            make_backup: false,
            placement: OutputPlacement::Overwrite,
        }
    }
}

} // verus!
