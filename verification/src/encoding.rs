//! The encoding and byte-order-mark detector: reads the leading bytes of
//! a source and reports the text encoding together with the length of the
//! byte-order mark, or takes an explicit encoding as an override.

use vstd::prelude::*;
use crate::errors::ConvertError;

verus! {

/// The text encodings the converter distinguishes. `Utf8` is the default
/// when no byte-order mark says otherwise.
#[derive(Copy, Clone, PartialEq, Eq, Structural, Debug)]
pub enum EncodingKind {
    Utf8,
    Utf16Le,
    Utf16Be,
    Windows1252,
}

/// The three bytes of the UTF-8 byte-order mark.
pub open spec fn utf8_bom() -> Seq<u8> {
    seq![0xEFu8, 0xBBu8, 0xBFu8]
}

/// `s` starts with the UTF-8 byte-order mark `EF BB BF`.
pub open spec fn has_utf8_bom(s: Seq<u8>) -> bool {
    s.len() >= 3 && s[0] == 0xEF && s[1] == 0xBB && s[2] == 0xBF
}

/// `s` starts with the UTF-16 little-endian mark `FF FE`.
pub open spec fn has_utf16le_bom(s: Seq<u8>) -> bool {
    s.len() >= 2 && s[0] == 0xFF && s[1] == 0xFE
}

/// `s` starts with the UTF-16 big-endian mark `FE FF`.
pub open spec fn has_utf16be_bom(s: Seq<u8>) -> bool {
    s.len() >= 2 && s[0] == 0xFE && s[1] == 0xFF
}

/// What sniffing the leading bytes reports, in priority order: UTF-8 with
/// its three-byte mark, one of the two UTF-16 marks, else UTF-8 without a
/// mark.
pub open spec fn sniffed(leading: Seq<u8>) -> (EncodingKind, usize) {
    if has_utf8_bom(leading) {
        (EncodingKind::Utf8, 3usize)
    } else if has_utf16le_bom(leading) {
        (EncodingKind::Utf16Le, 2usize)
    } else if has_utf16be_bom(leading) {
        (EncodingKind::Utf16Be, 2usize)
    } else {
        (EncodingKind::Utf8, 0usize)
    }
}

/// Reports the encoding of a source whose leading bytes are `leading`,
/// together with the length of the byte-order mark.
///
/// An explicit encoding bypasses sniffing and always reports a mark
/// length of zero. Without one, a source with no bytes at all is refused
/// as `EmptySource`; otherwise the leading bytes are sniffed. The caller
/// keeps the read position: this function looks at plain bytes only.
pub fn detect_encoding(leading: &[u8], explicit: Option<EncodingKind>) -> (r: Result<
    (EncodingKind, usize),
    ConvertError,
>)
    ensures
        match r {
            Ok(p) => match explicit {
                Some(e) => p == (e, 0usize),
                None => leading@.len() > 0 && p == sniffed(leading@),
            },
            Err(e) => e == ConvertError::EmptySource && explicit == None::<EncodingKind>
                && leading@.len() == 0,
        },
{
    match explicit {
        Some(e) => Ok((e, 0)),
        None => {
            if leading.len() == 0 {
                Err(ConvertError::EmptySource)
            } else if leading.len() >= 3 && leading[0] == 0xEF && leading[1] == 0xBB && leading[2]
                == 0xBF {
                Ok((EncodingKind::Utf8, 3))
            } else if leading.len() >= 2 && leading[0] == 0xFF && leading[1] == 0xFE {
                Ok((EncodingKind::Utf16Le, 2))
            } else if leading.len() >= 2 && leading[0] == 0xFE && leading[1] == 0xFF {
                Ok((EncodingKind::Utf16Be, 2))
            } else {
                Ok((EncodingKind::Utf8, 0))
            }
        },
    }
}

} // verus!
