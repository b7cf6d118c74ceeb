//! The binary-content classifier: a scan of a byte window for control
//! bytes outside the small allow-list that text files use. Finding one
//! marks the window as binary, which the caller must not rewrite unless
//! forced.

use vstd::prelude::*;
use crate::endings::{CR, LF, count_lf, lemma_count_lf_le_len, lemma_count_lf_snoc};

verus! {

/// A control byte that marks content as binary: a value below 32 that is
/// none of `\n`, `\r`, tab and form feed.
pub open spec fn is_control_marker(b: u8) -> bool {
    b < 32 && b != LF && b != CR && b != 9 && b != 12
}

/// True when no byte of `s` is a control marker.
pub open spec fn marker_free(s: Seq<u8>) -> bool {
    forall|i: int| 0 <= i < s.len() ==> !is_control_marker(#[trigger] s[i])
}

/// `i` is the position of the first control marker of `s`.
pub open spec fn first_marker_at(s: Seq<u8>, i: int) -> bool {
    0 <= i < s.len() && is_control_marker(s[i]) && (forall|j: int|
        0 <= j < i ==> !is_control_marker(#[trigger] s[j]))
}

/// What the classifier reports of a control marker: the byte itself and
/// the 1-based number of the line it stands on.
#[derive(Copy, Clone, PartialEq, Eq, Structural, Debug)]
pub struct BinaryDetection {
    pub byte: u8,
    pub line: usize,
}

/// The report for the marker at position `i` of `s`: the byte there, on
/// line one plus the number of `\n` bytes strictly before it.
pub open spec fn detection_at(s: Seq<u8>, i: int) -> BinaryDetection {
    BinaryDetection { byte: s[i], line: (1 + count_lf(s.take(i))) as usize }
}

/// Scans `content` for control markers.
///
/// A clean window gives `Ok(None)`. The first marker gives `Err` with its
/// report when `force` is unset — the caller must leave the content
/// untouched — and `Ok` with the same report when `force` is set, so that
/// the caller may proceed and still surface the finding.
pub fn detect_binary(content: &[u8], force: bool) -> (r: Result<
    Option<BinaryDetection>,
    BinaryDetection,
>)
    ensures
        match r {
            Ok(None) => marker_free(content@),
            Ok(Some(d)) => force && exists|i: int|
                #[trigger] first_marker_at(content@, i) && d == detection_at(content@, i),
            Err(d) => !force && exists|i: int|
                #[trigger] first_marker_at(content@, i) && d == detection_at(content@, i),
        },
{
    let mut line: usize = 1;
    let mut i: usize = 0;
    while i < content.len()
        invariant
            0 <= i <= content.len(),
            forall|j: int| 0 <= j < i ==> !is_control_marker(#[trigger] content@[j]),
            line as int == (if 1 + count_lf(content@.take(i as int)) <= usize::MAX as int {
                1 + count_lf(content@.take(i as int)) as int
            } else {
                usize::MAX as int
            }),
        decreases content.len() - i,
    {
        let b = content[i];
        if b < 32 && b != LF && b != CR && b != 9 && b != 12 {
            proof {
                lemma_count_lf_le_len(content@.take(i as int));
                assert(first_marker_at(content@, i as int));
            }
            let d = BinaryDetection { byte: b, line };
            proof {
                assert(d == detection_at(content@, i as int));
            }
            if force {
                return Ok(Some(d));
            } else {
                return Err(d);
            }
        }
        proof {
            assert(content@.take(i as int).push(b) =~= content@.take(i + 1 as int));
            lemma_count_lf_snoc(content@.take(i as int), b);
        }
        if b == LF && line < usize::MAX {
            line = line + 1;
        }
        i = i + 1;
    }
    assert(content@.take(content@.len() as int) =~= content@);
    Ok(None)
}

} // verus!
