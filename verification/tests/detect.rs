use dos2unix_lib::encoding::{detect_encoding, EncodingKind};
use dos2unix_lib::errors::ConvertError;

#[test]
fn utf8_bom_detected() {
    let r = detect_encoding(b"\xEF\xBB\xBFhello", None);
    assert_eq!(r, Ok((EncodingKind::Utf8, 3)));
}

#[test]
fn utf16le_bom_detected() {
    let r = detect_encoding(b"\xFF\xFEa\x00", None);
    assert_eq!(r, Ok((EncodingKind::Utf16Le, 2)));
}

#[test]
fn utf16be_bom_detected() {
    let r = detect_encoding(b"\xFE\xFF\x00a", None);
    assert_eq!(r, Ok((EncodingKind::Utf16Be, 2)));
}

#[test]
fn no_bom_falls_back_to_utf8() {
    let r = detect_encoding(b"plain", None);
    assert_eq!(r, Ok((EncodingKind::Utf8, 0)));
}

#[test]
fn short_input_without_full_mark() {
    // two bytes that are not a two-byte mark: plain UTF-8 content
    let r = detect_encoding(b"\xEF\xBB", None);
    assert_eq!(r, Ok((EncodingKind::Utf8, 0)));
}

#[test]
fn explicit_encoding_bypasses_sniffing() {
    let r = detect_encoding(b"\xEF\xBB\xBFx", Some(EncodingKind::Windows1252));
    assert_eq!(r, Ok((EncodingKind::Windows1252, 0)));
}

#[test]
fn empty_source_is_refused() {
    let r = detect_encoding(b"", None);
    assert_eq!(r, Err(ConvertError::EmptySource));
}

#[test]
fn empty_source_with_explicit_encoding_passes() {
    let r = detect_encoding(b"", Some(EncodingKind::Utf8));
    assert_eq!(r, Ok((EncodingKind::Utf8, 0)));
}
