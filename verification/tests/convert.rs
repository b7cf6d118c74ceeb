use dos2unix_lib::binary::{detect_binary, BinaryDetection};
use dos2unix_lib::endings::{ConversionMode, TranscodeState};
use dos2unix_lib::errors::ConvertError;
use dos2unix_lib::options::{ConversionOptions, OutputPlacement};
use dos2unix_lib::pipeline::{convert_buffer, convert_line_endings};

fn opts_with(
    keep_bom: bool,
    remove_bom: bool,
    add_bom: bool,
    force: bool,
    add_eol: bool,
) -> ConversionOptions {
    ConversionOptions {
        keep_bom,
        remove_bom,
        add_bom,
        force_binary: force,
        add_missing_eol: add_eol,
        preserve_permissions: false,
        preserve_timestamps: false,
        make_backup: false,
        placement: OutputPlacement::Overwrite,
    }
}

#[test]
fn tounix_collapses_crlf() {
    let r = convert_line_endings(b"a\r\nb\r\n", false, false, ConversionMode::ToUnix, false);
    assert_eq!(r.unwrap(), b"a\nb\n".to_vec());
}

#[test]
fn tounix_keeps_lone_cr() {
    let r = convert_line_endings(b"line1\rx", false, false, ConversionMode::ToUnix, false);
    assert_eq!(r.unwrap(), b"line1\rx".to_vec());
}

#[test]
fn tounix_keeps_trailing_cr() {
    let r = convert_line_endings(b"line1\r", false, false, ConversionMode::ToUnix, false);
    assert_eq!(r.unwrap(), b"line1\r".to_vec());
}

#[test]
fn todos_inserts_cr() {
    let r = convert_line_endings(b"a\nb\n", false, false, ConversionMode::ToDos, false);
    assert_eq!(r.unwrap(), b"a\r\nb\r\n".to_vec());
}

#[test]
fn todos_leaves_crlf_alone() {
    let r = convert_line_endings(b"a\r\nb", false, false, ConversionMode::ToDos, false);
    assert_eq!(r.unwrap(), b"a\r\nb".to_vec());
}

#[test]
fn tomac_converts_bare_lf() {
    let r = convert_line_endings(b"a\nb\n", false, false, ConversionMode::ToMac, false);
    assert_eq!(r.unwrap(), b"a\rb\r".to_vec());
}

#[test]
fn tomac_keeps_crlf_pair() {
    let r = convert_line_endings(b"a\r\nb", false, false, ConversionMode::ToMac, false);
    assert_eq!(r.unwrap(), b"a\r\nb".to_vec());
}

#[test]
fn empty_input_is_refused() {
    let r = convert_line_endings(b"", false, false, ConversionMode::ToUnix, true);
    assert_eq!(r, Err(ConvertError::EmptySource));
    let o = opts_with(false, false, false, true, false);
    let b = convert_buffer(b"", ConversionMode::ToDos, &o);
    assert_eq!(b, Err(ConvertError::EmptySource));
}

#[test]
fn marker_beyond_scan_window_passes() {
    // the whole-buffer gate scans the first 8000 post-mark bytes only
    let mut content = vec![b'a'; 8000];
    content.push(0x01);
    content.push(b'\n');
    let r = convert_line_endings(&content, false, false, ConversionMode::ToDos, false).unwrap();
    let mut expected = vec![b'a'; 8000];
    expected.push(0x01);
    expected.push(b'\r');
    expected.push(b'\n');
    assert_eq!(r, expected);
}

#[test]
fn marker_inside_scan_window_refused() {
    let mut content = vec![b'a'; 7999];
    content.push(0x01);
    content.push(b'\n');
    let r = convert_line_endings(&content, false, false, ConversionMode::ToDos, false);
    assert_eq!(
        r,
        Err(ConvertError::BinaryDetected(BinaryDetection { byte: 0x01, line: 1 }))
    );
}

#[test]
fn binary_gate_refuses_without_force() {
    let r = convert_line_endings(b"a\x01b", false, false, ConversionMode::ToUnix, false);
    assert_eq!(
        r,
        Err(ConvertError::BinaryDetected(BinaryDetection { byte: 0x01, line: 1 }))
    );
}

#[test]
fn binary_gate_passes_with_force() {
    let r = convert_line_endings(b"a\x01b\r\n", false, true, ConversionMode::ToUnix, false);
    assert_eq!(r.unwrap(), b"a\x01b\n".to_vec());
}

#[test]
fn detect_binary_reports_byte_and_line() {
    let r = detect_binary(b"ok\nline\n\x02rest", false);
    assert_eq!(r, Err(BinaryDetection { byte: 0x02, line: 3 }));
}

#[test]
fn detect_binary_forced_still_reports() {
    let r = detect_binary(b"a\x1bb", true);
    assert_eq!(r, Ok(Some(BinaryDetection { byte: 0x1b, line: 1 })));
}

#[test]
fn detect_binary_clean_text() {
    let r = detect_binary(b"plain\ttext\x0cwith\r\nbreaks\n", false);
    assert_eq!(r, Ok(None));
}

#[test]
fn bom_kept_when_asked() {
    let r = convert_line_endings(
        b"\xEF\xBB\xBFa\n",
        true,
        false,
        ConversionMode::ToUnix,
        false,
    );
    assert_eq!(r.unwrap(), b"\xEF\xBB\xBFa\n".to_vec());
}

#[test]
fn bom_dropped_by_default() {
    let r = convert_line_endings(
        b"\xEF\xBB\xBFa\n",
        false,
        false,
        ConversionMode::ToUnix,
        false,
    );
    assert_eq!(r.unwrap(), b"a\n".to_vec());
}

#[test]
fn bom_removed_when_asked() {
    let o = opts_with(true, true, false, false, false);
    let r = convert_buffer(b"\xEF\xBB\xBFa\n", ConversionMode::ToUnix, &o);
    assert_eq!(r.unwrap(), b"a\n".to_vec());
}

#[test]
fn bom_added_when_asked() {
    let o = opts_with(false, false, true, false, false);
    let r = convert_buffer(b"a\n", ConversionMode::ToUnix, &o);
    assert_eq!(r.unwrap(), b"\xEF\xBB\xBFa\n".to_vec());
}

#[test]
fn remove_bom_wins_over_add_bom() {
    let o = opts_with(true, true, true, false, false);
    let r = convert_buffer(b"\xEF\xBB\xBFa\n", ConversionMode::ToUnix, &o);
    assert_eq!(r.unwrap(), b"a\n".to_vec());
}

#[test]
fn missing_eol_added_for_dos() {
    let r = convert_line_endings(b"abc", false, false, ConversionMode::ToDos, true);
    assert_eq!(r.unwrap(), b"abc\r\n".to_vec());
}

#[test]
fn missing_eol_added_for_unix_and_mac() {
    let u = convert_line_endings(b"abc", false, false, ConversionMode::ToUnix, true);
    assert_eq!(u.unwrap(), b"abc\n".to_vec());
    let m = convert_line_endings(b"abc", false, false, ConversionMode::ToMac, true);
    assert_eq!(m.unwrap(), b"abc\r".to_vec());
}

#[test]
fn missing_eol_not_added_when_present() {
    let r = convert_line_endings(b"abc\r\n", false, false, ConversionMode::ToDos, true);
    assert_eq!(r.unwrap(), b"abc\r\n".to_vec());
}

#[test]
fn roundtrip_lf_text_through_dos() {
    let original = b"one\ntwo\nthree\n".to_vec();
    let dos = convert_line_endings(&original, false, false, ConversionMode::ToDos, false).unwrap();
    assert_eq!(dos, b"one\r\ntwo\r\nthree\r\n".to_vec());
    let back = convert_line_endings(&dos, false, false, ConversionMode::ToUnix, false).unwrap();
    assert_eq!(back, original);
}

#[test]
fn roundtrip_crlf_text_through_unix() {
    let original = b"one\r\ntwo\r\n".to_vec();
    let unix = convert_line_endings(&original, false, false, ConversionMode::ToUnix, false).unwrap();
    assert_eq!(unix, b"one\ntwo\n".to_vec());
    let back = convert_line_endings(&unix, false, false, ConversionMode::ToDos, false).unwrap();
    assert_eq!(back, original);
}

#[test]
fn todos_twice_equals_once() {
    let once = convert_line_endings(b"a\nb\r\nc\r", false, false, ConversionMode::ToDos, false)
        .unwrap();
    let twice = convert_line_endings(&once, false, false, ConversionMode::ToDos, false).unwrap();
    assert_eq!(twice, once);
}

#[test]
fn tounix_twice_equals_once() {
    let once = convert_line_endings(b"a\r\nb\rc\n", false, false, ConversionMode::ToUnix, false)
        .unwrap();
    let twice = convert_line_endings(&once, false, false, ConversionMode::ToUnix, false).unwrap();
    assert_eq!(twice, once);
}

#[test]
fn tomac_twice_equals_once() {
    let once = convert_line_endings(b"a\nb\r\nc", false, false, ConversionMode::ToMac, false)
        .unwrap();
    let twice = convert_line_endings(&once, false, false, ConversionMode::ToMac, false).unwrap();
    assert_eq!(twice, once);
}

#[test]
fn transcode_state_counts_breaks() {
    let mut st = TranscodeState::new();
    let mut out: Vec<u8> = Vec::new();
    st.push_chunk(ConversionMode::ToDos, b"a\nb\r\nc\n", &mut out);
    assert_eq!(out, b"a\r\nb\r\nc\r\n".to_vec());
    assert_eq!(st.lines_seen, 3);
    assert_eq!(st.breaks_converted, 2);
}
