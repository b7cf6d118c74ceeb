use dos2unix_lib::binary::BinaryDetection;
use dos2unix_lib::endings::ConversionMode;
use dos2unix_lib::options::{ConversionOptions, OutputPlacement};
use dos2unix_lib::pipeline::{convert_buffer, convert_chunked, StreamConverter};

fn plain_opts(keep_bom: bool, force: bool, add_eol: bool) -> ConversionOptions {
    ConversionOptions {
        keep_bom,
        remove_bom: false,
        add_bom: false,
        force_binary: force,
        add_missing_eol: add_eol,
        preserve_permissions: false,
        preserve_timestamps: false,
        make_backup: false,
        placement: OutputPlacement::Overwrite,
    }
}

fn stream_in_chunks(
    input: &[u8],
    chunk_size: usize,
    mode: ConversionMode,
    opts: ConversionOptions,
) -> Vec<u8> {
    let mut conv = StreamConverter::new(mode, opts);
    let mut out: Vec<u8> = Vec::new();
    let mut i = 0;
    while i < input.len() {
        let end = (i + chunk_size).min(input.len());
        conv.push_chunk(&input[i..end], &mut out).unwrap();
        i = end;
    }
    conv.finish(&mut out);
    out
}

#[test]
fn chunk_split_example_matches_whole() {
    let opts = plain_opts(false, false, false);
    let mut conv = StreamConverter::new(ConversionMode::ToUnix, opts);
    let mut out: Vec<u8> = Vec::new();
    conv.push_chunk(b"a\r", &mut out).unwrap();
    conv.push_chunk(b"\nb", &mut out).unwrap();
    conv.finish(&mut out);
    assert_eq!(out, b"a\nb".to_vec());
    let whole = convert_buffer(b"a\r\nb", ConversionMode::ToUnix, &opts).unwrap();
    assert_eq!(out, whole);
}

#[test]
fn every_chunk_size_matches_whole() {
    let inputs: [&[u8]; 7] = [
        b"a\r\nb\r\nc",
        b"\r\r\n\r\n\n\r",
        b"no breaks at all",
        b"ends with cr\r",
        b"\n\n\n",
        b"\xEF\xBB\xBFbom\r\nbody\n",
        b"\r",
    ];
    let modes = [
        ConversionMode::ToUnix,
        ConversionMode::ToDos,
        ConversionMode::ToMac,
    ];
    for input in inputs.iter() {
        for mode in modes.iter() {
            for add_eol in [false, true] {
                for keep_bom in [false, true] {
                    let opts = plain_opts(keep_bom, false, add_eol);
                    let whole = convert_buffer(input, *mode, &opts).unwrap();
                    for chunk_size in 1..=input.len().max(1) {
                        let streamed = stream_in_chunks(input, chunk_size, *mode, opts);
                        assert_eq!(streamed, whole);
                    }
                }
            }
        }
    }
}

#[test]
fn trailing_cr_survives_chunk_size_one() {
    let opts = plain_opts(false, false, false);
    let streamed = stream_in_chunks(b"line1\r", 1, ConversionMode::ToUnix, opts);
    assert_eq!(streamed, b"line1\r".to_vec());
}

#[test]
fn crlf_split_at_every_boundary() {
    let opts = plain_opts(false, false, false);
    let streamed = stream_in_chunks(b"x\r\ny\r\nz", 1, ConversionMode::ToUnix, opts);
    assert_eq!(streamed, b"x\ny\nz".to_vec());
}

#[test]
fn bom_split_across_chunks_kept_once() {
    let opts = plain_opts(true, false, false);
    let streamed = stream_in_chunks(b"\xEF\xBB\xBFa\n", 1, ConversionMode::ToDos, opts);
    assert_eq!(streamed, b"\xEF\xBB\xBFa\r\n".to_vec());
}

#[test]
fn short_bom_prefix_is_plain_content() {
    // the first two mark bytes alone are ordinary content at end of stream
    let opts = plain_opts(true, false, false);
    let streamed = stream_in_chunks(b"\xEF\xBB", 1, ConversionMode::ToUnix, opts);
    assert_eq!(streamed, b"\xEF\xBB".to_vec());
}

#[test]
fn stream_gate_refuses_first_binary_chunk() {
    let opts = plain_opts(false, false, false);
    let mut conv = StreamConverter::new(ConversionMode::ToUnix, opts);
    let mut out: Vec<u8> = Vec::new();
    let r = conv.push_chunk(b"a\x01b", &mut out);
    assert_eq!(r, Err(BinaryDetection { byte: 0x01, line: 1 }));
    assert!(out.is_empty());
}

#[test]
fn stream_gate_warns_when_forced() {
    let opts = plain_opts(false, true, false);
    let mut conv = StreamConverter::new(ConversionMode::ToUnix, opts);
    let mut out: Vec<u8> = Vec::new();
    let r = conv.push_chunk(b"a\x01b\r\n", &mut out);
    assert_eq!(r, Ok(Some(BinaryDetection { byte: 0x01, line: 1 })));
    conv.finish(&mut out);
    assert_eq!(out, b"a\x01b\n".to_vec());
}

#[test]
fn stream_gate_checks_first_chunk_only() {
    // a marker in a later chunk passes through: the documented
    // best-effort limit of the streaming gate
    let opts = plain_opts(false, false, false);
    let mut conv = StreamConverter::new(ConversionMode::ToUnix, opts);
    let mut out: Vec<u8> = Vec::new();
    assert_eq!(conv.push_chunk(b"clean\r\n", &mut out), Ok(None));
    assert_eq!(conv.push_chunk(b"later\x01byte", &mut out), Ok(None));
    conv.finish(&mut out);
    assert_eq!(out, b"clean\nlater\x01byte".to_vec());
}

#[test]
fn convert_chunked_matches_whole_buffer() {
    let opts = plain_opts(true, false, true);
    let chunks: Vec<Vec<u8>> = vec![
        b"\xEF".to_vec(),
        b"\xBB\xBF".to_vec(),
        b"a\r".to_vec(),
        b"\nb".to_vec(),
    ];
    let r = convert_chunked(&chunks, ConversionMode::ToUnix, &opts).unwrap();
    let whole = convert_buffer(b"\xEF\xBB\xBFa\r\nb", ConversionMode::ToUnix, &opts).unwrap();
    assert_eq!(r, whole);
}

#[test]
fn convert_chunked_gate_on_first_chunk() {
    let opts = plain_opts(false, false, false);
    let chunks: Vec<Vec<u8>> = vec![b"a\x01".to_vec(), b"b".to_vec()];
    let r = convert_chunked(&chunks, ConversionMode::ToUnix, &opts);
    assert_eq!(r, Err(BinaryDetection { byte: 0x01, line: 1 }));
}

#[test]
fn converter_resets_after_finish() {
    let opts = plain_opts(false, false, false);
    let mut conv = StreamConverter::new(ConversionMode::ToDos, opts);
    let mut out: Vec<u8> = Vec::new();
    conv.push_chunk(b"a\n", &mut out).unwrap();
    conv.finish(&mut out);
    assert_eq!(out, b"a\r\n".to_vec());
    let mut out2: Vec<u8> = Vec::new();
    conv.push_chunk(b"b\n", &mut out2).unwrap();
    conv.finish(&mut out2);
    assert_eq!(out2, b"b\r\n".to_vec());
}
