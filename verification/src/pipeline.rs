//! The conversion pipeline: one whole buffer rewritten in a single pass,
//! and a stream converter that is fed chunks of arbitrary size and whose
//! total output is proved equal to the whole-buffer pass over the
//! concatenation of the chunks.

use vstd::prelude::*;
use vstd::slice::slice_subrange;
use crate::binary::{detect_binary, detection_at, first_marker_at, marker_free, BinaryDetection};
use crate::encoding::{detect_encoding, has_utf8_bom, sniffed, utf8_bom};
use crate::endings::{
    finish_output, lemma_transcode_from_concat, state_after, transcode_from, transcode_whole,
    ConversionMode, TranscodeState,
};
use crate::errors::ConvertError;
use crate::options::{emits_bom, ConversionOptions, OutputPlacement};

verus! {

/// The bytes behind the byte-order mark: the input without its leading
/// `EF BB BF`, or the whole input when none is there.
pub open spec fn body_of(s: Seq<u8>) -> Seq<u8> {
    if has_utf8_bom(s) {
        s.skip(3)
    } else {
        s
    }
}

/// What the output starts with: the byte-order mark, when policy and
/// input call for one.
pub open spec fn head_bytes(opts: ConversionOptions, had_bom: bool) -> Seq<u8> {
    if emits_bom(opts, had_bom) {
        utf8_bom()
    } else {
        Seq::<u8>::empty()
    }
}

/// The complete output of converting the buffer `s` under `mode` and
/// `opts`: the mark the policy asks for, then the transcoded body, with
/// the missing final terminator appended when requested.
pub open spec fn convert_output(mode: ConversionMode, opts: ConversionOptions, s: Seq<u8>) -> Seq<
    u8,
> {
    head_bytes(opts, has_utf8_bom(s)) + transcode_whole(mode, body_of(s), opts.add_missing_eol)
}

/// How many leading bytes of the body the whole-buffer binary gate
/// examines: binary markers appear early, and scanning all of a large
/// file would be wasted work.
pub const BINARY_SCAN_LIMIT: usize = 8000;

/// The window of `s` that the whole-buffer binary gate scans: all of it,
/// up to [`BINARY_SCAN_LIMIT`] bytes.
pub open spec fn scan_window(s: Seq<u8>) -> Seq<u8> {
    if s.len() <= BINARY_SCAN_LIMIT {
        s
    } else {
        s.take(BINARY_SCAN_LIMIT as int)
    }
}

/// Appends the bytes of `src` to `dst`.
fn append_bytes(dst: &mut Vec<u8>, src: &[u8])
    ensures
        final(dst)@ == old(dst)@ + src@,
{
    let ghost dst0 = dst@;
    let mut k: usize = 0;
    while k < src.len()
        invariant
            0 <= k <= src.len(),
            dst@ == dst0 + src@.take(k as int),
        decreases src.len() - k,
    {
        dst.push(src[k]);
        proof {
            assert(dst0 + src@.take(k as int).push(src@[k as int]) =~= dst0 + src@.take(
                k + 1 as int,
            ));
        }
        k = k + 1;
    }
    assert(dst0 + src@.take(src@.len() as int) =~= dst0 + src@);
}

/// Rewrites one whole buffer: refuses a source with no bytes at all,
/// strips or keeps the byte-order mark as the detector and the options
/// say, refuses binary content unless forced, transcodes the body in one
/// pass and appends the missing terminator when asked to.
///
/// Success is owed exactly when the input is non-empty and the scanned
/// window of the post-mark content is free of control markers or
/// `force_binary` is set; each error names its cause exactly.
pub fn convert_buffer(content: &[u8], mode: ConversionMode, opts: &ConversionOptions) -> (r:
    Result<Vec<u8>, ConvertError>)
    ensures
        match r {
            Ok(v) => content@.len() > 0 && (opts.force_binary || marker_free(
                scan_window(body_of(content@)),
            )) && v@ == convert_output(mode, *opts, content@),
            Err(e) => match e {
                ConvertError::EmptySource => content@.len() == 0,
                ConvertError::BinaryDetected(d) => content@.len() > 0 && !opts.force_binary
                    && exists|i: int|
                    #[trigger] first_marker_at(scan_window(body_of(content@)), i) && d
                        == detection_at(scan_window(body_of(content@)), i),
            },
        },
{
    let lead_len = if content.len() < 4 {
        content.len()
    } else {
        4
    };
    let leading = slice_subrange(content, 0, lead_len);
    let bom_len: usize = match detect_encoding(leading, None) {
        Err(e) => {
            return Err(e);
        },
        Ok(p) => p.1,
    };
    let has_bom = bom_len == 3;
    proof {
        assert(content@.len() > 0);
        assert(has_bom == has_utf8_bom(content@)) by {
            assert((sniffed(leading@).1 == 3) == has_utf8_bom(leading@));
            if content@.len() >= 3 {
                assert(leading@[0] == content@[0] && leading@[1] == content@[1] && leading@[2]
                    == content@[2]);
            }
        }
    }
    let body: &[u8] = if has_bom {
        slice_subrange(content, 3, content.len())
    } else {
        content
    };
    proof {
        assert(body@ =~= body_of(content@));
    }
    let scan_len = if body.len() > BINARY_SCAN_LIMIT {
        BINARY_SCAN_LIMIT
    } else {
        body.len()
    };
    let window = slice_subrange(body, 0, scan_len);
    proof {
        assert(window@ =~= scan_window(body_of(content@)));
    }
    match detect_binary(window, opts.force_binary) {
        Err(d) => Err(ConvertError::BinaryDetected(d)),
        Ok(_) => {
            let mut out: Vec<u8> = Vec::new();
            if !opts.remove_bom && (opts.add_bom || (has_bom && opts.keep_bom)) {
                out.push(0xEF);
                out.push(0xBB);
                out.push(0xBF);
            }
            proof {
                assert(out@ =~= head_bytes(*opts, has_utf8_bom(content@)));
            }
            let ghost head = out@;
            let mut st = TranscodeState::new();
            st.push_chunk(mode, body, &mut out);
            st.finish(mode, opts.add_missing_eol, &mut out);
            proof {
                assert(out@ =~= head + (transcode_from(mode, None, body@) + finish_output(
                    mode,
                    state_after(None, body@),
                    opts.add_missing_eol,
                )));
                assert(out@ =~= convert_output(mode, *opts, content@));
            }
            Ok(out)
        },
    }
}

/// The options that the classic whole-buffer entry point takes: a flag to
/// keep the input's byte-order mark, the binary force flag, and the
/// missing-terminator flag; nothing else switched on.
pub open spec fn basic_options(keep_bom: bool, force: bool, add_eol: bool) -> ConversionOptions {
    ConversionOptions {
        keep_bom: keep_bom,
        remove_bom: false,
        add_bom: false,
        force_binary: force,
        add_missing_eol: add_eol,
        preserve_permissions: false,
        preserve_timestamps: false,
        make_backup: false,
        placement: OutputPlacement::Overwrite,
    }
}

/// Rewrites one whole buffer under the classic flags: an empty source is
/// refused, an input mark is kept only when `keep_bom` is set, binary
/// content is refused unless `force` is set, and `add_eol` appends the
/// missing final terminator.
pub fn convert_line_endings(
    content: &[u8],
    keep_bom: bool,
    force: bool,
    conversion_mode: ConversionMode,
    add_eol: bool,
) -> (r: Result<Vec<u8>, ConvertError>)
    ensures
        match r {
            Ok(v) => content@.len() > 0 && (force || marker_free(scan_window(body_of(content@))))
                && v@ == convert_output(
                conversion_mode,
                basic_options(keep_bom, force, add_eol),
                content@,
            ),
            Err(e) => match e {
                ConvertError::EmptySource => content@.len() == 0,
                ConvertError::BinaryDetected(d) => content@.len() > 0 && !force && exists|i: int|
                    #[trigger] first_marker_at(scan_window(body_of(content@)), i) && d
                        == detection_at(scan_window(body_of(content@)), i),
            },
        },
{
    let opts = ConversionOptions {
        keep_bom: keep_bom,
        remove_bom: false,
        add_bom: false,
        force_binary: force,
        add_missing_eol: add_eol,
        preserve_permissions: false,
        preserve_timestamps: false,
        make_backup: false,
        placement: OutputPlacement::Overwrite,
    };
    convert_buffer(content, conversion_mode, &opts)
}

/// The first bytes of a stream leave the byte-order mark question open
/// while they are a proper prefix of the mark.
pub open spec fn bom_undecided(fed: Seq<u8>) -> bool {
    fed.len() < 3 && fed == utf8_bom().take(fed.len() as int)
}

/// The bytes a stream converter has written after being fed `fed`:
/// nothing while the mark is undecided, else the head and the transcoded
/// body so far, without the end-of-stream handling that `finish` adds.
pub open spec fn stream_emitted(mode: ConversionMode, opts: ConversionOptions, fed: Seq<u8>) -> Seq<
    u8,
> {
    if bom_undecided(fed) {
        Seq::<u8>::empty()
    } else {
        head_bytes(opts, has_utf8_bom(fed)) + transcode_from(mode, None, body_of(fed))
    }
}

/// Chunk-boundary equivalence, stated over the stream's model: what the
/// converter has written after any amount of input stands unchanged at
/// the front of what it writes for any extension of that input, and once
/// the stream ends, [`StreamConverter::finish`] completes it to exactly
/// the whole-buffer output [`convert_output`] of everything fed. So for
/// every chunking of an input — chunks of one byte included — the total
/// output is byte-identical to one pass over the whole buffer.
pub proof fn lemma_stream_emission_stable(
    mode: ConversionMode,
    opts: ConversionOptions,
    fed: Seq<u8>,
    more: Seq<u8>,
)
    ensures
        stream_emitted(mode, opts, fed).is_prefix_of(stream_emitted(mode, opts, fed + more)),
        stream_emitted(mode, opts, fed).is_prefix_of(convert_output(mode, opts, fed)),
{
    let e0 = stream_emitted(mode, opts, fed);
    let e1 = stream_emitted(mode, opts, fed + more);
    let c = convert_output(mode, opts, fed);
    if bom_undecided(fed) {
        assert(e0 =~= e1.subrange(0, e0.len() as int));
        assert(e0 =~= c.subrange(0, e0.len() as int));
    } else {
        if fed.len() < 3 {
            if has_utf8_bom(fed + more) {
                assert(fed =~= utf8_bom().take(fed.len() as int));
            }
            if bom_undecided(fed + more) {
                assert(fed =~= utf8_bom().take(fed.len() as int));
            }
        }
        assert(has_utf8_bom(fed + more) == has_utf8_bom(fed));
        assert(!bom_undecided(fed + more));
        assert(body_of(fed + more) =~= body_of(fed) + more);
        lemma_transcode_from_concat(mode, None, body_of(fed), more);
        assert(e1 =~= e0 + transcode_from(mode, state_after(None, body_of(fed)), more));
        assert(c =~= e0 + finish_output(
            mode,
            state_after(None, body_of(fed)),
            opts.add_missing_eol,
        ));
        assert(e0 =~= e1.subrange(0, e0.len() as int));
        assert(e0 =~= c.subrange(0, e0.len() as int));
    }
}

/// Converts one stream chunk by chunk with bounded memory: at most two
/// bytes are held back while the byte-order mark is undecided, and one
/// byte while a `\r\n` pair may be split across chunks.
///
/// The contract ties everything written to the concatenation of the
/// chunks fed so far, so the total output equals the whole-buffer pass
/// [`convert_buffer`] over that concatenation, for every chunking.
///
/// The binary gate looks at the first chunk only, a best-effort check
/// that is weaker than the whole-buffer scan: a control byte in a later
/// chunk passes through, since earlier output may already be written.
pub struct StreamConverter {
    /// The target convention.
    pub mode: ConversionMode,
    /// The conversion's configuration.
    pub options: ConversionOptions,
    /// Whether the binary gate still has to look at a first chunk.
    pub gate_pending: bool,
    /// All bytes fed so far; carried for specification only.
    pub fed: Ghost<Seq<u8>>,
    /// Bytes held back while the byte-order mark is undecided; internal.
    pub held: Vec<u8>,
    /// Whether the byte-order mark question is settled; internal.
    pub decided: bool,
    /// The transcoder state carried across chunks; internal.
    pub st: TranscodeState,
}

impl StreamConverter {
    /// The internal state agrees with the bytes fed so far.
    pub closed spec fn wf(&self) -> bool {
        if bom_undecided(self.fed@) {
            !self.decided && self.held@ == self.fed@ && self.st.prev_byte == None::<u8>
        } else {
            self.decided && self.st.prev_byte == state_after(None, body_of(self.fed@))
        }
    }

    /// A converter for one fresh stream.
    pub fn new(mode: ConversionMode, options: ConversionOptions) -> (r: StreamConverter)
        ensures
            r.wf(),
            r.mode == mode,
            r.options == options,
            r.fed@ == Seq::<u8>::empty(),
            r.gate_pending,
    {
        let r = StreamConverter {
            mode,
            options,
            gate_pending: true,
            fed: Ghost(Seq::empty()),
            held: Vec::new(),
            decided: false,
            st: TranscodeState::new(),
        };
        proof {
            assert(r.fed@ =~= utf8_bom().take(0));
        }
        r
    }

    /// Feeds one more chunk after the mark question is settled.
    fn push_more(&mut self, chunk: &[u8], out: &mut Vec<u8>)
        requires
            old(self).wf(),
            old(self).decided,
        ensures
            final(self).wf(),
            final(self).decided,
            final(self).mode == old(self).mode,
            final(self).options == old(self).options,
            final(self).gate_pending == old(self).gate_pending,
            final(self).fed@ == old(self).fed@ + chunk@,
            final(out)@.len() >= old(out)@.len(),
            final(out)@.take(old(out)@.len() as int) == old(out)@,
            stream_emitted(old(self).mode, old(self).options, old(self).fed@ + chunk@)
                == stream_emitted(old(self).mode, old(self).options, old(self).fed@)
                + final(out)@.skip(old(out)@.len() as int),
    {
        let ghost fed0 = self.fed@;
        let ghost m = self.mode;
        let ghost o = self.options;
        let ghost out0 = out@;
        let ghost body0 = body_of(fed0);
        proof {
            if fed0.len() < 3 {
                if has_utf8_bom(fed0 + chunk@) {
                    assert(fed0 =~= utf8_bom().take(fed0.len() as int));
                }
                if bom_undecided(fed0 + chunk@) {
                    assert(fed0 =~= utf8_bom().take(fed0.len() as int));
                }
            }
            assert(has_utf8_bom(fed0 + chunk@) == has_utf8_bom(fed0));
            assert(!bom_undecided(fed0 + chunk@));
            assert(body_of(fed0 + chunk@) =~= body0 + chunk@);
            lemma_transcode_from_concat(m, None, body0, chunk@);
        }
        self.st.push_chunk(self.mode, chunk, out);
        self.fed = Ghost(fed0 + chunk@);
        proof {
            assert(out@.take(out0.len() as int) =~= out0);
            assert(out@.skip(out0.len() as int) =~= transcode_from(
                m,
                state_after(None, body0),
                chunk@,
            ));
            assert(stream_emitted(m, o, fed0 + chunk@) =~= stream_emitted(m, o, fed0) + out@.skip(
                out0.len() as int,
            ));
        }
    }

    /// Settles the mark question over `data`, the whole stream so far,
    /// writes the head and the transcoded body, and records that the
    /// stream's output has begun.
    fn begin_decided(&mut self, data: Vec<u8>, out: &mut Vec<u8>)
        requires
            old(self).wf(),
            !old(self).decided,
            !bom_undecided(data@),
        ensures
            final(self).wf(),
            final(self).decided,
            final(self).mode == old(self).mode,
            final(self).options == old(self).options,
            final(self).gate_pending == old(self).gate_pending,
            final(self).fed@ == data@,
            final(out)@.len() >= old(out)@.len(),
            final(out)@.take(old(out)@.len() as int) == old(out)@,
            final(out)@.skip(old(out)@.len() as int) == stream_emitted(
                old(self).mode,
                old(self).options,
                data@,
            ),
    {
        let ghost m = self.mode;
        let ghost o = self.options;
        let ghost out0 = out@;
        let has_bom = data.len() >= 3 && data[0] == 0xEF && data[1] == 0xBB && data[2] == 0xBF;
        proof {
            assert(has_bom == has_utf8_bom(data@));
        }
        if !self.options.remove_bom && (self.options.add_bom || (has_bom
            && self.options.keep_bom)) {
            out.push(0xEF);
            out.push(0xBB);
            out.push(0xBF);
        }
        proof {
            assert(out@ =~= out0 + head_bytes(o, has_utf8_bom(data@)));
        }
        let ghost out1 = out@;
        let body: &[u8] = if has_bom {
            slice_subrange(data.as_slice(), 3, data.len())
        } else {
            data.as_slice()
        };
        proof {
            assert(body@ =~= body_of(data@));
        }
        self.st.push_chunk(self.mode, body, out);
        self.decided = true;
        self.held = Vec::new();
        self.fed = Ghost(data@);
        proof {
            assert(out@ == out1 + transcode_from(m, None, body_of(data@)));
            assert(out@.take(out0.len() as int) =~= out0);
            assert(out@.skip(out0.len() as int) =~= head_bytes(o, has_utf8_bom(data@))
                + transcode_from(m, None, body_of(data@)));
        }
    }

    /// Feeds one chunk and appends what can be decided to `out`.
    ///
    /// On the first chunk the binary gate runs: a control marker there is
    /// an error unless `force_binary` is set, in which case it is handed
    /// back as a warning and conversion goes on. On an error nothing is
    /// consumed and nothing is written.
    pub fn push_chunk(&mut self, chunk: &[u8], out: &mut Vec<u8>) -> (r: Result<
        Option<BinaryDetection>,
        BinaryDetection,
    >)
        requires
            old(self).wf(),
        ensures
            final(self).wf(),
            final(self).mode == old(self).mode,
            final(self).options == old(self).options,
            match r {
                Ok(warn) => {
                    &&& final(self).fed@ == old(self).fed@ + chunk@
                    &&& !final(self).gate_pending
                    &&& final(out)@.len() >= old(out)@.len()
                    &&& final(out)@.take(old(out)@.len() as int) == old(out)@
                    &&& stream_emitted(old(self).mode, old(self).options, old(self).fed@ + chunk@)
                        == stream_emitted(old(self).mode, old(self).options, old(self).fed@)
                        + final(out)@.skip(old(out)@.len() as int)
                    &&& match warn {
                        Some(d) => old(self).gate_pending && old(self).options.force_binary
                            && exists|i: int|
                            #[trigger] first_marker_at(chunk@, i) && d == detection_at(chunk@, i),
                        None => !old(self).gate_pending || marker_free(chunk@),
                    }
                },
                Err(d) => {
                    &&& !old(self).options.force_binary
                    &&& old(self).gate_pending
                    &&& final(self).gate_pending
                    &&& exists|i: int|
                        #[trigger] first_marker_at(chunk@, i) && d == detection_at(chunk@, i)
                    &&& final(self).fed@ == old(self).fed@
                    &&& final(out)@ == old(out)@
                },
            },
    {
        let mut warn: Option<BinaryDetection> = None;
        if self.gate_pending {
            match detect_binary(chunk, self.options.force_binary) {
                Err(d) => {
                    return Err(d);
                },
                Ok(w) => {
                    warn = w;
                    self.gate_pending = false;
                },
            }
        }
        let ghost fed0 = self.fed@;
        let ghost m = self.mode;
        let ghost o = self.options;
        let ghost out0 = out@;
        if self.decided {
            self.push_more(chunk, out);
        } else {
            let mut data: Vec<u8> = Vec::new();
            append_bytes(&mut data, self.held.as_slice());
            append_bytes(&mut data, chunk);
            proof {
                assert(data@ == fed0 + chunk@);
            }
            let still = data.len() < 3 && (data.len() == 0 || (data[0] == 0xEF && (data.len() == 1
                || data[1] == 0xBB)));
            proof {
                assert(still == bom_undecided(data@)) by {
                    if still {
                        assert(data@ =~= utf8_bom().take(data@.len() as int));
                    } else {
                        if data@.len() < 3 && data@ == utf8_bom().take(data@.len() as int) {
                            assert(data@.len() >= 1);
                            assert(data@[0] == 0xEF);
                            if data@.len() == 2 {
                                assert(data@[1] == 0xBB);
                            }
                            assert(false);
                        }
                    }
                }
            }
            if still {
                self.held = data;
                self.fed = Ghost(fed0 + chunk@);
                proof {
                    assert(out@.take(out0.len() as int) =~= out0);
                    assert(out@.skip(out0.len() as int) =~= Seq::<u8>::empty());
                    assert(stream_emitted(m, o, fed0 + chunk@) =~= stream_emitted(m, o, fed0)
                        + out@.skip(out0.len() as int));
                }
            } else {
                self.begin_decided(data, out);
                proof {
                    assert(stream_emitted(m, o, fed0) =~= Seq::<u8>::empty());
                    assert(Seq::<u8>::empty() + out@.skip(out0.len() as int) =~= out@.skip(
                        out0.len() as int,
                    ));
                }
            }
        }
        Ok(warn)
    }

    /// Ends the stream: writes whatever is still held back — undecided
    /// mark bytes as plain content, a pending `\r`, the missing final
    /// terminator — so that everything written since the stream began is
    /// exactly the whole-buffer conversion of everything fed. The
    /// converter is reset for a fresh stream.
    pub fn finish(&mut self, out: &mut Vec<u8>)
        requires
            old(self).wf(),
        ensures
            final(self).wf(),
            final(self).mode == old(self).mode,
            final(self).options == old(self).options,
            final(self).fed@ == Seq::<u8>::empty(),
            final(self).gate_pending,
            final(out)@.len() >= old(out)@.len(),
            final(out)@.take(old(out)@.len() as int) == old(out)@,
            convert_output(old(self).mode, old(self).options, old(self).fed@) == stream_emitted(
                old(self).mode,
                old(self).options,
                old(self).fed@,
            ) + final(out)@.skip(old(out)@.len() as int),
    {
        let ghost fed0 = self.fed@;
        let ghost m = self.mode;
        let ghost o = self.options;
        let ghost out0 = out@;
        let e = self.options.add_missing_eol;
        if !self.decided {
            if !self.options.remove_bom && self.options.add_bom {
                out.push(0xEF);
                out.push(0xBB);
                out.push(0xBF);
            }
            proof {
                assert(!has_utf8_bom(fed0));
                assert(out@ =~= out0 + head_bytes(o, false));
            }
            let ghost out1 = out@;
            self.st.push_chunk(self.mode, self.held.as_slice(), out);
            self.st.finish(self.mode, e, out);
            proof {
                assert(body_of(fed0) == fed0);
                assert(out@ =~= out0 + (head_bytes(o, false) + (transcode_from(m, None, fed0)
                    + finish_output(m, state_after(None, fed0), e))));
                assert(out@.take(out0.len() as int) =~= out0);
                assert(out@.skip(out0.len() as int) =~= head_bytes(o, false) + transcode_whole(
                    m,
                    fed0,
                    e,
                ));
                assert(stream_emitted(m, o, fed0) =~= Seq::<u8>::empty());
                assert(convert_output(m, o, fed0) =~= stream_emitted(m, o, fed0) + out@.skip(
                    out0.len() as int,
                ));
            }
        } else {
            self.st.finish(self.mode, e, out);
            proof {
                assert(out@.take(out0.len() as int) =~= out0);
                assert(out@.skip(out0.len() as int) =~= finish_output(
                    m,
                    state_after(None, body_of(fed0)),
                    e,
                ));
                assert(convert_output(m, o, fed0) =~= stream_emitted(m, o, fed0) + out@.skip(
                    out0.len() as int,
                ));
            }
        }
        self.held = Vec::new();
        self.decided = false;
        self.gate_pending = true;
        self.fed = Ghost(Seq::empty());
        proof {
            assert(self.fed@ =~= utf8_bom().take(0));
        }
    }
}

/// The views of a vector of byte chunks.
pub open spec fn chunk_views(chunks: Seq<Vec<u8>>) -> Seq<Seq<u8>> {
    chunks.map_values(|c: Vec<u8>| c@)
}

/// The concatenation of a sequence of chunks, in order.
pub open spec fn concat_chunks(chunks: Seq<Seq<u8>>) -> Seq<u8>
    decreases chunks.len(),
{
    if chunks.len() == 0 {
        Seq::<u8>::empty()
    } else {
        concat_chunks(chunks.drop_last()) + chunks.last()
    }
}

/// Chunk-boundary equivalence for any number of chunks of any sizes:
/// feeding every chunk, in order, through one stream converter and
/// finishing yields exactly the whole-buffer conversion
/// [`convert_output`] of the chunks' concatenation. The binary gate sees
/// the first chunk only, so the one error this path can raise names a
/// control marker of that chunk.
pub fn convert_chunked(chunks: &Vec<Vec<u8>>, mode: ConversionMode, opts: &ConversionOptions) -> (r:
    Result<Vec<u8>, BinaryDetection>)
    ensures
        match r {
            Ok(v) => v@ == convert_output(mode, *opts, concat_chunks(chunk_views(chunks@))),
            Err(d) => !opts.force_binary && chunks@.len() > 0 && exists|i: int|
                #[trigger] first_marker_at(chunks@[0]@, i) && d == detection_at(chunks@[0]@, i),
        },
{
    let ghost views = chunk_views(chunks@);
    let mut conv = StreamConverter::new(mode, *opts);
    let mut out: Vec<u8> = Vec::new();
    proof {
        assert(views.take(0) =~= Seq::<Seq<u8>>::empty());
        assert(conv.fed@ == concat_chunks(views.take(0)));
        assert(conv.fed@ =~= utf8_bom().take(0));
        assert(bom_undecided(conv.fed@));
        assert(out@ =~= stream_emitted(mode, *opts, conv.fed@));
    }
    let mut i: usize = 0;
    while i < chunks.len()
        invariant
            0 <= i <= chunks.len(),
            conv.wf(),
            conv.mode == mode,
            conv.options == *opts,
            views == chunk_views(chunks@),
            conv.fed@ == concat_chunks(views.take(i as int)),
            out@ == stream_emitted(mode, *opts, conv.fed@),
            i > 0 ==> !conv.gate_pending,
        decreases chunks.len() - i,
    {
        let ghost fed0 = conv.fed@;
        let ghost out0 = out@;
        match conv.push_chunk(chunks[i].as_slice(), &mut out) {
            Err(d) => {
                proof {
                    assert(i == 0);
                }
                return Err(d);
            },
            Ok(_) => {},
        }
        proof {
            assert(views.take(i + 1 as int).drop_last() =~= views.take(i as int));
            assert(views.take(i + 1 as int).last() == chunks@[i as int]@);
            assert(conv.fed@ == concat_chunks(views.take(i + 1 as int)));
            assert(out@ =~= out@.take(out0.len() as int) + out@.skip(out0.len() as int));
            assert(out@ =~= stream_emitted(mode, *opts, conv.fed@));
        }
        i = i + 1;
    }
    let ghost fed = conv.fed@;
    let ghost out0 = out@;
    conv.finish(&mut out);
    proof {
        assert(views.take(chunks@.len() as int) =~= views);
        assert(out@ =~= out@.take(out0.len() as int) + out@.skip(out0.len() as int));
        assert(out@ =~= convert_output(mode, *opts, concat_chunks(views)));
    }
    Ok(out)
}

} // verus!
