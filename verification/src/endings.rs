//! The line-ending transcoder: a byte-level state machine that rewrites
//! `\n`, `\r` and `\r\n` terminators into one target convention, and that
//! behaves identically whether it sees the input as one buffer or as a
//! stream of arbitrarily small chunks.

use vstd::prelude::*;

verus! {

/// The byte value of a line feed, `\n`.
pub const LF: u8 = 10;

/// The byte value of a carriage return, `\r`.
pub const CR: u8 = 13;

/// The target line-ending convention of one conversion.
#[derive(Copy, Clone, PartialEq, Eq, Structural, Debug)]
pub enum ConversionMode {
    ToUnix,
    ToDos,
    ToMac,
}

/// True of the two line-terminator bytes.
pub open spec fn is_eol_byte(b: u8) -> bool {
    b == LF || b == CR
}

/// The bytes emitted for one input byte `b`, given the previous input byte
/// (`None` at the start of a stream).
///
/// Under `ToUnix`, a previous `\r` is still unwritten when `b` arrives: the
/// decision whether it was part of a `\r\n` pair is taken here, so the
/// emission for `b` may include that held `\r`.
pub open spec fn step_output(mode: ConversionMode, prev: Option<u8>, b: u8) -> Seq<u8> {
    match mode {
        ConversionMode::ToUnix => {
            if prev == Some(CR) {
                if b == LF {
                    seq![LF]
                } else if b == CR {
                    seq![CR]
                } else {
                    seq![CR, b]
                }
            } else {
                if b == CR {
                    Seq::<u8>::empty()
                } else {
                    seq![b]
                }
            }
        },
        ConversionMode::ToDos => {
            if b == LF && prev != Some(CR) {
                seq![CR, LF]
            } else {
                seq![b]
            }
        },
        ConversionMode::ToMac => {
            if b == LF {
                if prev == Some(CR) {
                    seq![LF]
                } else {
                    seq![CR]
                }
            } else {
                seq![b]
            }
        },
    }
}

/// The output for the bytes of `s`, processed from carried state `prev`.
/// The flush of a still-held `\r` at end of stream is not included; see
/// [`finish_output`].
pub open spec fn transcode_from(mode: ConversionMode, prev: Option<u8>, s: Seq<u8>) -> Seq<u8>
    decreases s.len(),
{
    if s.len() == 0 {
        Seq::<u8>::empty()
    } else {
        step_output(mode, prev, s[0]) + transcode_from(mode, Some(s[0]), s.skip(1))
    }
}

/// The carried state after the bytes of `s` have been consumed from state
/// `prev`: the last byte of `s`, or `prev` unchanged when `s` is empty.
pub open spec fn state_after(prev: Option<u8>, s: Seq<u8>) -> Option<u8> {
    if s.len() == 0 {
        prev
    } else {
        Some(s[s.len() - 1])
    }
}

/// The bytes a still-pending `\r` contributes at end of stream: under
/// `ToUnix` no `\n` follows it any more, so it passes through unchanged.
pub open spec fn flush_output(mode: ConversionMode, prev: Option<u8>) -> Seq<u8> {
    if mode == ConversionMode::ToUnix && prev == Some(CR) {
        seq![CR]
    } else {
        Seq::<u8>::empty()
    }
}

/// The line terminator that `mode` writes.
pub open spec fn eol_output(mode: ConversionMode) -> Seq<u8> {
    match mode {
        ConversionMode::ToUnix => seq![LF],
        ConversionMode::ToDos => seq![CR, LF],
        ConversionMode::ToMac => seq![CR],
    }
}

/// Whether a final line terminator is missing: the stream was non-empty and
/// its last byte was no terminator.
pub open spec fn needs_eol(prev: Option<u8>) -> bool {
    match prev {
        Some(b) => !is_eol_byte(b),
        None => false,
    }
}

/// The bytes emitted at end of stream from carried state `prev`: the pending
/// `\r`, if any, then the missing final terminator when `add_eol` asks for it.
pub open spec fn finish_output(mode: ConversionMode, prev: Option<u8>, add_eol: bool) -> Seq<u8> {
    flush_output(mode, prev) + if add_eol && needs_eol(prev) {
        eol_output(mode)
    } else {
        Seq::<u8>::empty()
    }
}

/// One whole buffer transcoded in a single pass, end-of-stream handling
/// included.
pub open spec fn transcode_whole(mode: ConversionMode, s: Seq<u8>, add_eol: bool) -> Seq<u8> {
    transcode_from(mode, None, s) + finish_output(mode, state_after(None, s), add_eol)
}

/// The number of `\n` bytes in `s`.
pub open spec fn count_lf(s: Seq<u8>) -> nat
    decreases s.len(),
{
    if s.len() == 0 {
        0
    } else {
        (if s[0] == LF {
            1nat
        } else {
            0nat
        }) + count_lf(s.skip(1))
    }
}

/// Whether processing `b` after `prev` changes a line break (1) or copies
/// the input (0).
pub open spec fn step_converted(mode: ConversionMode, prev: Option<u8>, b: u8) -> nat {
    match mode {
        ConversionMode::ToUnix => if prev == Some(CR) && b == LF {
            1nat
        } else {
            0nat
        },
        ConversionMode::ToDos => if b == LF && prev != Some(CR) {
            1nat
        } else {
            0nat
        },
        ConversionMode::ToMac => if b == LF && prev != Some(CR) {
            1nat
        } else {
            0nat
        },
    }
}

/// The number of line breaks that transcoding `s` from state `prev` changes.
pub open spec fn count_converted(mode: ConversionMode, prev: Option<u8>, s: Seq<u8>) -> nat
    decreases s.len(),
{
    if s.len() == 0 {
        0
    } else {
        step_converted(mode, prev, s[0]) + count_converted(mode, Some(s[0]), s.skip(1))
    }
}

/// Addition on a diagnostic counter, saturating at `u64::MAX`.
pub open spec fn sat_count(base: u64, extra: nat) -> u64 {
    if base + extra <= u64::MAX {
        (base + extra) as u64
    } else {
        u64::MAX
    }
}

/// Transcoding distributes over concatenation of the input: processing
/// `a + b` in one call emits the same bytes as processing `a`, then `b`
/// from the carried state. This is the cross-chunk correctness of the
/// state machine, for a split at any position.
pub proof fn lemma_transcode_from_concat(
    mode: ConversionMode,
    prev: Option<u8>,
    a: Seq<u8>,
    b: Seq<u8>,
)
    ensures
        transcode_from(mode, prev, a + b) == transcode_from(mode, prev, a) + transcode_from(
            mode,
            state_after(prev, a),
            b,
        ),
        state_after(prev, a + b) == state_after(state_after(prev, a), b),
    decreases a.len(),
{
    if a.len() == 0 {
        assert(a + b =~= b);
        assert(transcode_from(mode, prev, a) + transcode_from(mode, prev, b) =~= transcode_from(
            mode,
            prev,
            b,
        ));
    } else {
        assert((a + b)[0] == a[0]);
        assert((a + b).skip(1) =~= a.skip(1) + b);
        lemma_transcode_from_concat(mode, Some(a[0]), a.skip(1), b);
        assert(state_after(prev, a) == state_after(Some(a[0]), a.skip(1)));
        assert(step_output(mode, prev, a[0]) + (transcode_from(mode, Some(a[0]), a.skip(1))
            + transcode_from(mode, state_after(prev, a), b)) =~= (step_output(mode, prev, a[0])
            + transcode_from(mode, Some(a[0]), a.skip(1))) + transcode_from(
            mode,
            state_after(prev, a),
            b,
        ));
    }
}

/// Appending one byte to the input appends that byte's emission to the output.
pub proof fn lemma_transcode_from_snoc(mode: ConversionMode, prev: Option<u8>, s: Seq<u8>, b: u8)
    ensures
        transcode_from(mode, prev, s.push(b)) == transcode_from(mode, prev, s) + step_output(
            mode,
            state_after(prev, s),
            b,
        ),
{
    assert(s.push(b) =~= s + seq![b]);
    lemma_transcode_from_concat(mode, prev, s, seq![b]);
    let q = state_after(prev, s);
    assert(seq![b].len() == 1 && seq![b][0] == b);
    assert(seq![b].skip(1) =~= Seq::<u8>::empty());
    assert(transcode_from(mode, q, seq![b]) == step_output(mode, q, b) + transcode_from(
        mode,
        Some(b),
        seq![b].skip(1),
    ));
    assert(transcode_from(mode, q, seq![b]) =~= step_output(mode, q, b));
}

/// `count_lf` over an input extended by one byte.
pub proof fn lemma_count_lf_snoc(s: Seq<u8>, b: u8)
    ensures
        count_lf(s.push(b)) == count_lf(s) + (if b == LF {
            1nat
        } else {
            0nat
        }),
    decreases s.len(),
{
    if s.len() == 0 {
        assert(s.push(b)[0] == b);
        assert(s.push(b).skip(1) =~= Seq::<u8>::empty());
        assert(count_lf(Seq::<u8>::empty()) == 0);
    } else {
        assert(s.push(b)[0] == s[0]);
        assert(s.push(b).skip(1) =~= s.skip(1).push(b));
        lemma_count_lf_snoc(s.skip(1), b);
        assert(count_lf(s.push(b)) == (if s[0] == LF {
            1nat
        } else {
            0nat
        }) + count_lf(s.skip(1).push(b)));
        assert(count_lf(s) == (if s[0] == LF {
            1nat
        } else {
            0nat
        }) + count_lf(s.skip(1)));
    }
}

/// `count_lf` never exceeds the input's length.
pub proof fn lemma_count_lf_le_len(s: Seq<u8>)
    ensures
        count_lf(s) <= s.len(),
    decreases s.len(),
{
    if s.len() > 0 {
        lemma_count_lf_le_len(s.skip(1));
    }
}

/// `count_converted` over an input extended by one byte.
pub proof fn lemma_count_converted_snoc(mode: ConversionMode, prev: Option<u8>, s: Seq<u8>, b: u8)
    ensures
        count_converted(mode, prev, s.push(b)) == count_converted(mode, prev, s) + step_converted(
            mode,
            state_after(prev, s),
            b,
        ),
    decreases s.len(),
{
    if s.len() == 0 {
        assert(s.push(b)[0] == b);
        assert(s.push(b).skip(1) =~= Seq::<u8>::empty());
        assert(count_converted(mode, Some(b), Seq::<u8>::empty()) == 0);
    } else {
        assert(s.push(b)[0] == s[0]);
        assert(s.push(b).skip(1) =~= s.skip(1).push(b));
        lemma_count_converted_snoc(mode, Some(s[0]), s.skip(1), b);
        assert(state_after(prev, s) == state_after(Some(s[0]), s.skip(1)));
        assert(count_converted(mode, prev, s.push(b)) == step_converted(mode, prev, s[0])
            + count_converted(mode, Some(s[0]), s.skip(1).push(b)));
        assert(count_converted(mode, prev, s) == step_converted(mode, prev, s[0])
            + count_converted(mode, Some(s[0]), s.skip(1)));
    }
}

/// Text whose line breaks are all bare `\n`: no `\r` byte occurs.
pub open spec fn lf_only(s: Seq<u8>) -> bool {
    forall|i: int| 0 <= i < s.len() ==> s[i] != CR
}

/// Text whose `\r` and `\n` bytes occur only as `\r\n` pairs.
pub open spec fn crlf_paired(s: Seq<u8>) -> bool {
    forall|i: int|
        0 <= i < s.len() ==> (((#[trigger] s[i]) == CR ==> i + 1 < s.len() && s[i + 1] == LF) && (
        s[i] == LF ==> i >= 1 && s[i - 1] == CR))
}

/// Text in which the three bytes `\r\r\n` never stand together.
pub open spec fn no_crcrlf(s: Seq<u8>) -> bool {
    forall|i: int|
        0 <= i && i + 2 < s.len() ==> !((#[trigger] s[i]) == CR && s[i + 1] == CR && s[i + 2]
            == LF)
}

/// Transcoding a one-byte input is one step.
proof fn lemma_transcode_one(mode: ConversionMode, p: Option<u8>, a: u8)
    ensures
        transcode_from(mode, p, seq![a]) == step_output(mode, p, a),
{
    assert(seq![a].skip(1) =~= Seq::<u8>::empty());
    assert(transcode_from(mode, Some(a), seq![a].skip(1)) == Seq::<u8>::empty());
    assert(step_output(mode, p, a) + Seq::<u8>::empty() =~= step_output(mode, p, a));
}

/// Transcoding a two-byte input is two steps.
proof fn lemma_transcode_two(mode: ConversionMode, p: Option<u8>, a: u8, b: u8)
    ensures
        transcode_from(mode, p, seq![a, b]) == step_output(mode, p, a) + step_output(
            mode,
            Some(a),
            b,
        ),
{
    assert(seq![a, b].skip(1) =~= seq![b]);
    lemma_transcode_one(mode, Some(a), b);
}

/// A second `ToDos` pass over `ToDos` output copies it: the first pass
/// leaves no `\n` without a `\r` before it.
proof fn lemma_todos_fixpoint(p: Option<u8>, q: Option<u8>, s: Seq<u8>)
    requires
        p == Some(CR) ==> q == Some(CR),
    ensures
        transcode_from(ConversionMode::ToDos, q, transcode_from(ConversionMode::ToDos, p, s))
            == transcode_from(ConversionMode::ToDos, p, s),
    decreases s.len(),
{
    let m = ConversionMode::ToDos;
    if s.len() > 0 {
        let b = s[0];
        let rest = s.skip(1);
        let step = step_output(m, p, b);
        let ir = transcode_from(m, Some(b), rest);
        lemma_transcode_from_concat(m, q, step, ir);
        if b == LF && p != Some(CR) {
            assert(step =~= seq![CR, LF]);
            lemma_transcode_two(m, q, CR, LF);
            assert(transcode_from(m, q, step) =~= step);
            assert(state_after(q, step) == Some(LF));
            lemma_todos_fixpoint(Some(b), Some(LF), rest);
        } else {
            assert(step =~= seq![b]);
            lemma_transcode_one(m, q, b);
            assert(transcode_from(m, q, step) =~= step);
            assert(state_after(q, step) == Some(b));
            lemma_todos_fixpoint(Some(b), Some(b), rest);
        }
        assert(step + ir == transcode_from(m, p, s));
        assert(transcode_from(m, q, step + ir) =~= step + ir);
    }
}

/// A second `ToMac` pass over `ToMac` output copies it: the first pass
/// leaves no `\n` without a `\r` before it.
proof fn lemma_tomac_fixpoint(p: Option<u8>, q: Option<u8>, s: Seq<u8>)
    requires
        p == Some(CR) ==> q == Some(CR),
    ensures
        transcode_from(ConversionMode::ToMac, q, transcode_from(ConversionMode::ToMac, p, s))
            == transcode_from(ConversionMode::ToMac, p, s),
    decreases s.len(),
{
    let m = ConversionMode::ToMac;
    if s.len() > 0 {
        let b = s[0];
        let rest = s.skip(1);
        let step = step_output(m, p, b);
        let ir = transcode_from(m, Some(b), rest);
        lemma_transcode_from_concat(m, q, step, ir);
        if b == LF && p == Some(CR) {
            assert(step =~= seq![LF]);
            lemma_transcode_one(m, q, LF);
            assert(transcode_from(m, q, step) =~= step);
            lemma_tomac_fixpoint(Some(b), Some(LF), rest);
        } else if b == LF {
            assert(step =~= seq![CR]);
            lemma_transcode_one(m, q, CR);
            assert(transcode_from(m, q, step) =~= step);
            lemma_tomac_fixpoint(Some(b), Some(CR), rest);
        } else {
            assert(step =~= seq![b]);
            lemma_transcode_one(m, q, b);
            assert(transcode_from(m, q, step) =~= step);
            lemma_tomac_fixpoint(Some(b), Some(b), rest);
        }
        assert(step + ir == transcode_from(m, p, s));
        assert(transcode_from(m, q, step + ir) =~= step + ir);
    }
}

/// A complete `ToUnix` run from carried state `p`: the emission for the
/// bytes of `s` and the flush of a `\r` still held at the end.
pub open spec fn unix_run(p: Option<u8>, s: Seq<u8>) -> Seq<u8> {
    transcode_from(ConversionMode::ToUnix, p, s) + flush_output(
        ConversionMode::ToUnix,
        state_after(p, s),
    )
}

/// `unix_run` unfolds one input byte at a time.
proof fn lemma_unix_run_unfold(p: Option<u8>, s: Seq<u8>)
    requires
        s.len() > 0,
    ensures
        unix_run(p, s) == step_output(ConversionMode::ToUnix, p, s[0]) + unix_run(
            Some(s[0]),
            s.skip(1),
        ),
{
    let m = ConversionMode::ToUnix;
    assert(state_after(p, s) == state_after(Some(s[0]), s.skip(1)));
    assert(step_output(m, p, s[0]) + (transcode_from(m, Some(s[0]), s.skip(1)) + flush_output(
        m,
        state_after(Some(s[0]), s.skip(1)),
    )) =~= (step_output(m, p, s[0]) + transcode_from(m, Some(s[0]), s.skip(1))) + flush_output(
        m,
        state_after(p, s),
    ));
}

/// A second `ToUnix` run over `ToUnix` output copies it, except that a
/// `\r` held in the outer state is written first. The input may not hold
/// `\r\r\n`: there the first run makes a fresh `\r\n` pair out of the two
/// ends and a second run would collapse it.
proof fn lemma_tounix_fixpoint(p: Option<u8>, q: Option<u8>, s: Seq<u8>)
    requires
        no_crcrlf(s),
        q == Some(CR) ==> p == Some(CR) && (s.len() > 0 ==> s[0] != LF),
        p == Some(CR) ==> ((s.len() >= 2 && s[0] == CR) ==> s[1] != LF),
    ensures
        unix_run(q, unix_run(p, s)) == flush_output(ConversionMode::ToUnix, q) + unix_run(p, s),
    decreases s.len(),
{
    let m = ConversionMode::ToUnix;
    if s.len() == 0 {
        if p == Some(CR) {
            assert(unix_run(p, s) =~= seq![CR]);
            lemma_transcode_one(m, q, CR);
            if q == Some(CR) {
                assert(unix_run(q, seq![CR]) =~= seq![CR, CR]);
                assert(flush_output(m, q) + unix_run(p, s) =~= seq![CR, CR]);
            } else {
                assert(unix_run(q, seq![CR]) =~= seq![CR]);
                assert(flush_output(m, q) + unix_run(p, s) =~= seq![CR]);
            }
        } else {
            assert(unix_run(p, s) =~= Seq::<u8>::empty());
            assert(unix_run(q, unix_run(p, s)) =~= flush_output(m, q));
            assert(flush_output(m, q) + unix_run(p, s) =~= flush_output(m, q));
        }
    } else {
        let b = s[0];
        let rest = s.skip(1);
        let step = step_output(m, p, b);
        let ir = unix_run(Some(b), rest);
        lemma_unix_run_unfold(p, s);
        assert(unix_run(p, s) == step + ir);
        lemma_transcode_from_concat(m, q, step, ir);
        let qq = state_after(q, step);
        assert(unix_run(q, step + ir) =~= transcode_from(m, q, step) + unix_run(qq, ir));
        assert(no_crcrlf(rest)) by {
            assert forall|i: int| 0 <= i && i + 2 < rest.len() implies !((#[trigger] rest[i]) == CR
                && rest[i + 1] == CR && rest[i + 2] == LF) by {
                assert(rest[i] == s[i + 1] && rest[i + 1] == s[i + 2] && rest[i + 2] == s[i + 3]);
            }
        }
        if b == CR && p != Some(CR) {
            assert(step =~= Seq::<u8>::empty());
            assert(qq == q);
            assert(q != Some(CR));
            assert(transcode_from(m, q, step) == Seq::<u8>::empty());
            lemma_tounix_fixpoint(Some(b), qq, rest);
            assert(unix_run(q, step + ir) =~= flush_output(m, q) + (step + ir));
        } else if b == CR {
            assert(step =~= seq![CR]);
            lemma_transcode_one(m, q, CR);
            assert(qq == Some(CR));
            lemma_tounix_fixpoint(Some(b), qq, rest);
            if q == Some(CR) {
                assert(transcode_from(m, q, step) =~= seq![CR]);
            } else {
                assert(transcode_from(m, q, step) =~= Seq::<u8>::empty());
            }
            assert(unix_run(q, step + ir) =~= flush_output(m, q) + (step + ir));
        } else if b == LF {
            assert(q != Some(CR));
            assert(step =~= seq![LF]);
            lemma_transcode_one(m, q, LF);
            assert(transcode_from(m, q, step) =~= seq![LF]);
            assert(qq == Some(LF));
            lemma_tounix_fixpoint(Some(b), qq, rest);
            assert(unix_run(q, step + ir) =~= flush_output(m, q) + (step + ir));
        } else if p == Some(CR) {
            assert(step =~= seq![CR, b]);
            lemma_transcode_two(m, q, CR, b);
            if q == Some(CR) {
                assert(transcode_from(m, q, step) =~= seq![CR, CR, b]);
            } else {
                assert(transcode_from(m, q, step) =~= seq![CR, b]);
            }
            assert(qq == Some(b));
            lemma_tounix_fixpoint(Some(b), qq, rest);
            assert(unix_run(q, step + ir) =~= flush_output(m, q) + (step + ir));
        } else {
            assert(q != Some(CR));
            assert(step =~= seq![b]);
            lemma_transcode_one(m, q, b);
            assert(transcode_from(m, q, step) =~= seq![b]);
            assert(qq == Some(b));
            lemma_tounix_fixpoint(Some(b), qq, rest);
            assert(unix_run(q, step + ir) =~= flush_output(m, q) + (step + ir));
        }
    }
}

/// A complete run maps a non-empty input to a non-empty output whose last
/// byte is a line terminator exactly when the input's last byte is one,
/// and is the input's last byte itself when that one is no terminator.
proof fn lemma_run_last(mode: ConversionMode, p: Option<u8>, s: Seq<u8>)
    requires
        s.len() > 0,
    ensures
        ({
            let t = transcode_from(mode, p, s) + flush_output(mode, state_after(p, s));
            t.len() > 0 && (is_eol_byte(t.last()) <==> is_eol_byte(s.last())) && (!is_eol_byte(
                s.last(),
            ) ==> t.last() == s.last())
        }),
{
    let bl = s.drop_last();
    let b = s.last();
    assert(bl.push(b) =~= s);
    lemma_transcode_from_snoc(mode, p, bl, b);
    let qb = state_after(p, bl);
    let st = step_output(mode, qb, b);
    let fl = flush_output(mode, state_after(p, s));
    assert(state_after(p, s) == Some(b));
    let t = transcode_from(mode, p, s) + fl;
    if mode == ConversionMode::ToUnix && b == CR {
        assert(fl =~= seq![CR]);
        assert(t.last() == CR);
    } else {
        assert(fl =~= Seq::<u8>::empty());
        assert(st.len() > 0);
        assert(t.last() == st.last());
        assert(st.last() == b || (b == LF && st.last() == CR));
    }
}

/// Converting to DOS endings twice gives the bytes of one conversion:
/// the first pass leaves every `\n` preceded by `\r`, so the second finds
/// nothing to change.
pub proof fn lemma_todos_idempotent(s: Seq<u8>, add_eol: bool)
    ensures
        transcode_whole(
            ConversionMode::ToDos,
            transcode_whole(ConversionMode::ToDos, s, add_eol),
            add_eol,
        ) == transcode_whole(ConversionMode::ToDos, s, add_eol),
{
    let m = ConversionMode::ToDos;
    let t0 = transcode_from(m, None, s);
    let st1 = state_after(None, s);
    let eolpart = if add_eol && needs_eol(st1) {
        eol_output(m)
    } else {
        Seq::<u8>::empty()
    };
    assert(finish_output(m, st1, add_eol) =~= eolpart);
    let t = transcode_whole(m, s, add_eol);
    assert(t == t0 + eolpart);
    lemma_transcode_from_concat(m, None, t0, eolpart);
    lemma_todos_fixpoint(None, None, s);
    let q1 = state_after(None, t0);
    if add_eol && needs_eol(st1) {
        assert(eolpart =~= seq![CR, LF]);
        lemma_transcode_two(m, q1, CR, LF);
        assert(transcode_from(m, q1, eolpart) =~= eolpart);
    } else {
        assert(transcode_from(m, q1, eolpart) =~= eolpart);
    }
    assert(transcode_from(m, None, t) == t0 + eolpart);
    let st2 = state_after(None, t);
    assert(!(add_eol && needs_eol(st2))) by {
        if t.len() == 0 {
        } else if add_eol {
            if needs_eol(st1) {
                assert(t.last() == LF);
            } else {
                assert(s.len() > 0 && is_eol_byte(s.last()));
                lemma_run_last(m, None, s);
                assert(flush_output(m, state_after(None, s)) =~= Seq::<u8>::empty());
                assert(t0 + flush_output(m, state_after(None, s)) =~= t0);
                assert(t =~= t0);
                assert(is_eol_byte(t.last()));
            }
        }
    }
    assert(finish_output(m, st2, add_eol) =~= Seq::<u8>::empty());
    assert(transcode_whole(m, t, add_eol) =~= t);
}

/// Converting to Mac endings twice gives the bytes of one conversion.
pub proof fn lemma_tomac_idempotent(s: Seq<u8>, add_eol: bool)
    ensures
        transcode_whole(
            ConversionMode::ToMac,
            transcode_whole(ConversionMode::ToMac, s, add_eol),
            add_eol,
        ) == transcode_whole(ConversionMode::ToMac, s, add_eol),
{
    let m = ConversionMode::ToMac;
    let t0 = transcode_from(m, None, s);
    let st1 = state_after(None, s);
    let eolpart = if add_eol && needs_eol(st1) {
        eol_output(m)
    } else {
        Seq::<u8>::empty()
    };
    assert(finish_output(m, st1, add_eol) =~= eolpart);
    let t = transcode_whole(m, s, add_eol);
    assert(t == t0 + eolpart);
    lemma_transcode_from_concat(m, None, t0, eolpart);
    lemma_tomac_fixpoint(None, None, s);
    let q1 = state_after(None, t0);
    if add_eol && needs_eol(st1) {
        assert(eolpart =~= seq![CR]);
        lemma_transcode_one(m, q1, CR);
        assert(transcode_from(m, q1, eolpart) =~= eolpart);
    } else {
        assert(transcode_from(m, q1, eolpart) =~= eolpart);
    }
    assert(transcode_from(m, None, t) == t0 + eolpart);
    let st2 = state_after(None, t);
    assert(!(add_eol && needs_eol(st2))) by {
        if t.len() == 0 {
        } else if add_eol {
            if needs_eol(st1) {
                assert(t.last() == CR);
            } else {
                assert(s.len() > 0 && is_eol_byte(s.last()));
                lemma_run_last(m, None, s);
                assert(flush_output(m, state_after(None, s)) =~= Seq::<u8>::empty());
                assert(t0 + flush_output(m, state_after(None, s)) =~= t0);
                assert(t =~= t0);
                assert(is_eol_byte(t.last()));
            }
        }
    }
    assert(finish_output(m, st2, add_eol) =~= Seq::<u8>::empty());
    assert(transcode_whole(m, t, add_eol) =~= t);
}

/// Converting to Unix endings twice gives the bytes of one conversion,
/// for input without the three bytes `\r\r\n`. On `\r\r\n` one pass makes
/// a fresh `\r\n` out of the second `\r` and the `\n`, which a second pass
/// would collapse, so that input is left out.
pub proof fn lemma_tounix_idempotent(s: Seq<u8>, add_eol: bool)
    requires
        no_crcrlf(s),
    ensures
        transcode_whole(
            ConversionMode::ToUnix,
            transcode_whole(ConversionMode::ToUnix, s, add_eol),
            add_eol,
        ) == transcode_whole(ConversionMode::ToUnix, s, add_eol),
{
    let m = ConversionMode::ToUnix;
    let st1 = state_after(None, s);
    let r = unix_run(None, s);
    let eolpart = if add_eol && needs_eol(st1) {
        eol_output(m)
    } else {
        Seq::<u8>::empty()
    };
    let t = transcode_whole(m, s, add_eol);
    assert(t =~= r + eolpart);
    lemma_tounix_fixpoint(None, None, s);
    assert(unix_run(None, r) == flush_output(m, None) + r);
    assert(flush_output(m, None) + r =~= r);
    let q1 = state_after(None, r);
    if add_eol && needs_eol(st1) {
        assert(s.len() > 0 && !is_eol_byte(s.last()));
        lemma_run_last(m, None, s);
        assert(r.len() > 0 && r.last() == s.last());
        assert(q1 == Some(r.last()));
        assert(q1 != Some(CR));
        assert(flush_output(m, q1) =~= Seq::<u8>::empty());
        assert(transcode_from(m, None, r) + flush_output(m, q1) == r);
        assert(transcode_from(m, None, r) =~= r);
        assert(eolpart =~= seq![LF]);
        lemma_transcode_from_concat(m, None, r, eolpart);
        lemma_transcode_one(m, q1, LF);
        assert(transcode_from(m, q1, eolpart) =~= seq![LF]);
        assert(transcode_from(m, None, t) == r + eolpart);
        let st2 = state_after(None, t);
        assert(t.last() == LF);
        assert(st2 == Some(LF));
        assert(finish_output(m, st2, add_eol) =~= Seq::<u8>::empty());
        assert(transcode_whole(m, t, add_eol) =~= t);
    } else {
        assert(t =~= r);
        let st2 = state_after(None, t);
        assert(transcode_from(m, None, t) + flush_output(m, st2) == r);
        assert(!(add_eol && needs_eol(st2))) by {
            if add_eol && t.len() > 0 {
                assert(s.len() > 0 && is_eol_byte(s.last())) by {
                    if s.len() == 0 {
                        assert(unix_run(None, s) =~= Seq::<u8>::empty());
                        assert(t.len() == 0);
                    }
                }
                lemma_run_last(m, None, s);
                assert(is_eol_byte(t.last()));
            }
        }
        assert(finish_output(m, st2, add_eol) =~= flush_output(m, st2));
        assert(transcode_whole(m, t, add_eol) == t);
    }
}

/// A `ToUnix` pass over `ToDos` output of `\r`-free text recovers the
/// text: each `\n` became `\r\n` and collapses back.
proof fn lemma_unix_of_dos(p: Option<u8>, q: Option<u8>, s: Seq<u8>)
    requires
        lf_only(s),
        p != Some(CR),
        q != Some(CR),
    ensures
        transcode_from(ConversionMode::ToUnix, q, transcode_from(ConversionMode::ToDos, p, s))
            == s,
        state_after(q, transcode_from(ConversionMode::ToDos, p, s)) != Some(CR),
    decreases s.len(),
{
    let md = ConversionMode::ToDos;
    let mu = ConversionMode::ToUnix;
    if s.len() == 0 {
    } else {
        let b = s[0];
        let rest = s.skip(1);
        assert(lf_only(rest)) by {
            assert forall|i: int| 0 <= i < rest.len() implies rest[i] != CR by {
                assert(rest[i] == s[i + 1]);
            }
        }
        let step = step_output(md, p, b);
        let ir = transcode_from(md, Some(b), rest);
        lemma_transcode_from_concat(mu, q, step, ir);
        assert(b != CR);
        if b == LF {
            assert(step =~= seq![CR, LF]);
            lemma_transcode_two(mu, q, CR, LF);
            assert(transcode_from(mu, q, step) =~= seq![LF]);
            assert(state_after(q, step) == Some(LF));
            lemma_unix_of_dos(Some(b), Some(LF), rest);
            assert(seq![LF] + rest =~= s);
        } else {
            assert(step =~= seq![b]);
            lemma_transcode_one(mu, q, b);
            assert(transcode_from(mu, q, step) =~= seq![b]);
            assert(state_after(q, step) == Some(b));
            lemma_unix_of_dos(Some(b), Some(b), rest);
            assert(seq![b] + rest =~= s);
        }
        assert(step + ir == transcode_from(md, p, s));
    }
}

/// Converting `\n`-terminated text to DOS endings and back to Unix endings
/// recovers the input byte for byte.
pub proof fn lemma_todos_tounix_roundtrip(s: Seq<u8>)
    requires
        lf_only(s),
    ensures
        transcode_whole(
            ConversionMode::ToUnix,
            transcode_whole(ConversionMode::ToDos, s, false),
            false,
        ) == s,
{
    let md = ConversionMode::ToDos;
    let mu = ConversionMode::ToUnix;
    let t0 = transcode_from(md, None, s);
    assert(finish_output(md, state_after(None, s), false) =~= Seq::<u8>::empty());
    let t = transcode_whole(md, s, false);
    assert(t =~= t0);
    lemma_unix_of_dos(None, None, s);
    assert(finish_output(mu, state_after(None, t), false) =~= flush_output(
        mu,
        state_after(None, t),
    ));
    assert(flush_output(mu, state_after(None, t)) =~= Seq::<u8>::empty());
    assert(transcode_whole(mu, t, false) =~= transcode_from(mu, None, t));
}

/// A `ToDos` pass over `ToUnix` output of text whose breaks are all
/// `\r\n` pairs recovers the text: each pair became `\n` and expands back.
proof fn lemma_dos_of_unix(p: Option<u8>, q: Option<u8>, s: Seq<u8>)
    requires
        crlf_paired(s),
        p != Some(CR),
        q != Some(CR),
    ensures
        transcode_from(ConversionMode::ToDos, q, transcode_from(ConversionMode::ToUnix, p, s))
            == s,
        state_after(p, s) != Some(CR),
    decreases s.len(),
{
    let md = ConversionMode::ToDos;
    let mu = ConversionMode::ToUnix;
    if s.len() == 0 {
    } else {
        let b = s[0];
        if b == LF {
            assert(false);
        } else if b == CR {
            assert(s.len() >= 2 && s[1] == LF);
            let rest2 = s.skip(2);
            assert(crlf_paired(rest2)) by {
                assert forall|i: int| 0 <= i < rest2.len() implies (((#[trigger] rest2[i]) == CR
                    ==> i + 1 < rest2.len() && rest2[i + 1] == LF) && (rest2[i] == LF ==> i >= 1
                    && rest2[i - 1] == CR)) by {
                    assert(rest2[i] == s[i + 2]);
                    if rest2[i] == CR {
                        assert(s[i + 2] == CR);
                        assert(i + 3 < s.len() && s[i + 3] == LF);
                        assert(rest2[i + 1] == s[i + 3]);
                    }
                    if rest2[i] == LF {
                        assert(s[i + 2] == LF);
                        assert(s[i + 1] == CR);
                        if i == 0 {
                            assert(s[1] == LF && s[1] == CR);
                        }
                        assert(rest2[i - 1] == s[i + 1]);
                    }
                }
            }
            // the ToUnix pass turns the leading pair into a bare newline
            let skip1 = s.skip(1);
            assert(skip1[0] == LF);
            assert(skip1.skip(1) =~= rest2);
            assert(transcode_from(mu, p, s) == step_output(mu, p, CR) + transcode_from(
                mu,
                Some(CR),
                skip1,
            ));
            assert(transcode_from(mu, Some(CR), skip1) == step_output(mu, Some(CR), LF)
                + transcode_from(mu, Some(LF), rest2));
            assert(step_output(mu, p, CR) =~= Seq::<u8>::empty());
            assert(step_output(mu, Some(CR), LF) =~= seq![LF]);
            let u2 = transcode_from(mu, Some(LF), rest2);
            assert(transcode_from(mu, p, s) =~= seq![LF] + u2);
            lemma_transcode_from_concat(md, q, seq![LF], u2);
            lemma_transcode_one(md, q, LF);
            assert(transcode_from(md, q, seq![LF]) =~= seq![CR, LF]);
            assert(state_after(q, seq![LF]) == Some(LF));
            lemma_dos_of_unix(Some(LF), Some(LF), rest2);
            assert(transcode_from(md, q, transcode_from(mu, p, s)) =~= seq![CR, LF] + rest2);
            assert(seq![CR, LF] + rest2 =~= s);
            assert(s.last() != CR);
        } else {
            let rest = s.skip(1);
            assert(crlf_paired(rest)) by {
                assert forall|i: int| 0 <= i < rest.len() implies (((#[trigger] rest[i]) == CR ==> i
                    + 1 < rest.len() && rest[i + 1] == LF) && (rest[i] == LF ==> i >= 1 && rest[i
                    - 1] == CR)) by {
                    assert(rest[i] == s[i + 1]);
                    if rest[i] == CR {
                        assert(i + 2 < s.len() && s[i + 2] == LF);
                        assert(rest[i + 1] == s[i + 2]);
                    }
                    if rest[i] == LF {
                        assert(s[i] == CR);
                        assert(i >= 1 && rest[i - 1] == s[i]);
                    }
                }
            }
            let step = step_output(mu, p, b);
            let ir = transcode_from(mu, Some(b), rest);
            lemma_transcode_from_concat(md, q, step, ir);
            assert(step =~= seq![b]);
            lemma_transcode_one(md, q, b);
            assert(transcode_from(md, q, step) =~= seq![b]);
            assert(state_after(q, step) == Some(b));
            lemma_dos_of_unix(Some(b), Some(b), rest);
            assert(step + ir == transcode_from(mu, p, s));
            assert(seq![b] + rest =~= s);
        }
    }
}

/// Converting `\r\n`-terminated text to Unix endings and back to DOS
/// endings recovers the input byte for byte.
pub proof fn lemma_tounix_todos_roundtrip(s: Seq<u8>)
    requires
        crlf_paired(s),
    ensures
        transcode_whole(
            ConversionMode::ToDos,
            transcode_whole(ConversionMode::ToUnix, s, false),
            false,
        ) == s,
{
    let md = ConversionMode::ToDos;
    let mu = ConversionMode::ToUnix;
    lemma_dos_of_unix(None, None, s);
    assert(finish_output(mu, state_after(None, s), false) =~= Seq::<u8>::empty());
    let t = transcode_whole(mu, s, false);
    assert(t =~= transcode_from(mu, None, s));
    assert(finish_output(md, state_after(None, t), false) =~= Seq::<u8>::empty());
    assert(transcode_whole(md, t, false) =~= transcode_from(md, None, t));
}

/// The state the transcoder carries between chunks of one logical stream:
/// the last input byte consumed (under `ToUnix`, `Some(CR)` means that `\r`
/// is held back, still undecided), and two diagnostic counters that
/// saturate at `u64::MAX`.
///
/// One value of this type serves one stream; independent streams never
/// share state.
pub struct TranscodeState {
    /// The last byte consumed, `None` before the first byte.
    pub prev_byte: Option<u8>,
    /// Line feeds seen in the input so far.
    pub lines_seen: u64,
    /// Line breaks whose bytes the conversion changed so far.
    pub breaks_converted: u64,
}

impl TranscodeState {
    /// The state at the start of a stream.
    pub fn new() -> (r: TranscodeState)
        ensures
            r.prev_byte == None::<u8>,
            r.lines_seen == 0,
            r.breaks_converted == 0,
    {
        TranscodeState { prev_byte: None, lines_seen: 0, breaks_converted: 0 }
    }

    /// Transcodes one chunk, appending the emission to `out` and carrying
    /// the state to the next chunk. A `\r` that ends the chunk is held in
    /// the state under `ToUnix`, so a `\r\n` pair split across two chunks
    /// is rewritten exactly as in one buffer.
    pub fn push_chunk(&mut self, mode: ConversionMode, chunk: &[u8], out: &mut Vec<u8>)
        ensures
            final(out)@ == old(out)@ + transcode_from(mode, old(self).prev_byte, chunk@),
            final(self).prev_byte == state_after(old(self).prev_byte, chunk@),
            final(self).lines_seen == sat_count(old(self).lines_seen, count_lf(chunk@)),
            final(self).breaks_converted == sat_count(
                old(self).breaks_converted,
                count_converted(mode, old(self).prev_byte, chunk@),
            ),
    {
        let ghost prev0 = self.prev_byte;
        let ghost lines0 = self.lines_seen;
        let ghost conv0 = self.breaks_converted;
        let ghost out0 = out@;
        let mut i: usize = 0;
        while i < chunk.len()
            invariant
                0 <= i <= chunk.len(),
                out@ == out0 + transcode_from(mode, prev0, chunk@.take(i as int)),
                self.prev_byte == state_after(prev0, chunk@.take(i as int)),
                self.lines_seen == sat_count(lines0, count_lf(chunk@.take(i as int))),
                self.breaks_converted == sat_count(
                    conv0,
                    count_converted(mode, prev0, chunk@.take(i as int)),
                ),
            decreases chunk.len() - i,
        {
            let b = chunk[i];
            proof {
                assert(chunk@.take(i as int).push(b) =~= chunk@.take(i + 1 as int));
                lemma_transcode_from_snoc(mode, prev0, chunk@.take(i as int), b);
                lemma_count_lf_snoc(chunk@.take(i as int), b);
                lemma_count_converted_snoc(mode, prev0, chunk@.take(i as int), b);
            }
            let prev_is_cr = match self.prev_byte {
                Some(p) => p == CR,
                None => false,
            };
            match mode {
                ConversionMode::ToUnix => {
                    if prev_is_cr {
                        if b == LF {
                            out.push(LF);
                        } else if b == CR {
                            out.push(CR);
                        } else {
                            out.push(CR);
                            out.push(b);
                        }
                    } else {
                        if b != CR {
                            out.push(b);
                        }
                    }
                },
                ConversionMode::ToDos => {
                    if b == LF && !prev_is_cr {
                        out.push(CR);
                        out.push(LF);
                    } else {
                        out.push(b);
                    }
                },
                ConversionMode::ToMac => {
                    if b == LF {
                        if prev_is_cr {
                            out.push(LF);
                        } else {
                            out.push(CR);
                        }
                    } else {
                        out.push(b);
                    }
                },
            }
            if b == LF && self.lines_seen < u64::MAX {
                self.lines_seen = self.lines_seen + 1;
            }
            let was_converted = match mode {
                ConversionMode::ToUnix => prev_is_cr && b == LF,
                ConversionMode::ToDos => b == LF && !prev_is_cr,
                ConversionMode::ToMac => b == LF && !prev_is_cr,
            };
            if was_converted && self.breaks_converted < u64::MAX {
                self.breaks_converted = self.breaks_converted + 1;
            }
            self.prev_byte = Some(b);
            assert(out@ =~= out0 + transcode_from(mode, prev0, chunk@.take(i + 1 as int)));
            i = i + 1;
        }
        assert(chunk@.take(chunk@.len() as int) =~= chunk@);
    }

    /// Ends the stream: writes the pending `\r`, if any, and the missing
    /// final line terminator when `add_eol` asks for it. The state is reset,
    /// so a second call emits nothing more.
    pub fn finish(&mut self, mode: ConversionMode, add_eol: bool, out: &mut Vec<u8>)
        ensures
            final(out)@ == old(out)@ + finish_output(mode, old(self).prev_byte, add_eol),
            final(self).prev_byte == None::<u8>,
            final(self).lines_seen == old(self).lines_seen,
            final(self).breaks_converted == old(self).breaks_converted,
    {
        let ghost out0 = out@;
        let pending_cr = match self.prev_byte {
            Some(p) => p == CR,
            None => false,
        };
        if mode == ConversionMode::ToUnix && pending_cr {
            out.push(CR);
        }
        let missing_eol = match self.prev_byte {
            Some(p) => p != LF && p != CR,
            None => false,
        };
        if add_eol && missing_eol {
            match mode {
                ConversionMode::ToUnix => {
                    out.push(LF);
                },
                ConversionMode::ToDos => {
                    out.push(CR);
                    out.push(LF);
                },
                ConversionMode::ToMac => {
                    out.push(CR);
                },
            }
        }
        self.prev_byte = None;
        assert(out@ =~= out0 + finish_output(mode, old(self).prev_byte, add_eol));
    }
}

} // verus!
