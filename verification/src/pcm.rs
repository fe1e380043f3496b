//! Linear PCM as AES67 carries it (L16 and L24, big-endian, interleaved
//! channels): codec names, sample reading, channel selection and writing
//! samples back.
use vstd::prelude::*;
use crate::text::{to_chars, chars_eq};

verus! {

/// The two PCM codecs that the desk plays, records and routes.
#[derive(Clone, Copy, PartialEq, Eq, Structural, Debug)]
pub enum Codec {
    /// 16-bit samples.
    L16,
    /// 24-bit samples.
    L24,
}

/// Upper case for ASCII letters, every other character unchanged.
pub open spec fn ascii_upper_char(c: char) -> char {
    if 97 <= (c as u32) && (c as u32) <= 122 {
        ((c as u32) - 32) as char
    } else {
        c
    }
}

/// `str::to_ascii_uppercase`.
pub open spec fn ascii_upper(s: Seq<char>) -> Seq<char> {
    s.map_values(|c: char| ascii_upper_char(c))
}

/// The codec that a name denotes, ignoring ASCII case.
pub open spec fn codec_named(s: Seq<char>) -> Option<Codec> {
    if ascii_upper(s) == "L16"@ {
        Some(Codec::L16)
    } else if ascii_upper(s) == "L24"@ {
        Some(Codec::L24)
    } else {
        None
    }
}

pub open spec fn sample_bytes(codec: Codec) -> nat {
    match codec {
        Codec::L16 => 2,
        Codec::L24 => 3,
    }
}

/// The signed sample stored big-endian at `off` in `s`.
pub open spec fn sample_at(codec: Codec, s: Seq<u8>, off: int) -> int {
    match codec {
        Codec::L16 => {
            let raw = s[off] as int * 256 + s[off + 1] as int;
            if raw >= 0x8000 {
                raw - 0x1_0000
            } else {
                raw
            }
        },
        Codec::L24 => {
            let raw = (s[off] as int * 256 + s[off + 1] as int) * 256 + s[off + 2] as int;
            if raw >= 0x80_0000 {
                raw - 0x100_0000
            } else {
                raw
            }
        },
    }
}

/// The samples of the `selected` channels of one frame, in that order.
pub open spec fn frame_samples(codec: Codec, frame: Seq<u8>, selected: Seq<usize>) -> Seq<int> {
    selected.map_values(|ch: usize| sample_at(codec, frame, ch * sample_bytes(codec)))
}

/// The samples of the `selected` channels of every complete frame of
/// `frame_size` bytes in `payload`, frame after frame; a trailing partial
/// frame is ignored (`chunks_exact`).
pub open spec fn selected_samples(
    codec: Codec,
    payload: Seq<u8>,
    frame_size: nat,
    selected: Seq<usize>,
) -> Seq<int>
    decreases payload.len(),
{
    if frame_size == 0 || payload.len() < frame_size {
        Seq::empty()
    } else {
        frame_samples(codec, payload.take(frame_size as int), selected) + selected_samples(
            codec,
            payload.skip(frame_size as int),
            frame_size,
            selected,
        )
    }
}

/// The big-endian bytes of a sample (two's complement on the codec's width).
pub open spec fn sample_bytes_of(codec: Codec, v: int) -> Seq<u8> {
    match codec {
        Codec::L16 => {
            let u = if v < 0 { v + 0x1_0000 } else { v };
            seq![(u / 256) as u8, (u % 256) as u8]
        },
        Codec::L24 => {
            let u = if v < 0 { v + 0x100_0000 } else { v };
            seq![(u / 0x1_0000) as u8, ((u / 256) % 256) as u8, (u % 256) as u8]
        },
    }
}

/// The range of sample values that a codec holds.
pub open spec fn in_range(codec: Codec, v: int) -> bool {
    match codec {
        Codec::L16 => -0x8000 <= v && v <= 0x7fff,
        Codec::L24 => -0x80_0000 <= v && v <= 0x7f_ffff,
    }
}

/// The bytes of the samples `vs`, one after another.
pub open spec fn samples_bytes(codec: Codec, vs: Seq<int>) -> Seq<u8>
    decreases vs.len(),
{
    if vs.len() == 0 {
        Seq::empty()
    } else {
        samples_bytes(codec, vs.drop_last()) + sample_bytes_of(codec, vs.last())
    }
}

/// Reads a codec name, ignoring ASCII case (`to_ascii_uppercase`, then
/// comparison with `L16` and `L24`).
pub fn parse_codec(name: &str) -> (r: Option<Codec>)
    ensures
        r == codec_named(name@),
{
    let chars = to_chars(name);
    let mut upper: Vec<char> = Vec::new();
    let n = chars.len();
    for i in 0..n
        invariant
            n == chars@.len(),
            chars@ == name@,
            upper@ == ascii_upper(chars@.take(i as int)),
    {
        let c = chars[i];
        let u = if 97 <= (c as u32) && (c as u32) <= 122 {
            ((c as u32 - 32) as u8) as char
        } else {
            c
        };
        upper.push(u);
        assert(ascii_upper(chars@.take(i + 1)) == ascii_upper(chars@.take(i as int)).push(
            ascii_upper_char(c),
        ));
    }
    assert(chars@.take(n as int) == chars@);
    if chars_eq(upper.as_slice(), to_chars("L16").as_slice()) {
        Some(Codec::L16)
    } else if chars_eq(upper.as_slice(), to_chars("L24").as_slice()) {
        Some(Codec::L24)
    } else {
        None
    }
}

/// The number of bytes of one sample.
pub fn bytes_per_sample(codec: Codec) -> (r: usize)
    ensures
        r == sample_bytes(codec),
{
    match codec {
        Codec::L16 => 2,
        Codec::L24 => 3,
    }
}

/// The signed sample stored at `off`.
pub fn read_sample(codec: Codec, s: &[u8], off: usize) -> (r: i32)
    requires
        off + sample_bytes(codec) <= s@.len(),
    ensures
        r == sample_at(codec, s@, off as int),
{
    match codec {
        Codec::L16 => {
            let raw = (s[off] as i32) * 256 + (s[off + 1] as i32);
            if raw >= 0x8000 {
                raw - 0x1_0000
            } else {
                raw
            }
        },
        Codec::L24 => {
            let raw = ((s[off] as i32) * 256 + (s[off + 1] as i32)) * 256 + (s[off + 2] as i32);
            if raw >= 0x80_0000 {
                raw - 0x100_0000
            } else {
                raw
            }
        },
    }
}

proof fn lemma_channel_in_frame(ch: int, channels: int, bps: int)
    requires
        0 <= ch < channels,
        0 < bps,
    ensures
        ch * bps + bps <= channels * bps,
        0 <= ch * bps,
{
    assert(ch * bps + bps <= channels * bps) by (nonlinear_arith)
        requires
            0 <= ch < channels,
            0 < bps,
    ;
    assert(0 <= ch * bps) by (nonlinear_arith)
        requires
            0 <= ch,
            0 < bps,
    ;
}

/// The samples of the `selected` channels of every complete frame of a
/// payload with `source_channels` interleaved channels.
pub fn select_samples(
    codec: Codec,
    payload: &[u8],
    source_channels: usize,
    selected: &[usize],
) -> (r: Vec<i32>)
    requires
        source_channels * 3 <= usize::MAX,
        forall|i: int| 0 <= i < selected@.len() ==> #[trigger] selected@[i] < source_channels,
    ensures
        r@.map_values(|v: i32| v as int) == selected_samples(
            codec,
            payload@,
            (source_channels * sample_bytes(codec)) as nat,
            selected@,
        ),
{
    let bps = bytes_per_sample(codec);
    assert(source_channels * bps <= source_channels * 3) by (nonlinear_arith)
        requires
            bps <= 3,
    ;
    let frame_size = source_channels * bps;
    let ghost fs = frame_size as nat;
    let ghost all = selected_samples(codec, payload@, fs, selected@);
    let mut out: Vec<i32> = Vec::new();
    if frame_size == 0 {
        return out;
    }
    let n = payload.len();
    let nsel = selected.len();
    let mut pos: usize = 0;
    assert(payload@.skip(0) == payload@);
    assert(out@.map_values(|v: i32| v as int) == Seq::<int>::empty());
    while frame_size <= n - pos
        invariant
            n == payload@.len(),
            nsel == selected@.len(),
            bps == sample_bytes(codec),
            frame_size == fs,
            fs == source_channels * sample_bytes(codec),
            frame_size == source_channels * bps,
            frame_size > 0,
            pos <= n,
            forall|i: int| 0 <= i < selected@.len() ==> #[trigger] selected@[i] < source_channels,
            all == selected_samples(codec, payload@, fs, selected@),
            out@.map_values(|v: i32| v as int) + selected_samples(
                codec,
                payload@.skip(pos as int),
                fs,
                selected@,
            ) == all,
        decreases n - pos,
    {
        let ghost rest = payload@.skip(pos as int);
        let ghost frame = rest.take(fs as int);
        let ghost before = out@.map_values(|v: i32| v as int);
        let frame_bytes = vstd::slice::slice_subrange(payload, pos, pos + frame_size);
        assert(frame_bytes@ == frame);
        let mut j: usize = 0;
        while j < nsel
            invariant
                j <= nsel,
                nsel == selected@.len(),
                bps == sample_bytes(codec),
                frame_bytes@ == frame,
                frame.len() == fs,
                fs == source_channels * sample_bytes(codec),
                frame_size == source_channels * bps,
                frame_size == fs,
                forall|i: int| 0 <= i < selected@.len() ==> #[trigger] selected@[i] < source_channels,
                out@.map_values(|v: i32| v as int) == before + frame_samples(codec, frame, selected@).take(
                    j as int,
                ),
            decreases nsel - j,
        {
            let ch = selected[j];
            proof {
                lemma_channel_in_frame(ch as int, source_channels as int, bps as int);
            }
            let v = read_sample(codec, frame_bytes, ch * bps);
            let ghost prev = out@;
            out.push(v);
            assert(frame_samples(codec, frame, selected@).take(j + 1) == frame_samples(
                codec,
                frame,
                selected@,
            ).take(j as int).push(v as int));
            assert(out@.map_values(|v: i32| v as int) == prev.map_values(|v: i32| v as int).push(
                v as int,
            ));
            j = j + 1;
        }
        assert(frame_samples(codec, frame, selected@).take(nsel as int) == frame_samples(
            codec,
            frame,
            selected@,
        ));
        assert(rest.skip(fs as int) == payload@.skip(pos + frame_size));
        pos = pos + frame_size;
    }
    assert(selected_samples(codec, payload@.skip(pos as int), fs, selected@) == Seq::<int>::empty());
    out
}

/// Appends the bytes of one sample.
pub fn push_sample(out: &mut Vec<u8>, codec: Codec, v: i32)
    requires
        in_range(codec, v as int),
    ensures
        final(out)@ == old(out)@ + sample_bytes_of(codec, v as int),
{
    match codec {
        Codec::L16 => {
            let u: u32 = if v < 0 {
                (v + 0x1_0000) as u32
            } else {
                v as u32
            };
            out.push((u / 256) as u8);
            out.push((u % 256) as u8);
        },
        Codec::L24 => {
            let u: u32 = if v < 0 {
                (v + 0x100_0000) as u32
            } else {
                v as u32
            };
            out.push((u / 0x1_0000) as u8);
            out.push(((u / 256) % 256) as u8);
            out.push((u % 256) as u8);
        },
    }
    assert(out@ == old(out)@ + sample_bytes_of(codec, v as int));
}

/// The bytes of `values`, one sample after another.
pub fn encode_samples(codec: Codec, values: &[i32]) -> (r: Vec<u8>)
    requires
        forall|i: int| 0 <= i < values@.len() ==> in_range(codec, #[trigger] values@[i] as int),
    ensures
        r@ == samples_bytes(codec, values@.map_values(|v: i32| v as int)),
{
    let mut out: Vec<u8> = Vec::new();
    let n = values.len();
    let ghost vs = values@.map_values(|v: i32| v as int);
    assert(vs.take(0) == Seq::<int>::empty());
    for i in 0..n
        invariant
            n == values@.len(),
            vs == values@.map_values(|v: i32| v as int),
            forall|i: int| 0 <= i < values@.len() ==> in_range(codec, #[trigger] values@[i] as int),
            out@ == samples_bytes(codec, vs.take(i as int)),
    {
        push_sample(&mut out, codec, values[i]);
        assert(vs.take(i + 1).drop_last() == vs.take(i as int));
    }
    assert(vs.take(n as int) == vs);
    out
}

/// Law: a sample written in a codec's range reads back unchanged.
pub proof fn lemma_sample_roundtrip(codec: Codec, v: int)
    requires
        in_range(codec, v),
    ensures
        sample_at(codec, sample_bytes_of(codec, v), 0) == v,
{
}

} // verus!
