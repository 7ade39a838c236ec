use crate::bytes::{
    byte_range, in_bounds, le_at, lemma_le_at_bound, lemma_le_at_same_bytes, read_i16_le,
    read_i24_le, read_i32_le, read_u32_le, read_u64_le, to_signed,
};
use vstd::arithmetic::div_mod::{lemma_basic_div_specific_divisor, lemma_div_plus_one};
use crate::error::Fault;
use crate::formats::Format;
use crate::header::{resolved_format, WaveInfo};
use vstd::prelude::*;

verus! {

/// One decoded sample.
///
/// An integer PCM sample is centred on zero: its level is `value /
/// full_scale`, which lies in `[-1, 1)`. A floating-point sample carries
/// the bits of the IEEE 754 number stored in the file, as the matching
/// unsigned integer.
#[derive(Clone, Copy, Debug, PartialEq, Eq, Structural)]
pub enum Sample {
    Pcm { value: i32, full_scale: u32 },
    Float32(u32),
    Float64(u64),
}

/// One sample per channel, all at the same instant.
pub type Frame = Vec<Sample>;

/// The number of bytes of one sample.
pub open spec fn sample_width(info: WaveInfo) -> nat {
    (info.bits_per_sample / 8) as nat
}

/// The number of bytes of one frame.
pub open spec fn frame_bytes(info: WaveInfo) -> nat {
    info.channels as nat * sample_width(info)
}

/// The samples of `info` can be decoded: integer PCM of 8, 16, 24 or 32
/// bits, or floating point of 32 or 64 bits.
pub open spec fn decodable(info: WaveInfo) -> bool {
    let bps = info.bits_per_sample;
    let f = resolved_format(info);
    (f == Format::PCM && (bps == 8 || bps == 16 || bps == 24 || bps == 32)) || (f
        == Format::IEEEFloat && (bps == 32 || bps == 64))
}

/// The sample of encoding `f` and `bps` bits stored at `p`.
pub open spec fn sample_at(b: Seq<u8>, p: int, f: Format, bps: u16) -> Sample {
    if f == Format::IEEEFloat {
        if bps == 32 {
            Sample::Float32(le_at(b, p, 4) as u32)
        } else {
            Sample::Float64(le_at(b, p, 8) as u64)
        }
    } else if bps == 8 {
        Sample::Pcm { value: (b[p] - 128) as i32, full_scale: 0x80 }
    } else if bps == 16 {
        Sample::Pcm { value: to_signed(le_at(b, p, 2), 2) as i32, full_scale: 0x8000 }
    } else if bps == 24 {
        Sample::Pcm { value: to_signed(le_at(b, p, 3), 3) as i32, full_scale: 0x80_0000 }
    } else {
        Sample::Pcm { value: to_signed(le_at(b, p, 4), 4) as i32, full_scale: 0x8000_0000 }
    }
}

/// The frame of `info` stored at `p`: sample `i` is at `p + i * width`.
pub open spec fn frame_at(b: Seq<u8>, p: int, info: WaveInfo) -> Seq<Sample> {
    Seq::new(
        info.channels as nat,
        |i: int|
            sample_at(b, p + i * sample_width(info), resolved_format(info), info.bits_per_sample),
    )
}

/// Decoding the frame at `pos`: it fails where the samples cannot be
/// decoded, or where the frame runs past the end of the bytes.
pub open spec fn frame_result(b: Seq<u8>, info: WaveInfo, pos: int) -> Result<Seq<Sample>, Fault> {
    if !decodable(info) {
        Err(Fault::Unsupported)
    } else if !in_bounds(b, pos, frame_bytes(info) as int) {
        Err(Fault::Parse)
    } else {
        Ok(frame_at(b, pos, info))
    }
}

/// What iterating from `pos`, with `left` bytes of the data chunk still to
/// read, yields: one result per whole frame that is left, in order, ending
/// after the first failure.
pub open spec fn frames_from(b: Seq<u8>, info: WaveInfo, pos: int, left: int) -> Seq<
    Result<Seq<Sample>, Fault>,
>
    decreases left,
{
    let fb = frame_bytes(info) as int;
    if fb <= 0 || left < fb {
        seq![]
    } else {
        match frame_result(b, info, pos) {
            Ok(fr) => seq![Ok(fr)] + frames_from(b, info, pos + fb, left - fb),
            Err(k) => seq![Err(k)],
        }
    }
}

fn decode_sample(b: &[u8], p: usize, f: Format, bps: u16) -> (r: Sample)
    requires
        f == Format::PCM ==> (bps == 8 || bps == 16 || bps == 24 || bps == 32),
        f == Format::IEEEFloat ==> (bps == 32 || bps == 64),
        f != Format::Extensible,
        in_bounds(b@, p as int, (bps / 8) as int),
    ensures
        r == sample_at(b@, p as int, f, bps),
{
    if f == Format::IEEEFloat {
        if bps == 32 {
            Sample::Float32(read_u32_le(b, p))
        } else {
            Sample::Float64(read_u64_le(b, p))
        }
    } else if bps == 8 {
        Sample::Pcm { value: b[p] as i32 - 128, full_scale: 0x80 }
    } else if bps == 16 {
        Sample::Pcm { value: read_i16_le(b, p) as i32, full_scale: 0x8000 }
    } else if bps == 24 {
        Sample::Pcm { value: read_i24_le(b, p), full_scale: 0x80_0000 }
    } else {
        Sample::Pcm { value: read_i32_le(b, p), full_scale: 0x8000_0000 }
    }
}

/// Decodes the frame of `info` stored at `pos`.
pub fn decode_frame(b: &[u8], pos: usize, info: &WaveInfo) -> (r: Frame)
    requires
        decodable(*info),
        in_bounds(b@, pos as int, frame_bytes(*info) as int),
    ensures
        r@ == frame_at(b@, pos as int, *info),
{
    let f = crate::header::resolve_format(info);
    let bps = info.bits_per_sample;
    let w: usize = (bps / 8) as usize;
    let ch = info.channels;
    let mut samples: Vec<Sample> = Vec::with_capacity(ch as usize);
    let mut off: usize = pos;
    let mut i: u16 = 0;
    let n: usize = b.len();
    while i < ch
        invariant
            n == b@.len(),
            decodable(*info),
            f == resolved_format(*info),
            bps == info.bits_per_sample,
            ch == info.channels,
            w == sample_width(*info),
            in_bounds(b@, pos as int, frame_bytes(*info) as int),
            i <= ch,
            off == pos + i * w,
            samples@.len() == i,
            forall|j: int|
                0 <= j < i ==> #[trigger] samples@[j] == sample_at(b@, pos + j * w, f, bps),
        decreases ch - i,
    {
        assert(off + w <= pos + ch as int * w as int) by (nonlinear_arith)
            requires
                off == pos + i * w,
                i < ch,
        ;
        assert(ch as int * w as int == frame_bytes(*info));
        assert(off + w <= b@.len());
        let s = decode_sample(b, off, f, bps);
        samples.push(s);
        assert(off + w == pos + (i + 1) * w) by (nonlinear_arith)
            requires
                off == pos + i * w,
        ;
        off = off + w;
        i = i + 1;
    }
    assert(samples@ =~= frame_at(b@, pos as int, *info));
    samples
}

/// Every integer PCM sample lies in `[-full_scale, full_scale)`: its
/// level `value / full_scale` is in `[-1, 1)`.
pub proof fn lemma_pcm_level_range(b: Seq<u8>, p: int, bps: u16)
    requires
        bps == 8 || bps == 16 || bps == 24 || bps == 32,
    ensures
        sample_at(b, p, Format::PCM, bps) matches Sample::Pcm { value, full_scale }
            && -(full_scale as int) <= value < full_scale,
{
    reveal_with_fuel(byte_range, 5);
    if bps == 16 {
        lemma_le_at_bound(b, p, 2);
    } else if bps == 24 {
        lemma_le_at_bound(b, p, 3);
    } else if bps == 32 {
        lemma_le_at_bound(b, p, 4);
    }
}

/// From `pos` on, with `left` bytes of data that all lie within the bytes,
/// a decodable format yields one frame per whole frame's worth of bytes,
/// each the frame stored at its place, in order.
pub proof fn lemma_frames_whole(b: Seq<u8>, info: WaveInfo, pos: int, left: int)
    requires
        decodable(info),
        info.channels > 0,
        0 <= pos,
        0 <= left,
        pos + left <= b.len(),
    ensures
        frames_from(b, info, pos, left).len() == left / frame_bytes(info) as int,
        forall|k: int|
            0 <= k < frames_from(b, info, pos, left).len() ==> #[trigger] frames_from(
                b,
                info,
                pos,
                left,
            )[k] == Ok::<_, Fault>(frame_at(b, pos + k * frame_bytes(info), info)),
    decreases left,
{
    let fb = frame_bytes(info) as int;
    assert(fb > 0) by (nonlinear_arith)
        requires
            fb == info.channels as nat * sample_width(info),
            info.channels > 0,
            sample_width(info) > 0,
    ;
    if left < fb {
        lemma_basic_div_specific_divisor(fb);
    } else {
        lemma_frames_whole(b, info, pos + fb, left - fb);
        lemma_div_plus_one(left - fb, fb);
        let rest = frames_from(b, info, pos + fb, left - fb);
        let all = frames_from(b, info, pos, left);
        assert(all == seq![Ok::<_, Fault>(frame_at(b, pos, info))] + rest);
        assert forall|k: int| 0 <= k < all.len() implies #[trigger] all[k] == Ok::<_, Fault>(
            frame_at(b, pos + k * fb, info),
        ) by {
            if k > 0 {
                assert(all[k] == rest[k - 1]);
                assert(pos + fb + (k - 1) * fb == pos + k * fb) by (nonlinear_arith);
            }
        }
    }
}

/// Two frames of the same layout read from bytes that agree are equal.
pub proof fn lemma_frame_at_same_bytes(
    b1: Seq<u8>,
    p1: int,
    b2: Seq<u8>,
    p2: int,
    info1: WaveInfo,
    info2: WaveInfo,
)
    requires
        decodable(info1),
        resolved_format(info1) == resolved_format(info2),
        info1.bits_per_sample == info2.bits_per_sample,
        info1.channels == info2.channels,
        forall|i: int| 0 <= i < frame_bytes(info1) ==> #[trigger] b1[p1 + i] == b2[p2 + i],
    ensures
        frame_at(b1, p1, info1) == frame_at(b2, p2, info2),
{
    let w = sample_width(info1) as int;
    let f = resolved_format(info1);
    let bps = info1.bits_per_sample;
    assert forall|j: int| 0 <= j < info1.channels implies #[trigger] frame_at(b1, p1, info1)[j]
        == frame_at(b2, p2, info2)[j] by {
        assert((j + 1) * w <= info1.channels * w) by (nonlinear_arith)
            requires
                j < info1.channels,
                w >= 0,
        ;
        assert forall|i: int| 0 <= i < w implies #[trigger] b1[(p1 + j * w) + i] == b2[(p2 + j
            * w) + i] by {
            assert(j * w + i < frame_bytes(info1)) by (nonlinear_arith)
                requires
                    (j + 1) * w <= info1.channels * w,
                    i < w,
                    frame_bytes(info1) == info1.channels * w,
            ;
            assert(b1[p1 + (j * w + i)] == b2[p2 + (j * w + i)]);
        }
        lemma_le_at_same_bytes(b1, p1 + j * w, b2, p2 + j * w, w as nat);
        assert(b1[p1 + j * w + 0] == b2[p2 + j * w + 0]);
    }
    assert(frame_at(b1, p1, info1) =~= frame_at(b2, p2, info2));
}

} // verus!
