use crate::bytes::{id_matches, in_bounds, le_at, read_u16_le, read_u32_le};
use crate::error::{Fault, WaveError};
use crate::formats::{format_of, Format};
use vstd::prelude::*;

verus! {

/// What the header of a WAVE file says of its audio data.
#[derive(Clone, Copy, Debug)]
pub struct WaveInfo {
    /// Which encoding format this file uses. If it is `Format::Extensible`,
    /// the actual encoding is given by `subformat`.
    pub audio_format: Format,
    /// Number of distinct audio channels.
    pub channels: u16,
    /// Number of frames per second.
    pub sample_rate: u32,
    /// Number of bytes per second of audio, as declared.
    pub byte_rate: u32,
    /// Number of bytes of one frame, as declared.
    pub block_align: u16,
    /// Number of bits of each sample.
    pub bits_per_sample: u16,
    /// Number of whole frames in the data chunk; computed, never read.
    pub total_frames: u32,
    /// Extensible files only: the number of valid bits of each sample.
    pub valid_bps: Option<u16>,
    /// Extensible files only: which speaker each channel is meant for.
    pub channel_mask: Option<u32>,
    /// Extensible files only: the actual encoding of the samples.
    pub subformat: Option<Format>,
}

/// The four bytes `RIFF`.
pub open spec fn riff_id() -> Seq<u8> {
    seq![0x52, 0x49, 0x46, 0x46]
}

/// The four bytes `WAVE`.
pub open spec fn wave_id() -> Seq<u8> {
    seq![0x57, 0x41, 0x56, 0x45]
}

/// The four bytes `fmt `.
pub open spec fn fmt_id() -> Seq<u8> {
    seq![0x66, 0x6d, 0x74, 0x20]
}

/// The four bytes `data`.
pub open spec fn data_id() -> Seq<u8> {
    seq![0x64, 0x61, 0x74, 0x61]
}

/// The four bytes `LIST`.
pub open spec fn list_id() -> Seq<u8> {
    seq![0x4c, 0x49, 0x53, 0x54]
}

/// The four bytes `fact`.
pub open spec fn fact_id() -> Seq<u8> {
    seq![0x66, 0x61, 0x63, 0x74]
}

/// The four bytes at `pos` are there and spell `id`.
pub open spec fn is_id(b: Seq<u8>, pos: int, id: Seq<u8>) -> bool {
    in_bounds(b, pos, 4) && b.subrange(pos, pos + 4) == id
}

/// The encoding that the samples are in: the subformat of an extensible
/// file, else the format itself. An extensible file without a subformat
/// resolves to `Extensible`, which no sample is in.
pub open spec fn resolved_format(info: WaveInfo) -> Format {
    if info.audio_format == Format::Extensible {
        match info.subformat {
            Some(f) => f,
            None => Format::Extensible,
        }
    } else {
        info.audio_format
    }
}

/// The format sub-chunk whose fields start at `p`: the fields it declares
/// and the position just after what was read.
pub open spec fn fmt_chunk(b: Seq<u8>, p: int) -> Result<(WaveInfo, int), Fault> {
    if !in_bounds(b, p, 16) {
        Err(Fault::Parse)
    } else {
        match format_of(le_at(b, p, 2) as u16) {
            None => Err(Fault::Parse),
            Some(f) => {
                let info = WaveInfo {
                    audio_format: f,
                    channels: le_at(b, p + 2, 2) as u16,
                    sample_rate: le_at(b, p + 4, 4) as u32,
                    byte_rate: le_at(b, p + 8, 4) as u32,
                    block_align: le_at(b, p + 12, 2) as u16,
                    bits_per_sample: le_at(b, p + 14, 2) as u16,
                    total_frames: 0,
                    valid_bps: None,
                    channel_mask: None,
                    subformat: None,
                };
                if f != Format::Extensible {
                    Ok((info, p + 16))
                } else if !in_bounds(b, p + 16, 2) {
                    Err(Fault::Parse)
                } else if le_at(b, p + 16, 2) == 0 {
                    Ok((info, p + 18))
                } else if le_at(b, p + 16, 2) != 22 || !in_bounds(b, p + 18, 22) {
                    Err(Fault::Parse)
                } else {
                    match format_of(le_at(b, p + 24, 2) as u16) {
                        None => Err(Fault::Parse),
                        Some(s) => Ok(
                            (
                                WaveInfo {
                                    valid_bps: Some(le_at(b, p + 18, 2) as u16),
                                    channel_mask: Some(le_at(b, p + 20, 4) as u32),
                                    subformat: Some(s),
                                    ..info
                                },
                                p + 40,
                            ),
                        ),
                    }
                }
            },
        }
    }
}

/// The chunk list from `pos` on, with `fmt` the format read so far: the
/// last format read, and the offset and declared size of the data chunk.
pub open spec fn walk(b: Seq<u8>, pos: int, fmt: Option<WaveInfo>) -> Result<
    (Option<WaveInfo>, int, u32),
    Fault,
>
    decreases b.len() - pos,
{
    if !in_bounds(b, pos, 8) {
        Err(Fault::Parse)
    } else if is_id(b, pos, fmt_id()) {
        match fmt_chunk(b, pos + 8) {
            Err(k) => Err(k),
            Ok((info, next)) => if pos < next <= b.len() {
                walk(b, next, Some(info))
            } else {
                Err(Fault::Parse)
            },
        }
    } else if is_id(b, pos, data_id()) {
        Ok((fmt, pos + 8, le_at(b, pos + 4, 4) as u32))
    } else if is_id(b, pos, list_id()) || is_id(b, pos, fact_id()) {
        let next = pos + 8 + le_at(b, pos + 4, 4);
        if next <= b.len() {
            walk(b, next, fmt)
        } else {
            Err(Fault::Parse)
        }
    } else {
        Err(Fault::Parse)
    }
}

/// The header's structure: the RIFF/WAVE preamble, then chunks up to the
/// data chunk, with a format chunk among them. Gives the format read, and
/// the offset and declared size of the data.
pub open spec fn header_fields(b: Seq<u8>) -> Result<(WaveInfo, int, u32), Fault> {
    if !(is_id(b, 0, riff_id()) && is_id(b, 8, wave_id())) {
        Err(Fault::Parse)
    } else {
        match walk(b, 12, None) {
            Err(k) => Err(k),
            Ok((None, _, _)) => Err(Fault::Parse),
            Ok((Some(info), off, size)) => Ok((info, off, size)),
        }
    }
}

/// The checks on a format once the header has been read.
pub open spec fn validate(info: WaveInfo) -> Result<(), Fault> {
    let bps = info.bits_per_sample;
    if info.channels == 0 {
        Err(Fault::Parse)
    } else if bps < 8 {
        Err(Fault::Unsupported)
    } else if resolved_format(info) == Format::IEEEFloat && bps != 32 && bps != 64 {
        Err(Fault::Unsupported)
    } else if resolved_format(info) != Format::PCM && resolved_format(info)
        != Format::IEEEFloat {
        Err(Fault::Unsupported)
    } else {
        Ok(())
    }
}

/// The number of bytes that one frame counts for in `total_frames`.
pub open spec fn frame_divisor(info: WaveInfo) -> nat {
    (info.channels * info.bits_per_sample / 8) as nat
}

/// The whole header: the format with `total_frames` filled in, and the
/// offset and declared size of the data chunk.
pub open spec fn parse_header(b: Seq<u8>) -> Result<(WaveInfo, int, u32), Fault> {
    match header_fields(b) {
        Err(k) => Err(k),
        Ok((info, off, size)) => match validate(info) {
            Err(k) => Err(k),
            Ok(_) => Ok(
                (
                    WaveInfo { total_frames: (size as nat / frame_divisor(info)) as u32, ..info },
                    off,
                    size,
                ),
            ),
        },
    }
}

/// `r` failed, and `e` is of the kind it failed with.
pub open spec fn fails_with<T>(r: Result<T, Fault>, e: WaveError) -> bool {
    match r {
        Err(k) => e.is_fault(k),
        Ok(_) => false,
    }
}

fn parse_error(msg: &str) -> (e: WaveError)
    ensures
        e.is_fault(Fault::Parse),
{
    WaveError::ParseError(String::from_str(msg))
}

fn unsupported(msg: &str) -> (e: WaveError)
    ensures
        e.is_fault(Fault::Unsupported),
{
    WaveError::Unsupported(String::from_str(msg))
}

/// The encoding that the samples of `info` are in.
pub fn resolve_format(info: &WaveInfo) -> (r: Format)
    ensures
        r == resolved_format(*info),
{
    if info.audio_format == Format::Extensible {
        match info.subformat {
            Some(f) => f,
            None => Format::Extensible,
        }
    } else {
        info.audio_format
    }
}

fn read_format_chunk(b: &[u8], p: usize) -> (r: Result<(WaveInfo, usize), WaveError>)
    requires
        p <= b@.len(),
    ensures
        match r {
            Ok((info, q)) => fmt_chunk(b@, p as int) == Ok::<_, Fault>((info, q as int)),
            Err(e) => fails_with(fmt_chunk(b@, p as int), e),
        },
{
    if b.len() - p < 16 {
        return Err(parse_error("format chunk cut short"));
    }
    let tag = read_u16_le(b, p);
    let audio_format = match Format::decode(tag) {
        Some(f) => f,
        None => {
            return Err(parse_error("unexpected format tag"));
        },
    };
    let info = WaveInfo {
        audio_format,
        channels: read_u16_le(b, p + 2),
        sample_rate: read_u32_le(b, p + 4),
        byte_rate: read_u32_le(b, p + 8),
        block_align: read_u16_le(b, p + 12),
        bits_per_sample: read_u16_le(b, p + 14),
        total_frames: 0,
        valid_bps: None,
        channel_mask: None,
        subformat: None,
    };
    if audio_format != Format::Extensible {
        return Ok((info, p + 16));
    }
    if b.len() - p < 18 {
        return Err(parse_error("extension size cut short"));
    }
    let ext = read_u16_le(b, p + 16);
    if ext == 0 {
        return Ok((info, p + 18));
    }
    if ext != 22 || b.len() - p < 40 {
        return Err(parse_error("unexpected extension size"));
    }
    let valid_bps = read_u16_le(b, p + 18);
    let channel_mask = read_u32_le(b, p + 20);
    let sub = read_u16_le(b, p + 24);
    match Format::decode(sub) {
        Some(s) => Ok(
            (
                WaveInfo {
                    valid_bps: Some(valid_bps),
                    channel_mask: Some(channel_mask),
                    subformat: Some(s),
                    ..info
                },
                p + 40,
            ),
        ),
        None => Err(parse_error("unexpected subformat tag")),
    }
}

fn validate_format(info: &WaveInfo) -> (r: Result<(), WaveError>)
    ensures
        match r {
            Ok(_) => validate(*info) == Ok::<(), Fault>(()),
            Err(e) => fails_with(validate(*info), e),
        },
{
    let bps = info.bits_per_sample;
    let f = resolve_format(info);
    if info.channels == 0 {
        Err(parse_error("no audio channels"))
    } else if bps < 8 {
        Err(unsupported("fewer than 8 bits per sample"))
    } else if f == Format::IEEEFloat && bps != 32 && bps != 64 {
        Err(unsupported("floating-point samples must have 32 or 64 bits"))
    } else if f != Format::PCM && f != Format::IEEEFloat {
        Err(unsupported("extensible format without a known subformat"))
    } else {
        Ok(())
    }
}

/// Reads the header of a WAVE file held in `b`: its format, with
/// `total_frames` computed, and the offset and declared size of its data
/// chunk. Fails with the error kind that `parse_header` gives.
pub fn read_header(b: &[u8]) -> (r: Result<(WaveInfo, usize, u32), WaveError>)
    ensures
        match r {
            Ok((info, off, size)) => parse_header(b@) == Ok::<_, Fault>((info, off as int, size)),
            Err(e) => fails_with(parse_header(b@), e),
        },
{
    if !(id_matches(b, 0, 0x52, 0x49, 0x46, 0x46) && id_matches(b, 8, 0x57, 0x41, 0x56, 0x45)) {
        return Err(parse_error("not a WAVE file"));
    }
    let mut pos: usize = 12;
    let mut fmt: Option<WaveInfo> = None;
    loop
        invariant
            12 <= pos <= b@.len(),
            is_id(b@, 0, riff_id()) && is_id(b@, 8, wave_id()),
            walk(b@, 12, None) == walk(b@, pos as int, fmt),
        decreases b@.len() - pos,
    {
        if b.len() - pos < 8 {
            return Err(parse_error("unexpected end of data"));
        }
        let size = read_u32_le(b, pos + 4);
        if id_matches(b, pos, 0x66, 0x6d, 0x74, 0x20) {
            match read_format_chunk(b, pos + 8) {
                Err(e) => {
                    return Err(e);
                },
                Ok((info, next)) => {
                    fmt = Some(info);
                    pos = next;
                },
            }
        } else if id_matches(b, pos, 0x64, 0x61, 0x74, 0x61) {
            let info = match fmt {
                Some(info) => info,
                None => {
                    return Err(parse_error("missing format chunk"));
                },
            };
            match validate_format(&info) {
                Err(e) => {
                    return Err(e);
                },
                Ok(_) => {},
            }
            let ch: u32 = info.channels as u32;
            let bits: u32 = info.bits_per_sample as u32;
            assert(ch * bits <= 0xffff * 0xffff) by (nonlinear_arith)
                requires
                    ch <= 0xffff,
                    bits <= 0xffff,
            ;
            let whole: u32 = ch * bits;
            assert(whole >= 8) by (nonlinear_arith)
                requires
                    whole == info.channels as u32 * info.bits_per_sample as u32,
                    info.channels >= 1,
                    info.bits_per_sample >= 8,
            ;
            let total_frames = size / (whole / 8);
            return Ok((WaveInfo { total_frames, ..info }, pos + 8, size));
        } else if id_matches(b, pos, 0x4c, 0x49, 0x53, 0x54) || id_matches(
            b,
            pos,
            0x66,
            0x61,
            0x63,
            0x74,
        ) {
            if size as usize > b.len() - (pos + 8) {
                return Err(parse_error("chunk runs past the end of the file"));
            }
            pos = pos + 8 + size as usize;
        } else {
            return Err(parse_error("unexpected chunk id"));
        }
    }
}

} // verus!

verus! {

/// The data chunk that a successful walk finds starts within the bytes.
pub proof fn lemma_walk_offset(b: Seq<u8>, pos: int, fmt: Option<WaveInfo>)
    ensures
        walk(b, pos, fmt) matches Ok((_, off, _)) ==> 0 <= off <= b.len(),
    decreases b.len() - pos,
{
    if in_bounds(b, pos, 8) {
        if is_id(b, pos, fmt_id()) {
            if let Ok((info, next)) = fmt_chunk(b, pos + 8) {
                if pos < next <= b.len() {
                    lemma_walk_offset(b, next, Some(info));
                }
            }
        } else if !is_id(b, pos, data_id()) {
            let next = pos + 8 + le_at(b, pos + 4, 4);
            if next <= b.len() {
                lemma_walk_offset(b, next, fmt);
            }
        }
    }
}

/// The data chunk of a header that parses starts within the bytes.
pub proof fn lemma_header_offset(b: Seq<u8>)
    ensures
        parse_header(b) matches Ok((_, off, _)) ==> 0 <= off <= b.len(),
{
    lemma_walk_offset(b, 12, None);
}

} // verus!

verus! {

/// Bytes that do not start with `RIFF` are not a WAVE file: reading their
/// header fails with a parse error.
pub proof fn lemma_not_riff(b: Seq<u8>)
    requires
        !(b.len() >= 4 && b.subrange(0, 4) == riff_id()),
    ensures
        parse_header(b) == Err::<(WaveInfo, int, u32), Fault>(Fault::Parse),
{
}

/// A file whose format chunk declares fewer than eight bits per sample (4,
/// say) is unsupported, once its structure reads and it has a channel.
pub proof fn lemma_narrow_samples_unsupported(b: Seq<u8>)
    requires
        header_fields(b) matches Ok((info, _, _)) && info.bits_per_sample < 8 && info.channels
            != 0,
    ensures
        parse_header(b) == Err::<(WaveInfo, int, u32), Fault>(Fault::Unsupported),
{
}

} // verus!
