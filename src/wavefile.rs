use crate::error::{Fault, WaveError};
use crate::formats::Format;
use crate::frames::{
    decodable, decode_frame, frame_at, frame_bytes, frames_from, lemma_frame_at_same_bytes,
    lemma_frames_whole, sample_width, Frame, Sample,
};
use crate::header::{
    fails_with, frame_divisor, lemma_header_offset, parse_header, read_header, resolve_format, resolved_format,
    WaveInfo,
};
use crate::speakers::{positions_from, SpeakerPosition};
use vstd::prelude::*;

verus! {

/// An opened WAVE file: its bytes, the format its header declares, and
/// where its data chunk lies. Nothing changes after it is built.
pub struct WaveFile {
    bytes: Vec<u8>,
    data_offset: usize,
    data_size: u32,
    info: WaveInfo,
}

/// Reads the frames of a `WaveFile` one after another, from the start of
/// its data chunk. Each iterator keeps its own position.
pub struct WaveFileIterator<'a> {
    file: &'a WaveFile,
    pos: usize,
    left: u32,
}

impl WaveFile {
    /// The bytes of the file.
    pub closed spec fn content(&self) -> Seq<u8> {
        self.bytes@
    }

    /// The format read from the header.
    pub closed spec fn format_info(&self) -> WaveInfo {
        self.info
    }

    /// Where the data chunk's bytes start.
    pub closed spec fn data_start(&self) -> int {
        self.data_offset as int
    }

    /// The size that the data chunk declares.
    pub closed spec fn data_length(&self) -> u32 {
        self.data_size
    }

    /// The file is what its bytes' header says.
    pub open spec fn wf(&self) -> bool {
        parse_header(self.content()) == Ok::<_, Fault>(
            (self.format_info(), self.data_start(), self.data_length()),
        )
    }

    /// What a fresh iterator over the file yields.
    pub open spec fn frames(&self) -> Seq<Result<Seq<Sample>, Fault>> {
        frames_from(
            self.content(),
            self.format_info(),
            self.data_start(),
            self.data_length() as int,
        )
    }

    /// Reads the header of the WAVE file held in `bytes`. The file keeps
    /// the bytes; its frames are decoded later, as they are read.
    pub fn from_bytes(bytes: Vec<u8>) -> (r: Result<WaveFile, WaveError>)
        ensures
            match r {
                Ok(f) => f.wf() && f.content() == bytes@,
                Err(e) => fails_with(parse_header(bytes@), e),
            },
    {
        match read_header(bytes.as_slice()) {
            Ok((info, data_offset, data_size)) => Ok(
                WaveFile { bytes, data_offset, data_size, info },
            ),
            Err(e) => Err(e),
        }
    }

    /// The number of audio channels.
    pub fn channels(&self) -> (r: u16)
        ensures
            r == self.format_info().channels,
    {
        self.info.channels
    }

    /// The number of frames per second.
    pub fn sample_rate(&self) -> (r: u32)
        ensures
            r == self.format_info().sample_rate,
    {
        self.info.sample_rate
    }

    /// The number of whole frames in the data chunk.
    pub fn len(&self) -> (r: usize)
        ensures
            r == self.format_info().total_frames,
    {
        self.info.total_frames as usize
    }

    /// The duration of the audio in milliseconds, rounded down.
    pub fn duration(&self) -> (r: u32)
        requires
            self.format_info().sample_rate > 0,
            self.format_info().total_frames * 1000 / (self.format_info().sample_rate as int)
                <= u32::MAX,
        ensures
            r == self.format_info().total_frames * 1000 / (self.format_info().sample_rate as int),
    {
        let ms: u64 = self.info.total_frames as u64 * 1000;
        (ms / self.info.sample_rate as u64) as u32
    }

    /// The number of bits of each sample.
    pub fn bits_per_sample(&self) -> (r: u16)
        ensures
            r == self.format_info().bits_per_sample,
    {
        self.info.bits_per_sample
    }

    /// The encoding the samples are in: the subformat of an extensible
    /// file, else the format itself. For an opened file it is `PCM` or
    /// `IEEEFloat`.
    pub fn data_format(&self) -> (r: Format)
        ensures
            r == resolved_format(self.format_info()),
            self.wf() ==> (r == Format::PCM || r == Format::IEEEFloat),
    {
        resolve_format(&self.info)
    }

    /// The speaker positions of the channel mask, where the file has one.
    pub fn speakers(&self) -> (r: Option<Vec<SpeakerPosition>>)
        ensures
            match self.format_info().channel_mask {
                None => r is None,
                Some(mask) => r matches Some(v) && v@ == positions_from(mask as isize, 0),
            },
    {
        match self.info.channel_mask {
            None => None,
            Some(mask) => Some(SpeakerPosition::decode(mask as isize)),
        }
    }

    /// A copy of what the header says.
    pub fn info(&self) -> (r: WaveInfo)
        ensures
            r == self.format_info(),
    {
        self.info
    }

    /// A fresh iterator over the frames, from the start of the data chunk.
    pub fn iter(&self) -> (r: WaveFileIterator<'_>)
        requires
            self.wf(),
        ensures
            r.valid(),
            r.source() == *self,
            r.remaining() == self.frames(),
    {
        proof {
            lemma_header_offset(self.bytes@);
        }
        WaveFileIterator { file: self, pos: self.data_offset, left: self.data_size }
    }
}

impl<'a> WaveFileIterator<'a> {
    /// The file this iterator reads.
    pub closed spec fn source(&self) -> WaveFile {
        *self.file
    }

    /// The iterator's position lies within the bytes of a well-formed file.
    pub closed spec fn valid(&self) -> bool {
        self.file.wf() && self.pos <= self.file.bytes@.len()
    }

    /// What the iterator yields from here on.
    pub closed spec fn remaining(&self) -> Seq<Result<Seq<Sample>, Fault>> {
        frames_from(self.file.bytes@, self.file.info, self.pos as int, self.left as int)
    }

    /// The next frame; `None` once fewer bytes than a whole frame are left
    /// of the data chunk. A frame that cannot be decoded (an encoding this
    /// library does not read, or bytes missing from a cut-short file) gives
    /// an error, after which the iterator yields nothing more.
    pub fn next(&mut self) -> (r: Option<Result<Frame, WaveError>>)
        requires
            old(self).valid(),
        ensures
            final(self).valid(),
            final(self).source() == old(self).source(),
            match r {
                None => old(self).remaining().len() == 0 && final(self).remaining().len() == 0,
                Some(Ok(fr)) => old(self).remaining() == seq![Ok::<_, Fault>(fr@)]
                    + final(self).remaining(),
                Some(Err(e)) => old(self).remaining().len() == 1
                    && fails_with(old(self).remaining()[0], e)
                    && final(self).remaining().len() == 0,
            },
    {
        let info = &self.file.info;
        let b = self.file.bytes.as_slice();
        let ch: usize = info.channels as usize;
        let w: usize = (info.bits_per_sample / 8) as usize;
        assert(ch * w <= 0xffff * 0x2000) by (nonlinear_arith)
            requires
                ch <= 0xffff,
                w <= 0x2000,
        ;
        let fb: usize = ch * w;
        assert(fb == frame_bytes(*info));
        if fb == 0 || (self.left as usize) < fb {
            return None;
        }
        let f = resolve_format(info);
        let bps = info.bits_per_sample;
        let can_decode = (f == Format::PCM && (bps == 8 || bps == 16 || bps == 24 || bps == 32))
            || (f == Format::IEEEFloat && (bps == 32 || bps == 64));
        if !can_decode {
            self.left = 0;
            return Some(
                Err(WaveError::Unsupported(String::from_str("no decoder for this bit depth"))),
            );
        }
        if b.len() - self.pos < fb {
            self.left = 0;
            return Some(Err(WaveError::ParseError(String::from_str("frame cut short"))));
        }
        let frame = decode_frame(b, self.pos, info);
        self.pos = self.pos + fb;
        self.left = self.left - fb as u32;
        Some(Ok(frame))
    }
}

} // verus!

verus! {

/// The number of frames is the data chunk's declared size divided by the
/// bytes of one frame, `channels * bits_per_sample / 8`, rounded down.
pub proof fn lemma_total_frames(f: &WaveFile)
    requires
        f.wf(),
    ensures
        frame_divisor(f.format_info()) > 0,
        f.format_info().total_frames == f.data_length() as nat / frame_divisor(f.format_info()),
{
    let info = f.format_info();
    assert(info.channels * info.bits_per_sample >= 8) by (nonlinear_arith)
        requires
            info.channels >= 1,
            info.bits_per_sample >= 8,
    ;
}

/// A decodable file whose data chunk lies within its bytes yields exactly
/// `total_frames` frames, and the `k`-th of them is the frame stored `k`
/// frames into the data chunk. So every iterator over the file yields the
/// same frames, in the order they are stored.
pub proof fn lemma_frames_in_order(f: &WaveFile)
    requires
        f.wf(),
        decodable(f.format_info()),
        f.data_start() + f.data_length() <= f.content().len(),
    ensures
        f.frames().len() == f.format_info().total_frames,
        forall|k: int|
            0 <= k < f.frames().len() ==> #[trigger] f.frames()[k] == Ok::<_, Fault>(
                frame_at(
                    f.content(),
                    f.data_start() + k * frame_bytes(f.format_info()),
                    f.format_info(),
                ),
            ),
{
    let info = f.format_info();
    lemma_header_offset(f.content());
    lemma_frames_whole(f.content(), info, f.data_start(), f.data_length() as int);
    let w = sample_width(info);
    assert(info.bits_per_sample == 8 * w);
    assert(info.channels * info.bits_per_sample / 8 == info.channels * w) by (nonlinear_arith)
        requires
            info.bits_per_sample == 8 * w,
    ;
}

/// An extensible file of 32-bit floating-point samples decodes exactly as
/// a plain floating-point file with the same channels and the same data
/// bytes.
pub proof fn lemma_extensible_float_as_plain(ext: &WaveFile, plain: &WaveFile)
    requires
        ext.wf(),
        plain.wf(),
        ext.format_info().audio_format == Format::Extensible,
        ext.format_info().subformat == Some(Format::IEEEFloat),
        ext.format_info().bits_per_sample == 32,
        plain.format_info().audio_format == Format::IEEEFloat,
        plain.format_info().bits_per_sample == 32,
        ext.format_info().channels == plain.format_info().channels,
        ext.data_length() == plain.data_length(),
        ext.data_start() + ext.data_length() <= ext.content().len(),
        plain.data_start() + plain.data_length() <= plain.content().len(),
        ext.content().subrange(ext.data_start(), ext.data_start() + ext.data_length())
            == plain.content().subrange(
            plain.data_start(),
            plain.data_start() + plain.data_length(),
        ),
    ensures
        ext.frames() == plain.frames(),
{
    let i1 = ext.format_info();
    let i2 = plain.format_info();
    let b1 = ext.content();
    let b2 = plain.content();
    let s1 = ext.data_start();
    let s2 = plain.data_start();
    let n = ext.data_length() as int;
    let fb = frame_bytes(i1) as int;
    lemma_frames_in_order(ext);
    lemma_frames_in_order(plain);
    assert(frame_bytes(i2) == fb);
    assert forall|k: int| 0 <= k < ext.frames().len() implies #[trigger] ext.frames()[k]
        == plain.frames()[k] by {
        lemma_total_frames(ext);
        assert(i1.channels * 32 / 8 == i1.channels * 4) by (nonlinear_arith);
        assert(frame_divisor(i1) == fb);
        assert(k * fb + fb <= n) by (nonlinear_arith)
            requires
                0 <= k < n / fb,
                fb > 0,
        ;
        assert forall|i: int| 0 <= i < fb implies #[trigger] b1[(s1 + k * fb) + i] == b2[(s2 + k
            * fb) + i] by {
            assert(0 <= k * fb) by (nonlinear_arith)
                requires
                    0 <= k,
                    fb > 0,
            ;
            let d1 = b1.subrange(s1, s1 + n);
            let d2 = b2.subrange(s2, s2 + n);
            assert(d1[k * fb + i] == d2[k * fb + i]);
        }
        lemma_frame_at_same_bytes(b1, s1 + k * fb, b2, s2 + k * fb, i1, i2);
    }
    assert(ext.frames() =~= plain.frames());
}

} // verus!
