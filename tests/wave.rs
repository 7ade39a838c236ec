use wavefile::{Format, Frame, Sample, SpeakerPosition, WaveError, WaveFile};

fn put_u16(v: &mut Vec<u8>, x: u16) {
    v.extend_from_slice(&x.to_le_bytes());
}

fn put_u32(v: &mut Vec<u8>, x: u32) {
    v.extend_from_slice(&x.to_le_bytes());
}

fn chunk(id: &[u8; 4], payload: &[u8]) -> Vec<u8> {
    let mut v = id.to_vec();
    put_u32(&mut v, payload.len() as u32);
    v.extend_from_slice(payload);
    v
}

fn fmt_fields(tag: u16, channels: u16, rate: u32, byte_rate: u32, align: u16, bps: u16) -> Vec<u8> {
    let mut v = Vec::new();
    put_u16(&mut v, tag);
    put_u16(&mut v, channels);
    put_u32(&mut v, rate);
    put_u32(&mut v, byte_rate);
    put_u16(&mut v, align);
    put_u16(&mut v, bps);
    v
}

fn plain_fmt(tag: u16, channels: u16, rate: u32, bps: u16) -> Vec<u8> {
    let align = channels * (bps / 8);
    chunk(b"fmt ", &fmt_fields(tag, channels, rate, rate * align as u32, align, bps))
}

fn extensible_fmt(channels: u16, rate: u32, bps: u16, mask: u32, subformat: u16) -> Vec<u8> {
    let align = channels * (bps / 8);
    let mut v = fmt_fields(0xfffe, channels, rate, rate * align as u32, align, bps);
    put_u16(&mut v, 22);
    put_u16(&mut v, bps);
    put_u32(&mut v, mask);
    put_u16(&mut v, subformat);
    v.extend_from_slice(&[0u8; 14]);
    chunk(b"fmt ", &v)
}

fn riff(chunks: &[Vec<u8>]) -> Vec<u8> {
    let body: Vec<u8> = chunks.concat();
    let mut v = b"RIFF".to_vec();
    put_u32(&mut v, body.len() as u32 + 4);
    v.extend_from_slice(b"WAVE");
    v.extend_from_slice(&body);
    v
}

fn wav(fmt: Vec<u8>, data: &[u8]) -> Vec<u8> {
    riff(&[fmt, chunk(b"data", data)])
}

fn open(bytes: Vec<u8>) -> WaveFile {
    match WaveFile::from_bytes(bytes) {
        Ok(f) => f,
        Err(e) => panic!("Error: {:?}", e),
    }
}

fn level(s: &Sample) -> f32 {
    match *s {
        Sample::Pcm { value, full_scale } => value as f32 / full_scale as f32,
        Sample::Float32(bits) => f32::from_bits(bits),
        Sample::Float64(bits) => f64::from_bits(bits) as f32,
    }
}

fn levels(frame: &Frame) -> Vec<f32> {
    frame.iter().map(level).collect()
}

fn all_frames(file: &WaveFile) -> Vec<Frame> {
    let mut it = file.iter();
    let mut out = Vec::new();
    while let Some(r) = it.next() {
        out.push(r.expect("frame"));
    }
    out
}

fn s24(v: i32) -> [u8; 3] {
    let b = v.to_le_bytes();
    [b[0], b[1], b[2]]
}

/// A stereo 24-bit file of 501888 frames: the first two hold 19581 and
/// 24337 on both channels, the last 244.
fn s24_file() -> Vec<u8> {
    let frames: usize = 501888;
    let mut data = vec![0u8; frames * 6];
    for (k, v) in [(0usize, 19581), (1, 24337), (frames - 1, 244)] {
        data[k * 6..k * 6 + 3].copy_from_slice(&s24(v));
        data[k * 6 + 3..k * 6 + 6].copy_from_slice(&s24(v));
    }
    wav(plain_fmt(1, 2, 48000, 24), &data)
}

fn f32_extensible_file() -> Vec<u8> {
    let frames: usize = 501888;
    let mut data = vec![0u8; frames * 8];
    for (k, v) in [(0usize, 19581.0f32), (1, 24337.0)] {
        let bits = (v / 8388608.0).to_bits().to_le_bytes();
        data[k * 8..k * 8 + 4].copy_from_slice(&bits);
        data[k * 8 + 4..k * 8 + 8].copy_from_slice(&bits);
    }
    wav(extensible_fmt(2, 48000, 32, 3, 3), &data)
}

fn is_parse(r: &Result<WaveFile, WaveError>) -> bool {
    matches!(r, Err(WaveError::ParseError(_)))
}

fn is_unsupported(r: &Result<WaveFile, WaveError>) -> bool {
    matches!(r, Err(WaveError::Unsupported(_)))
}

#[test]
fn test_info() {
    let file = open(s24_file());
    let info = file.info();

    assert_eq!(info.audio_format, Format::PCM);
    assert_eq!(info.channels, 2);
    assert_eq!(info.sample_rate, 48000);
    assert_eq!(info.byte_rate, 288000);
    assert_eq!(info.block_align, 6);
    assert_eq!(info.bits_per_sample, 24);
    assert_eq!(info.total_frames, 501888);

    let file = open(wav(plain_fmt(1, 2, 48000, 8), &vec![128u8; 501888 * 2]));
    let info = file.info();

    assert_eq!(info.audio_format, Format::PCM);
    assert_eq!(info.channels, 2);
    assert_eq!(info.sample_rate, 48000);
    assert_eq!(info.byte_rate, 96000);
    assert_eq!(info.bits_per_sample, 8);
    assert_eq!(info.block_align, 2);
    assert_eq!(info.total_frames, 501888);
}

#[test]
fn test_iter() {
    let file = open(s24_file());

    let mut it = file.iter();
    let frames: Vec<Vec<f32>> = (0..2).map(|_| levels(&it.next().unwrap().unwrap())).collect();
    let expected = vec![[0.002334237, 0.002334237], [0.0029011965, 0.0029011965]];

    for i in 0..expected.len() {
        assert_eq!(frames[i], expected[i]);
    }

    let frame = levels(all_frames(&file).last().unwrap());
    let expected = [2.9087067e-05, 2.9087067e-05];

    assert_eq!(frame, expected)
}

#[test]
fn test_float_extensible() {
    let file = open(f32_extensible_file());
    let info = file.info();

    assert_eq!(info.audio_format, Format::Extensible);
    assert_eq!(file.data_format(), Format::IEEEFloat);
    assert_eq!(file.len(), 501888);

    let mut it = file.iter();
    let frames: Vec<Vec<f32>> = (0..2).map(|_| levels(&it.next().unwrap().unwrap())).collect();
    let expected = vec![[0.002334237, 0.002334237], [0.0029011965, 0.0029011965]];

    for i in 0..expected.len() {
        assert_eq!(frames[i], expected[i]);
    }

    assert_eq!(file.speakers().unwrap(), [SpeakerPosition::FrontLeft, SpeakerPosition::FrontRight]);
}

#[test]
fn test_duration() {
    let file = open(s24_file());
    assert_eq!(file.duration(), 10456);
}

#[test]
fn total_frames_drops_partial_frame() {
    let file = open(wav(plain_fmt(1, 2, 8000, 16), &[1u8; 13]));
    assert_eq!(file.len(), 3);
    assert_eq!(file.info().total_frames, 3);
    assert_eq!(all_frames(&file).len(), 3);
}

#[test]
fn frame_count_matches_len_for_each_encoding() {
    for (tag, bps) in [(1u16, 8u16), (1, 16), (1, 24), (1, 32), (3, 32), (3, 64)] {
        let channels: u16 = 3;
        let bytes = channels as usize * (bps as usize / 8) * 7 + 1;
        let file = open(wav(plain_fmt(tag, channels, 44100, bps), &vec![7u8; bytes]));
        assert_eq!(file.len(), 7);
        let frames = all_frames(&file);
        assert_eq!(frames.len(), file.len());
        assert!(frames.iter().all(|f| f.len() == 3));
    }
}

#[test]
fn pcm16_levels_lie_in_unit_range() {
    let mut data = Vec::new();
    for v in [i16::MIN, -1, 0, 1, i16::MAX] {
        data.extend_from_slice(&v.to_le_bytes());
    }
    let file = open(wav(plain_fmt(1, 1, 8000, 16), &data));
    let frames = all_frames(&file);
    assert_eq!(frames.len(), 5);
    for f in &frames {
        let l = level(&f[0]);
        assert!((-1.0..=1.0).contains(&l));
    }
    assert_eq!(frames[0][0], Sample::Pcm { value: -32768, full_scale: 32768 });
    assert_eq!(level(&frames[0][0]), -1.0);
    assert_eq!(frames[4][0], Sample::Pcm { value: 32767, full_scale: 32768 });
}

#[test]
fn pcm8_levels() {
    let file = open(wav(plain_fmt(1, 3, 8000, 8), &[128, 0, 255]));
    let frames = all_frames(&file);
    assert_eq!(frames.len(), 1);
    let l = levels(&frames[0]);
    assert_eq!(l[0], 0.0);
    assert_eq!(l[1], -1.0);
    assert!((1.0 - l[2]).abs() <= 1.0 / 128.0);
    assert_eq!(frames[0][2], Sample::Pcm { value: 127, full_scale: 128 });
}

#[test]
fn extensible_float_decodes_as_plain_float() {
    let mut data = Vec::new();
    for v in [0.5f32, -0.25, 1.0, -1.0, 0.125, 0.0] {
        data.extend_from_slice(&v.to_bits().to_le_bytes());
    }
    let ext = open(wav(extensible_fmt(2, 22050, 32, 3, 3), &data));
    let plain = open(wav(plain_fmt(3, 2, 22050, 32), &data));
    let a = all_frames(&ext);
    let b = all_frames(&plain);
    assert_eq!(a.len(), 3);
    assert_eq!(a, b);
    assert_eq!(levels(&a[0]), vec![0.5, -0.25]);
}

#[test]
fn not_riff_is_a_parse_error() {
    let mut bytes = s24_file();
    bytes[0] = b'X';
    assert!(is_parse(&WaveFile::from_bytes(bytes)));
    assert!(is_parse(&WaveFile::from_bytes(Vec::new())));
    assert!(is_parse(&WaveFile::from_bytes(b"RIF".to_vec())));
    assert!(is_parse(&WaveFile::from_bytes(b"RIFX\0\0\0\0WAVE".to_vec())));
    assert!(is_parse(&WaveFile::from_bytes(b"RIFF\0\0\0\0AVI ".to_vec())));
}

#[test]
fn four_bit_samples_are_unsupported() {
    let r = WaveFile::from_bytes(wav(chunk(b"fmt ", &fmt_fields(1, 1, 8000, 4000, 1, 4)), &[0u8; 8]));
    assert!(is_unsupported(&r));
}

#[test]
fn iterators_over_one_file_agree() {
    let mut data = Vec::new();
    for v in 0..40i16 {
        data.extend_from_slice(&(v * 300 - 6000).to_le_bytes());
    }
    let file = open(wav(plain_fmt(1, 2, 8000, 16), &data));
    let mut a = file.iter();
    let mut b = file.iter();
    let mut from_a = Vec::new();
    let mut from_b = Vec::new();
    for _ in 0..5 {
        from_a.push(a.next().unwrap().unwrap());
    }
    for _ in 0..12 {
        from_b.push(b.next().unwrap().unwrap());
    }
    while let Some(f) = a.next() {
        from_a.push(f.unwrap());
    }
    while let Some(f) = b.next() {
        from_b.push(f.unwrap());
    }
    assert_eq!(from_a.len(), 20);
    assert_eq!(from_a, from_b);
    assert_eq!(from_a[3], vec![Sample::Pcm { value: -4200, full_scale: 32768 }, Sample::Pcm { value: -3900, full_scale: 32768 }]);
    assert!(a.next().is_none());
    assert!(a.next().is_none());
}

#[test]
fn stereo_24bit_header_and_first_frame() {
    let mut data = Vec::new();
    data.extend_from_slice(&s24(-8388608));
    data.extend_from_slice(&s24(4194304));
    data.extend_from_slice(&s24(1));
    data.extend_from_slice(&s24(-1));
    let file = open(wav(chunk(b"fmt ", &fmt_fields(1, 2, 48000, 288000, 6, 24)), &data));
    let info = file.info();
    assert_eq!(file.channels(), 2);
    assert_eq!(file.bits_per_sample(), 24);
    assert_eq!(file.sample_rate(), 48000);
    assert_eq!(info.byte_rate, 288000);
    assert_eq!(info.block_align, 6);
    let first = file.iter().next().unwrap().unwrap();
    assert_eq!(levels(&first), vec![-8388608.0 / 8388608.0, 4194304.0 / 8388608.0]);
    assert_eq!(levels(&first), vec![-1.0, 0.5]);
}

#[test]
fn list_and_fact_chunks_are_skipped() {
    let bytes = riff(&[
        chunk(b"LIST", b"INFOsome text"),
        plain_fmt(1, 1, 8000, 16),
        chunk(b"fact", &[0, 0, 0, 0]),
        chunk(b"data", &[1, 0, 2, 0]),
    ]);
    let file = open(bytes);
    assert_eq!(file.len(), 2);
    let frames = all_frames(&file);
    assert_eq!(frames[1], vec![Sample::Pcm { value: 2, full_scale: 32768 }]);
}

#[test]
fn unknown_chunk_is_a_parse_error() {
    let bytes = riff(&[plain_fmt(1, 1, 8000, 16), chunk(b"junk", &[0; 4]), chunk(b"data", &[0; 4])]);
    assert!(is_parse(&WaveFile::from_bytes(bytes)));
}

#[test]
fn missing_format_chunk_is_a_parse_error() {
    let bytes = riff(&[chunk(b"data", &[0; 4])]);
    assert!(is_parse(&WaveFile::from_bytes(bytes)));
}

#[test]
fn missing_data_chunk_is_a_parse_error() {
    let bytes = riff(&[plain_fmt(1, 1, 8000, 16)]);
    assert!(is_parse(&WaveFile::from_bytes(bytes)));
}

#[test]
fn chunk_running_past_the_end_is_a_parse_error() {
    let mut bytes = riff(&[plain_fmt(1, 1, 8000, 16)]);
    bytes.extend_from_slice(b"LIST");
    put_u32(&mut bytes, 1000);
    assert!(is_parse(&WaveFile::from_bytes(bytes)));
}

#[test]
fn zero_channels_is_a_parse_error() {
    let r = WaveFile::from_bytes(wav(chunk(b"fmt ", &fmt_fields(1, 0, 8000, 0, 0, 16)), &[0; 4]));
    assert!(is_parse(&r));
}

#[test]
fn unknown_format_tag_is_a_parse_error() {
    let r = WaveFile::from_bytes(wav(plain_fmt(2, 1, 8000, 16), &[0; 4]));
    assert!(is_parse(&r));
}

#[test]
fn float_of_16_bits_is_unsupported() {
    let r = WaveFile::from_bytes(wav(plain_fmt(3, 1, 8000, 16), &[0; 4]));
    assert!(is_unsupported(&r));
}

#[test]
fn extensible_without_extension_is_unsupported() {
    let mut v = fmt_fields(0xfffe, 2, 8000, 32000, 4, 16);
    put_u16(&mut v, 0);
    let r = WaveFile::from_bytes(wav(chunk(b"fmt ", &v), &[0; 8]));
    assert!(is_unsupported(&r));
}

#[test]
fn extensible_with_odd_extension_size_is_a_parse_error() {
    let mut v = fmt_fields(0xfffe, 2, 8000, 32000, 4, 16);
    put_u16(&mut v, 10);
    v.extend_from_slice(&[0; 10]);
    let r = WaveFile::from_bytes(wav(chunk(b"fmt ", &v), &[0; 8]));
    assert!(is_parse(&r));
}

#[test]
fn extensible_with_extensible_subformat_is_unsupported() {
    let r = WaveFile::from_bytes(wav(extensible_fmt(2, 8000, 16, 3, 0xfffe), &[0; 8]));
    assert!(is_unsupported(&r));
}

#[test]
fn extensible_with_unknown_subformat_is_a_parse_error() {
    let r = WaveFile::from_bytes(wav(extensible_fmt(2, 8000, 16, 3, 7), &[0; 8]));
    assert!(is_parse(&r));
}

#[test]
fn extensible_pcm_resolves_to_pcm() {
    let mut data = Vec::new();
    for v in [-2i16, 3, 100, -100] {
        data.extend_from_slice(&v.to_le_bytes());
    }
    let file = open(wav(extensible_fmt(2, 8000, 16, 0x30, 1), &data));
    assert_eq!(file.data_format(), Format::PCM);
    assert_eq!(file.info().valid_bps, Some(16));
    assert_eq!(file.info().channel_mask, Some(0x30));
    assert_eq!(file.info().subformat, Some(Format::PCM));
    assert_eq!(file.speakers().unwrap(), vec![SpeakerPosition::BackLeft, SpeakerPosition::BackRight]);
    let frames = all_frames(&file);
    assert_eq!(frames[1], vec![Sample::Pcm { value: 100, full_scale: 32768 }, Sample::Pcm { value: -100, full_scale: 32768 }]);
}

#[test]
fn cut_short_data_gives_an_error_then_nothing() {
    let mut bytes = wav(plain_fmt(1, 1, 8000, 16), &[1, 0, 2, 0]);
    let n = bytes.len();
    bytes[n - 8..n - 4].copy_from_slice(&20u32.to_le_bytes());
    let file = open(bytes);
    assert_eq!(file.len(), 10);
    let mut it = file.iter();
    assert_eq!(it.next().unwrap().unwrap(), vec![Sample::Pcm { value: 1, full_scale: 32768 }]);
    assert_eq!(it.next().unwrap().unwrap(), vec![Sample::Pcm { value: 2, full_scale: 32768 }]);
    assert!(matches!(it.next(), Some(Err(WaveError::ParseError(_)))));
    assert!(it.next().is_none());
}

#[test]
fn pcm_of_12_bits_opens_but_does_not_decode() {
    let file = open(wav(plain_fmt(1, 1, 8000, 12), &[0; 6]));
    assert_eq!(file.len(), 6);
    let mut it = file.iter();
    assert!(matches!(it.next(), Some(Err(WaveError::Unsupported(_)))));
    assert!(it.next().is_none());
}

#[test]
fn pcm32_and_float64_samples() {
    let mut data = Vec::new();
    data.extend_from_slice(&i32::MIN.to_le_bytes());
    data.extend_from_slice(&0x1234_5678i32.to_le_bytes());
    let file = open(wav(plain_fmt(1, 2, 8000, 32), &data));
    let frames = all_frames(&file);
    assert_eq!(frames[0], vec![Sample::Pcm { value: i32::MIN, full_scale: 0x8000_0000 }, Sample::Pcm { value: 0x1234_5678, full_scale: 0x8000_0000 }]);
    assert_eq!(level(&frames[0][0]), -1.0);

    let mut data = Vec::new();
    data.extend_from_slice(&0.1f64.to_bits().to_le_bytes());
    let file = open(wav(plain_fmt(3, 1, 8000, 64), &data));
    let frames = all_frames(&file);
    assert_eq!(frames[0], vec![Sample::Float64(0.1f64.to_bits())]);
    assert_eq!(level(&frames[0][0]), 0.1f32);
}

#[test]
fn negative_24_bit_samples_are_sign_extended() {
    let file = open(wav(plain_fmt(1, 1, 8000, 24), &[0xff, 0xff, 0xff, 0x00, 0x00, 0x80]));
    let frames = all_frames(&file);
    assert_eq!(frames[0], vec![Sample::Pcm { value: -1, full_scale: 0x80_0000 }]);
    assert_eq!(frames[1], vec![Sample::Pcm { value: -8388608, full_scale: 0x80_0000 }]);
}

#[test]
fn duration_rounds_down() {
    let file = open(wav(plain_fmt(1, 1, 3, 8), &[0; 7]));
    assert_eq!(file.duration(), 2333);
}

#[test]
fn speakers_absent_without_mask() {
    let file = open(wav(plain_fmt(1, 1, 8000, 8), &[0; 2]));
    assert!(file.speakers().is_none());
}

#[test]
fn speaker_mask_decodes_in_bit_order() {
    assert_eq!(SpeakerPosition::decode(0), vec![]);
    assert_eq!(
        SpeakerPosition::decode(0b1_0000_0000_0000_1001),
        vec![SpeakerPosition::FrontLeft, SpeakerPosition::LowFrequency, SpeakerPosition::TopBackCenter]
    );
    assert_eq!(SpeakerPosition::decode(1 << 17), vec![SpeakerPosition::TopBackRight]);
    assert_eq!(SpeakerPosition::decode(1 << 18), vec![]);
    assert_eq!(SpeakerPosition::decode(-1).len(), 18);
}

#[test]
fn format_tags_decode() {
    assert_eq!(Format::decode(1), Some(Format::PCM));
    assert_eq!(Format::decode(3), Some(Format::IEEEFloat));
    assert_eq!(Format::decode(0xfffe), Some(Format::Extensible));
    assert_eq!(Format::decode(2), None);
}

#[test]
fn error_text() {
    let e = WaveError::ParseError("bad".to_string());
    assert_eq!(e.description(), "bad");
    assert_eq!(e.to_string(), "Parse Error: bad");
    let e = WaveError::Unsupported("odd".to_string());
    assert_eq!(e.to_string(), "Unsupported Format Error: odd");
    let e = WaveError::from(std::io::Error::new(std::io::ErrorKind::NotFound, "gone"));
    assert!(matches!(e, WaveError::IoError(_)));
    assert_eq!(e.to_string(), "IO Error: gone");
    assert_eq!(e.description(), "gone");
}
