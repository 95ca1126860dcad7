use pacmog::{AudioFormat, PcmPlayer, PcmPlayerError, PcmReader, PcmReaderError, SampleValue};

const SINEWAVE: [f32; 10] = [
    0f32,
    0.05130394f32,
    0.10243774f32,
    0.15323183f32,
    0.20351772f32,
    0.2531287f32,
    0.3019002f32,
    0.34967047f32,
    0.39628112f32,
    0.44157755f32,
];

const NUM_SAMPLES: usize = 240000;

/// Sample `i` of the 440 Hz test tone at 48 kHz, about -1 dBFS.
fn tone(i: usize) -> f64 {
    if i < SINEWAVE.len() {
        SINEWAVE[i] as f64
    } else {
        0.891250938 * (2.0 * std::f64::consts::PI * 440.0 * i as f64 / 48000.0).sin()
    }
}

fn to_f32(v: SampleValue) -> f32 {
    match v {
        SampleValue::Pcm { value, bit_depth } => value as f32 / (1u64 << (bit_depth - 1)) as f32,
        SampleValue::Float32 { bits } => f32::from_bits(bits),
        SampleValue::Float64 { bits } => f64::from_bits(bits) as f32,
    }
}

fn approx(a: f32, b: f32, eps: f32) -> bool {
    let d = (a - b).abs();
    d <= eps || d <= f32::EPSILON * a.abs().max(b.abs())
}

#[derive(Clone, Copy)]
enum Kind {
    Int,
    Float,
}

/// Sample bytes of the tone, `bits` wide.
fn tone_bytes(kind: Kind, bits: u32, big_endian: bool) -> Vec<u8> {
    let mut out = Vec::new();
    for i in 0..NUM_SAMPLES {
        let x = tone(i);
        let mut b: Vec<u8> = match (kind, bits) {
            (Kind::Int, 16) => ((x * 32768.0).round() as i16).to_le_bytes().to_vec(),
            (Kind::Int, 24) => ((x * 8388608.0).round() as i32).to_le_bytes()[..3].to_vec(),
            (Kind::Int, 32) => ((x * 2147483648.0).round() as i32).to_le_bytes().to_vec(),
            (Kind::Float, 32) => (x as f32).to_le_bytes().to_vec(),
            (Kind::Float, 64) => x.to_le_bytes().to_vec(),
            _ => panic!("unsupported"),
        };
        if big_endian {
            b.reverse();
        }
        out.extend_from_slice(&b);
    }
    out
}

fn chunk(tag: &[u8], payload: &[u8], big_endian: bool) -> Vec<u8> {
    let mut c = tag.to_vec();
    let n = payload.len() as u32;
    c.extend_from_slice(&if big_endian { n.to_be_bytes() } else { n.to_le_bytes() });
    c.extend_from_slice(payload);
    c
}

fn wav_file(format_tag: u16, channels: u16, bits: u16, data: &[u8]) -> Vec<u8> {
    let mut fmt = Vec::new();
    fmt.extend_from_slice(&format_tag.to_le_bytes());
    fmt.extend_from_slice(&channels.to_le_bytes());
    fmt.extend_from_slice(&48000u32.to_le_bytes());
    fmt.extend_from_slice(&(48000u32 * bits as u32 / 8 * channels as u32).to_le_bytes());
    fmt.extend_from_slice(&(bits / 8 * channels).to_le_bytes());
    fmt.extend_from_slice(&bits.to_le_bytes());
    let mut body = b"WAVE".to_vec();
    body.extend(chunk(b"fmt ", &fmt, false));
    body.extend(chunk(b"LIST", b"INFOISFT", false));
    body.extend(chunk(b"data", data, false));
    let mut f = b"RIFF".to_vec();
    f.extend_from_slice(&(body.len() as u32).to_le_bytes());
    f.extend(body);
    f
}

const RATE_48000: [u8; 10] = [64, 14, 187, 128, 0, 0, 0, 0, 0, 0];

fn aiff_file(bits: u16, compression: Option<&[u8]>, data: &[u8]) -> Vec<u8> {
    let mut comm = Vec::new();
    comm.extend_from_slice(&1u16.to_be_bytes());
    comm.extend_from_slice(&(NUM_SAMPLES as u32).to_be_bytes());
    comm.extend_from_slice(&bits.to_be_bytes());
    comm.extend_from_slice(&RATE_48000);
    if let Some(c) = compression {
        comm.extend_from_slice(c);
        comm.extend_from_slice(&[0, 0]);
    }
    let mut ssnd = vec![0u8; 8];
    ssnd.extend_from_slice(data);
    let mut body = if compression.is_some() { b"AIFC".to_vec() } else { b"AIFF".to_vec() };
    if compression.is_some() {
        body.extend(chunk(b"FVER", &0xA2805140u32.to_be_bytes(), true));
    }
    body.extend(chunk(b"COMM", &comm, true));
    body.extend(chunk(b"SSND", &ssnd, true));
    let mut f = b"FORM".to_vec();
    f.extend_from_slice(&(body.len() as u32).to_be_bytes());
    f.extend(body);
    f
}

fn check_specs(reader: &PcmReader, format: AudioFormat, bits: u16) {
    let spec = reader.get_pcm_specs();
    assert_eq!(spec.num_samples, 240000);
    assert_eq!(spec.sample_rate, 48000);
    assert_eq!(spec.num_channels, 1);
    assert_eq!(spec.audio_format, format);
    assert_eq!(spec.bit_depth, bits);
}

fn check_first_ten(reader: &PcmReader, eps: f32) {
    for i in 0..10 {
        let sample = to_f32(reader.read_sample(0, i).unwrap());
        assert!(approx(sample, SINEWAVE[i as usize], eps), "sample {i}: {sample}");
    }
}

#[test]
fn wav_linearpcm_specs() {
    let wav = wav_file(1, 1, 16, &tone_bytes(Kind::Int, 16, false));
    let mut input = &wav[..];
    let reader = PcmReader::new(&mut input).unwrap();
    check_specs(&reader, AudioFormat::LinearPcmLe, 16);
}

#[test]
fn aiff_linearpcm_specs() {
    let data = aiff_file(16, None, &tone_bytes(Kind::Int, 16, true));
    let mut input = &data[..];
    let reader = PcmReader::new(&mut input).unwrap();
    check_specs(&reader, AudioFormat::LinearPcmBe, 16);
}

#[test]
fn wav_float32_specs() {
    let wav = wav_file(3, 1, 32, &tone_bytes(Kind::Float, 32, false));
    let mut input = &wav[..];
    let reader = PcmReader::new(&mut input).unwrap();
    check_specs(&reader, AudioFormat::IeeeFloatLe, 32);
}

#[test]
fn aiff_float32_specs() {
    let data = aiff_file(32, Some(b"fl32"), &tone_bytes(Kind::Float, 32, true));
    let mut input = &data[..];
    let reader = PcmReader::new(&mut input).unwrap();
    check_specs(&reader, AudioFormat::IeeeFloatBe, 32);
}

#[test]
fn wav_16bit() {
    let wav = wav_file(1, 1, 16, &tone_bytes(Kind::Int, 16, false));
    let mut input = &wav[..];
    let reader = PcmReader::new(&mut input).unwrap();
    check_specs(&reader, AudioFormat::LinearPcmLe, 16);
    check_first_ten(&reader, f32::EPSILON * 200f32);
}

#[test]
fn wav_24bit() {
    let wav = wav_file(1, 1, 24, &tone_bytes(Kind::Int, 24, false));
    let mut input = &wav[..];
    let reader = PcmReader::new(&mut input).unwrap();
    check_specs(&reader, AudioFormat::LinearPcmLe, 24);
    check_first_ten(&reader, f32::EPSILON * 10f32);
}

#[test]
fn wav_32bit() {
    let wav = wav_file(1, 1, 32, &tone_bytes(Kind::Int, 32, false));
    let mut input = &wav[..];
    let reader = PcmReader::new(&mut input).unwrap();
    check_specs(&reader, AudioFormat::LinearPcmLe, 32);
    check_first_ten(&reader, f32::EPSILON);
}

#[test]
fn wav_32bit_float() {
    let wav = wav_file(3, 1, 32, &tone_bytes(Kind::Float, 32, false));
    let mut input = &wav[..];
    let reader = PcmReader::new(&mut input).unwrap();
    check_specs(&reader, AudioFormat::IeeeFloatLe, 32);
    check_first_ten(&reader, f32::EPSILON);
}

#[test]
fn wav_64bit_float() {
    let wav = wav_file(3, 1, 64, &tone_bytes(Kind::Float, 64, false));
    let mut input = &wav[..];
    let reader = PcmReader::new(&mut input).unwrap();
    check_specs(&reader, AudioFormat::IeeeFloatLe, 64);
    check_first_ten(&reader, f32::EPSILON);
}

#[test]
fn aiff_16bit() {
    let data = aiff_file(16, None, &tone_bytes(Kind::Int, 16, true));
    let mut input = &data[..];
    let reader = PcmReader::new(&mut input).unwrap();
    check_specs(&reader, AudioFormat::LinearPcmBe, 16);
    check_first_ten(&reader, f32::EPSILON * 200f32);
}

#[test]
fn aiff_24bit() {
    let data = aiff_file(24, None, &tone_bytes(Kind::Int, 24, true));
    let mut input = &data[..];
    let reader = PcmReader::new(&mut input).unwrap();
    check_specs(&reader, AudioFormat::LinearPcmBe, 24);
    check_first_ten(&reader, f32::EPSILON * 10f32);
}

#[test]
fn aiff_32bit() {
    let data = aiff_file(32, None, &tone_bytes(Kind::Int, 32, true));
    let mut input = &data[..];
    let reader = PcmReader::new(&mut input).unwrap();
    check_specs(&reader, AudioFormat::LinearPcmBe, 32);
    check_first_ten(&reader, f32::EPSILON);
}

#[test]
fn aiff_32bit_float() {
    let data = aiff_file(32, Some(b"fl32"), &tone_bytes(Kind::Float, 32, true));
    let mut input = &data[..];
    let reader = PcmReader::new(&mut input).unwrap();
    check_specs(&reader, AudioFormat::IeeeFloatBe, 32);
    check_first_ten(&reader, f32::EPSILON);
}

#[test]
fn aiff_64bit_float() {
    let data = aiff_file(64, Some(b"fl64"), &tone_bytes(Kind::Float, 64, true));
    let mut input = &data[..];
    let reader = PcmReader::new(&mut input).unwrap();
    check_specs(&reader, AudioFormat::IeeeFloatBe, 64);
    check_first_ten(&reader, f32::EPSILON);
}

#[test]
fn aifc_sowt_is_little_endian_16bit() {
    let data = aiff_file(8, Some(b"sowt"), &tone_bytes(Kind::Int, 16, false));
    let mut input = &data[..];
    let reader = PcmReader::new(&mut input).unwrap();
    check_specs(&reader, AudioFormat::LinearPcmLe, 16);
    check_first_ten(&reader, f32::EPSILON * 200f32);
}

#[test]
fn wav_player_32bit() {
    let wav = wav_file(1, 1, 32, &tone_bytes(Kind::Int, 32, false));
    let mut input = &wav[..];
    let mut player = PcmPlayer::new(PcmReader::new(&mut input).unwrap());
    let spec = player.reader.get_pcm_specs();
    player.set_position(0).unwrap();
    player.set_loop_playing(false);
    let zero = SampleValue::Pcm { value: 0, bit_depth: 32 };
    let mut buffer = [zero, zero];
    let b = buffer.as_mut_slice();

    for i in 0..10 {
        if let Ok(_) = player.get_next_frame(b) {
            assert!(approx(to_f32(b[0]), SINEWAVE[i as usize], f32::EPSILON));
        }
    }

    player.set_position(0).unwrap();
    for i in 0..10 {
        if let Ok(_) = player.get_next_frame(b) {
            assert!(approx(to_f32(b[0]), SINEWAVE[i as usize], f32::EPSILON));
        }
    }

    player.set_position(0).unwrap();
    for _ in 0..spec.num_samples {
        if let Ok(_) = player.get_next_frame(b) {}
    }

    for _ in 0..10 {
        let e = player.get_next_frame(b);
        match e {
            Ok(_) => assert!(false),
            Err(_) => continue,
        }
    }

    player.set_loop_playing(true);
    player.set_position(0).unwrap();
    for _ in 0..spec.num_samples {
        if let Ok(_) = player.get_next_frame(b) {}
    }

    for i in 0..10 {
        if let Ok(_) = player.get_next_frame(b) {
            assert!(approx(to_f32(b[0]), SINEWAVE[i as usize], f32::EPSILON));
        }
    }
}

#[test]
fn player_errors() {
    let wav = wav_file(1, 2, 16, &[1, 0, 2, 0, 3, 0, 4, 0]);
    let mut input = &wav[..];
    let mut player = PcmPlayer::new(PcmReader::new(&mut input).unwrap());
    let zero = SampleValue::Pcm { value: 0, bit_depth: 16 };
    let mut one = [zero];
    assert_eq!(player.get_next_frame(&mut one), Err(PcmPlayerError::OutputBufferTooShort));
    assert_eq!(player.set_position(2), Err(PcmPlayerError::InvalidPosition));
    let mut two = [zero, zero];
    player.get_next_frame(&mut two).unwrap();
    assert_eq!(two, [SampleValue::Pcm { value: 1, bit_depth: 16 }, SampleValue::Pcm { value: 2, bit_depth: 16 }]);
    player.get_next_frame(&mut two).unwrap();
    assert_eq!(two, [SampleValue::Pcm { value: 3, bit_depth: 16 }, SampleValue::Pcm { value: 4, bit_depth: 16 }]);
    assert_eq!(player.get_next_frame(&mut two), Err(PcmPlayerError::FinishPlaying));
}

#[test]
fn read_sample_bounds() {
    let wav = wav_file(1, 1, 16, &[0x34, 0x12, 0xff, 0xff, 0x00, 0x80]);
    let mut input = &wav[..];
    let reader = PcmReader::new(&mut input).unwrap();
    assert_eq!(reader.get_pcm_specs().num_samples, 3);
    assert_eq!(reader.read_sample(0, 0), Ok(SampleValue::Pcm { value: 0x1234, bit_depth: 16 }));
    assert_eq!(reader.read_sample(0, 1), Ok(SampleValue::Pcm { value: -1, bit_depth: 16 }));
    assert_eq!(reader.read_sample(0, 2), Ok(SampleValue::Pcm { value: -32768, bit_depth: 16 }));
    assert_eq!(reader.read_sample(1, 0), Err(PcmReaderError::InvalidChannel));
    assert_eq!(reader.read_sample(0, 3), Err(PcmReaderError::InvalidSample));
    assert_eq!(reader.read_sample(0, u32::MAX), Err(PcmReaderError::InvalidSample));
}

#[test]
fn get_pcm_specs_is_repeatable() {
    let wav = wav_file(3, 1, 32, &tone_bytes(Kind::Float, 32, false));
    let mut input = &wav[..];
    let reader = PcmReader::new(&mut input).unwrap();
    let a = reader.get_pcm_specs();
    let b = reader.get_pcm_specs();
    assert_eq!(a, b);
}

#[test]
fn end_to_end_sine() {
    let wav = wav_file(1, 1, 16, &tone_bytes(Kind::Int, 16, false));
    let mut input = &wav[..];
    let reader = PcmReader::new(&mut input).unwrap();
    let n = reader.get_pcm_specs().num_samples;
    for i in 0..n {
        let expected = ((tone(i as usize) * 32768.0).round() as i16) as i32;
        assert_eq!(reader.read_sample(0, i), Ok(SampleValue::Pcm { value: expected, bit_depth: 16 }));
    }
}

#[test]
fn big_endian_and_24bit_decoding() {
    let specs = |audio_format, bit_depth| pacmog::PcmSpecs {
        audio_format,
        bit_depth,
        num_channels: 1,
        ..Default::default()
    };
    let d = [0x80, 0x00, 0x01, 0x7f];
    assert_eq!(
        pacmog::decode_sample(&specs(AudioFormat::LinearPcmBe, 16), &d),
        Ok(SampleValue::Pcm { value: -32768, bit_depth: 16 })
    );
    assert_eq!(
        pacmog::decode_sample(&specs(AudioFormat::LinearPcmBe, 24), &d),
        Ok(SampleValue::Pcm { value: -8388607, bit_depth: 24 })
    );
    assert_eq!(
        pacmog::decode_sample(&specs(AudioFormat::LinearPcmLe, 24), &d),
        Ok(SampleValue::Pcm { value: 0x010080, bit_depth: 24 })
    );
    assert_eq!(
        pacmog::decode_sample(&specs(AudioFormat::IeeeFloatBe, 32), &1.5f32.to_be_bytes()),
        Ok(SampleValue::Float32 { bits: 1.5f32.to_bits() })
    );
    assert_eq!(
        pacmog::decode_sample(&specs(AudioFormat::LinearPcmLe, 8), &d),
        Err(PcmReaderError::UnsupportedBitDepth)
    );
    assert_eq!(
        pacmog::decode_sample(&specs(AudioFormat::IeeeFloatLe, 16), &d),
        Err(PcmReaderError::UnsupportedBitDepth)
    );
    assert_eq!(
        pacmog::decode_sample(&specs(AudioFormat::LinearPcmLe, 32), &d[..3]),
        Err(PcmReaderError::InvalidSample)
    );
    assert_eq!(
        pacmog::decode_sample(&specs(AudioFormat::ImaAdpcmLe, 4), &d),
        Err(PcmReaderError::UnsupportedAudioFormat)
    );
}

#[test]
fn header_size_mismatch() {
    let mut wav = wav_file(1, 1, 16, &[0, 0, 1, 0]);
    wav[4] = wav[4].wrapping_add(1);
    let mut input = &wav[..];
    assert_eq!(PcmReader::new(&mut input).err(), Some(PcmReaderError::HeaderSizeMismatch));

    let mut aiff = aiff_file(16, None, &[0, 0, 0, 1]);
    aiff[7] = aiff[7].wrapping_sub(1);
    let mut input = &aiff[..];
    assert_eq!(PcmReader::new(&mut input).err(), Some(PcmReaderError::HeaderSizeMismatch));
}

#[test]
fn construction_errors() {
    let mut input: &[u8] = b"OggS\0\0\0\0\0\0\0\0";
    assert_eq!(PcmReader::new(&mut input).err(), Some(PcmReaderError::UnsupportedAudioFormat));

    // 17 chunks exceed the chunk list
    let mut body = b"WAVE".to_vec();
    for _ in 0..17 {
        body.extend(chunk(b"JUNK", &[], false));
    }
    let mut f = b"RIFF".to_vec();
    f.extend_from_slice(&(body.len() as u32).to_le_bytes());
    f.extend(body);
    let mut input = &f[..];
    assert_eq!(PcmReader::new(&mut input).err(), Some(PcmReaderError::ChunkCapacityExceeded));

    // no fmt chunk
    let mut body = b"WAVE".to_vec();
    body.extend(chunk(b"data", &[0, 0], false));
    let mut f = b"RIFF".to_vec();
    f.extend_from_slice(&(body.len() as u32).to_le_bytes());
    f.extend(body);
    let mut input = &f[..];
    assert_eq!(PcmReader::new(&mut input).err(), Some(PcmReaderError::UnsupportedAudioFormat));

    // short fmt chunk
    let mut body = b"WAVE".to_vec();
    body.extend(chunk(b"fmt ", &[1, 0, 1, 0], false));
    let mut f = b"RIFF".to_vec();
    f.extend_from_slice(&(body.len() as u32).to_le_bytes());
    f.extend(body);
    let mut input = &f[..];
    assert_eq!(PcmReader::new(&mut input).err(), Some(PcmReaderError::FmtParseError));

    // SSND with a nonzero offset
    let mut aiff = aiff_file(16, None, &[0, 0]);
    let n = aiff.len();
    aiff[n - 10 + 3] = 4;
    let mut input = &aiff[..];
    assert_eq!(PcmReader::new(&mut input).err(), Some(PcmReaderError::UnsupportedAudioFormat));

    // unknown AIFF-C compression type
    let aifc = aiff_file(16, Some(b"ulaw"), &[0, 0]);
    let mut input = &aifc[..];
    assert_eq!(PcmReader::new(&mut input).err(), Some(PcmReaderError::UnsupportedAudioFormat));
}

#[test]
fn reload_replaces_and_clears() {
    let a = wav_file(1, 1, 16, &[1, 0, 2, 0]);
    let b = wav_file(1, 2, 16, &[5, 0, 6, 0, 7, 0, 8, 0, 9, 0, 10, 0]);
    let mut input = &a[..];
    let mut reader = PcmReader::new(&mut input).unwrap();
    let mut input = &b[..];
    reader.reload(&mut input).unwrap();
    assert_eq!(reader.get_pcm_specs().num_channels, 2);
    assert_eq!(reader.get_pcm_specs().num_samples, 3);
    assert_eq!(reader.read_sample(1, 2), Ok(SampleValue::Pcm { value: 10, bit_depth: 16 }));
    let mut bad: &[u8] = b"nothing here";
    assert_eq!(reader.reload(&mut bad), Err(PcmReaderError::UnsupportedAudioFormat));
    assert_eq!(reader.get_pcm_specs().num_samples, 0);
}
