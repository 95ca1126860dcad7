use pacmog::imaadpcm::{
    decode_sample, parse_block_header, parse_data_word, BlockHeader, ImaAdpcmError, ImaAdpcmPlayer,
};
use pacmog::{AudioFormat, PcmReaderError};

const SINEWAVE: [f32; 10] = [
    0f32,
    0.05130394f32,
    0.10243774f32,
    0.15323183f32,
    0.20351772f32,
    0.2531287f32,
    0.3019002f32,
    0.34967047f32,
    0.39628112f32,
    0.44157755f32,
];

const STEP_SIZE_TABLE: [i32; 89] = [
    7, 8, 9, 10, 11, 12, 13, 14, 16, 17, 19, 21, 23, 25, 28, 31, 34, 37, 41, 45, 50, 55, 60, 66,
    73, 80, 88, 97, 107, 118, 130, 143, 157, 173, 190, 209, 230, 253, 279, 307, 337, 371, 408, 449,
    494, 544, 598, 658, 724, 796, 876, 963, 1060, 1166, 1282, 1411, 1552, 1707, 1878, 2066, 2272,
    2499, 2749, 3024, 3327, 3660, 4026, 4428, 4871, 5358, 5894, 6484, 7132, 7845, 8630, 9493,
    10442, 11487, 12635, 13899, 15289, 16818, 18500, 20350, 22385, 24623, 27086, 29794, 32767,
];
const INDEX_TABLE: [i32; 16] = [-1, -1, -1, -1, 2, 4, 6, 8, -1, -1, -1, -1, 2, 4, 6, 8];

fn tone(i: usize) -> i16 {
    let x = 0.891250938 * (2.0 * std::f64::consts::PI * 440.0 * i as f64 / 48000.0).sin();
    (x * 32767.0).round() as i16
}

/// Reference decoding step, used by the encoder to track the decoder.
fn step(code: u8, pred: i32, index: i32) -> (i32, i32) {
    let s = STEP_SIZE_TABLE[index as usize];
    let mut diff = s >> 3;
    if code & 4 != 0 {
        diff += s;
    }
    if code & 2 != 0 {
        diff += s >> 1;
    }
    if code & 1 != 0 {
        diff += s >> 2;
    }
    if code & 8 != 0 {
        diff = -diff;
    }
    ((pred + diff).clamp(-32768, 32767), (index + INDEX_TABLE[code as usize]).clamp(0, 88))
}

/// The code whose decoding lands closest to `target`.
fn best_code(target: i32, pred: i32, index: i32) -> u8 {
    (0u8..16).min_by_key(|&c| (step(c, pred, index).0 - target).abs()).unwrap()
}

/// An IMA-ADPCM WAV of the tone with `blocks` blocks of 2041 samples per channel.
fn adpcm_wav(channels: u16, blocks: usize) -> Vec<u8> {
    let block_align: u16 = 1024 * channels;
    let spb: u16 = 2041;
    let mut data = Vec::new();
    let mut pred = vec![0i32; channels as usize];
    let mut index = vec![50i32; channels as usize];
    let mut n = 0usize;
    for _ in 0..blocks {
        let start = data.len();
        for ch in 0..channels as usize {
            pred[ch] = tone(n) as i32;
            data.extend_from_slice(&(pred[ch] as i16).to_le_bytes());
            data.push(index[ch] as u8);
            data.push(0);
        }
        n += 1;
        let mut codes: Vec<Vec<u8>> = vec![Vec::new(); channels as usize];
        for _ in 1..spb {
            for ch in 0..channels as usize {
                let c = best_code(tone(n) as i32, pred[ch], index[ch]);
                let (p, i) = step(c, pred[ch], index[ch]);
                pred[ch] = p;
                index[ch] = i;
                codes[ch].push(c);
            }
            n += 1;
        }
        for w in 0..(spb as usize - 1) / 8 {
            for ch in 0..channels as usize {
                for b in 0..4 {
                    let lo = codes[ch][w * 8 + 2 * b];
                    let hi = codes[ch][w * 8 + 2 * b + 1];
                    data.push(lo | (hi << 4));
                }
            }
        }
        assert_eq!(data.len() - start, block_align as usize);
    }
    let mut fmt = Vec::new();
    fmt.extend_from_slice(&0x11u16.to_le_bytes());
    fmt.extend_from_slice(&channels.to_le_bytes());
    fmt.extend_from_slice(&48000u32.to_le_bytes());
    fmt.extend_from_slice(&24000u32.to_le_bytes());
    fmt.extend_from_slice(&block_align.to_le_bytes());
    fmt.extend_from_slice(&4u16.to_le_bytes());
    fmt.extend_from_slice(&2u16.to_le_bytes());
    fmt.extend_from_slice(&spb.to_le_bytes());
    let mut body = b"WAVE".to_vec();
    for (tag, payload) in [(&b"fmt "[..], &fmt[..]), (&b"fact"[..], &[0u8, 0, 0, 0][..]), (&b"data"[..], &data[..])] {
        body.extend_from_slice(tag);
        body.extend_from_slice(&(payload.len() as u32).to_le_bytes());
        body.extend_from_slice(payload);
    }
    let mut f = b"RIFF".to_vec();
    f.extend_from_slice(&(body.len() as u32).to_le_bytes());
    f.extend(body);
    f
}

fn approx(a: f32, b: f32, eps: f32) -> bool {
    (a - b).abs() <= eps
}

#[test]
fn ima_adpcm_decode() {
    let (sample, step_size_table_index) = decode_sample(3, -30976, 24);
    assert_eq!(sample, -30913);
    assert_eq!(step_size_table_index, 23);
}

#[test]
fn ima_adpcm_decode_extremes() {
    // a large step saturates instead of wrapping
    assert_eq!(decode_sample(7, 30000, 88), (32767, 88));
    assert_eq!(decode_sample(15, -30000, 88), (-32768, 88));
    assert_eq!(decode_sample(0, 0, 0), (0, 0));
    assert_eq!(decode_sample(8, 0, 0), (0, 0));
}

#[test]
fn ima_adpcm_4bit() {
    let data = adpcm_wav(1, 118);
    let mut input = &data[..];
    let mut player = ImaAdpcmPlayer::new(&mut input).unwrap();
    let spec = player.reader.get_pcm_specs();
    assert_eq!(spec.num_samples, 240838);
    assert_eq!(spec.sample_rate, 48000);
    assert_eq!(spec.num_channels, 1);
    assert_eq!(spec.audio_format, AudioFormat::ImaAdpcmLe);
    assert_eq!(spec.bit_depth, 4);

    let mut buffer: [i16; 2] = [0i16, 0i16];
    let buf = buffer.as_mut_slice();

    for i in 0..10 {
        player.get_next_frame(buf).unwrap();
        let s = buf[0] as f32 / i16::MAX as f32;
        assert!(approx(s, SINEWAVE[i as usize], 0.3f32));
    }
}

#[test]
fn ima_adpcm_4bit_play_to_end() {
    let data = adpcm_wav(1, 118);
    let mut input = &data[..];
    let mut player = ImaAdpcmPlayer::new(&mut input).unwrap();
    let spec = player.reader.get_pcm_specs();
    assert_eq!(spec.num_samples, 240838);
    assert_eq!(spec.sample_rate, 48000);
    assert_eq!(spec.num_channels, 1);
    assert_eq!(spec.audio_format, AudioFormat::ImaAdpcmLe);
    assert_eq!(spec.bit_depth, 4);

    let mut buffer: [i16; 2] = [0i16, 0i16];
    let buf = buffer.as_mut_slice();

    for _ in 0..spec.num_samples {
        player.get_next_frame(buf).unwrap();
    }

    let e = player.get_next_frame(buf);
    assert!(e.is_err());
}

#[test]
fn ima_adpcm_4bit_2ch() {
    let data = adpcm_wav(2, 118);
    let mut input = &data[..];
    let mut player = ImaAdpcmPlayer::new(&mut input).unwrap();
    let spec = player.reader.get_pcm_specs();
    assert_eq!(spec.num_samples, 240838);
    assert_eq!(spec.sample_rate, 48000);
    assert_eq!(spec.num_channels, 2);
    assert_eq!(spec.audio_format, AudioFormat::ImaAdpcmLe);
    assert_eq!(spec.bit_depth, 4);

    let mut buffer: [i16; 2] = [0i16, 0i16];
    let buf = buffer.as_mut_slice();

    for i in 0..10 {
        player.get_next_frame(buf).unwrap();
        let l = buf[0] as f32 / i16::MAX as f32;
        let r = buf[1] as f32 / i16::MAX as f32;
        assert!(approx(l, SINEWAVE[i as usize], 0.3f32));
        assert!(approx(r, SINEWAVE[i as usize], 0.3f32));
    }
}

#[test]
fn ima_adpcm_4bit_2ch_play_to_end() {
    let data = adpcm_wav(2, 118);
    let mut input = &data[..];
    let mut player = ImaAdpcmPlayer::new(&mut input).unwrap();
    let spec = player.reader.get_pcm_specs();
    assert_eq!(spec.num_samples, 240838);
    assert_eq!(spec.sample_rate, 48000);
    assert_eq!(spec.num_channels, 2);
    assert_eq!(spec.audio_format, AudioFormat::ImaAdpcmLe);
    assert_eq!(spec.bit_depth, 4);

    let mut buffer: [i16; 2] = [0i16, 0i16];
    let buf = buffer.as_mut_slice();

    for _ in 0..spec.num_samples {
        player.get_next_frame(buf).unwrap();
    }

    let e = player.get_next_frame(buf);
    assert!(e.is_err());
}

/// The decoder follows the encoder exactly, nibble order included.
#[test]
fn ima_adpcm_matches_reference_decoding() {
    for channels in [1u16, 2] {
        let data = adpcm_wav(channels, 3);
        let mut input = &data[..];
        let mut player = ImaAdpcmPlayer::new(&mut input).unwrap();
        let nch = channels as usize;
        let fmt_len = 20;
        let data_start = 12 + 8 + fmt_len + 8 + 4 + 8;
        let body = &data[data_start..];
        let ba = 1024 * nch;
        let mut buf = [0i16; 2];
        for b in 0..3 {
            let blk = &body[b * ba..(b + 1) * ba];
            let mut pred: Vec<i32> = (0..nch).map(|c| i16::from_le_bytes([blk[4 * c], blk[4 * c + 1]]) as i32).collect();
            let mut index: Vec<i32> = (0..nch).map(|c| blk[4 * c + 2] as i32).collect();
            player.get_next_frame(&mut buf).unwrap();
            for c in 0..nch {
                assert_eq!(buf[c] as i32, pred[c]);
            }
            for j in 0..2040 {
                player.get_next_frame(&mut buf).unwrap();
                for c in 0..nch {
                    let byte = blk[4 * nch + 4 * ((j / 8) * nch + c) + (j % 8) / 2];
                    let code = if j % 2 == 0 { byte & 15 } else { byte >> 4 };
                    let (p, i) = step(code, pred[c], index[c]);
                    pred[c] = p;
                    index[c] = i;
                    assert_eq!(buf[c] as i32, p);
                }
            }
        }
        assert_eq!(player.get_next_frame(&mut buf), Err(ImaAdpcmError::FinishPlaying));
    }
}

#[test]
fn rewind_replays_the_same_frames() {
    let data = adpcm_wav(2, 2);
    let mut input = &data[..];
    let mut player = ImaAdpcmPlayer::new(&mut input).unwrap();
    let mut first = Vec::new();
    let mut buf = [0i16; 2];
    while player.get_next_frame(&mut buf).is_ok() {
        first.push(buf);
    }
    assert_eq!(first.len(), 2 * 2041);
    player.rewind();
    let mut again = Vec::new();
    while player.get_next_frame(&mut buf).is_ok() {
        again.push(buf);
    }
    assert_eq!(first, again);

    let mut input = &data[..];
    let mut fresh = ImaAdpcmPlayer::new(&mut input).unwrap();
    let mut other = Vec::new();
    while fresh.get_next_frame(&mut buf).is_ok() {
        other.push(buf);
    }
    assert_eq!(first, other);

    // rewinding in the middle of a block
    player.rewind();
    for _ in 0..13 {
        player.get_next_frame(&mut buf).unwrap();
    }
    player.rewind();
    player.get_next_frame(&mut buf).unwrap();
    assert_eq!(buf, first[0]);
}

#[test]
fn ima_adpcm_errors() {
    let data = adpcm_wav(2, 1);
    let mut input = &data[..];
    let mut player = ImaAdpcmPlayer::new(&mut input).unwrap();
    let mut one = [0i16; 1];
    assert_eq!(player.get_next_frame(&mut one), Err(ImaAdpcmError::InsufficientOutputBufferChannels));

    // a step-table index past 88 in a block header
    let mut bad = adpcm_wav(1, 1);
    let n = bad.len();
    bad[n - 1024 + 2] = 89;
    let mut input = &bad[..];
    let mut player = ImaAdpcmPlayer::new(&mut input).unwrap();
    let mut buf = [0i16; 2];
    assert_eq!(player.get_next_frame(&mut buf), Err(ImaAdpcmError::ReadError));

    // a linear PCM file is not for this player
    let mut body = b"WAVE".to_vec();
    body.extend_from_slice(b"fmt ");
    body.extend_from_slice(&16u32.to_le_bytes());
    body.extend_from_slice(&[1, 0, 1, 0, 0x80, 0xbb, 0, 0, 0, 0x77, 1, 0, 2, 0, 16, 0]);
    body.extend_from_slice(b"data");
    body.extend_from_slice(&2u32.to_le_bytes());
    body.extend_from_slice(&[0, 0]);
    let mut f = b"RIFF".to_vec();
    f.extend_from_slice(&(body.len() as u32).to_le_bytes());
    f.extend(body);
    let mut input = &f[..];
    assert_eq!(ImaAdpcmPlayer::new(&mut input).err(), Some(PcmReaderError::UnsupportedAudioFormat));
}

#[test]
fn block_header_and_data_word() {
    assert_eq!(
        parse_block_header(&[0x00, 0x87, 24, 0, 0xff, 0x7f, 0xfe, 0], 0),
        BlockHeader { i_samp_0: -30976, b_step_table_index: 24 }
    );
    assert_eq!(
        parse_block_header(&[0x00, 0x87, 24, 0, 0xff, 0x7f, 0xfe, 0], 1),
        BlockHeader { i_samp_0: 32767, b_step_table_index: -2 }
    );
    assert_eq!(parse_data_word(&[0xaa, 0x12, 0x34, 0x56, 0x78], 1), [1, 2, 3, 4, 5, 6, 7, 8]);
}

#[test]
fn samples_per_block_mismatch_is_refused() {
    let mut data = adpcm_wav(1, 1);
    // samplesPerBlock sits at byte 18 of the fmt payload, which starts at 20
    assert_eq!(u16::from_le_bytes([data[38], data[39]]), 2041);
    data[38] = 0xf8;
    let mut input = &data[..];
    assert_eq!(pacmog::PcmReader::new(&mut input).err(), Some(PcmReaderError::FmtParseError));
    let mut input = &data[..];
    assert_eq!(ImaAdpcmPlayer::new(&mut input).err(), Some(PcmReaderError::FmtParseError));
}
