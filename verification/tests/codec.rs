use std::collections::VecDeque;

use tiny_audio_codec::decoder::{readable_input, TinyDecoder};
use tiny_audio_codec::encoder::{try_pop_frame, TinyEncoder};
use tiny_audio_codec::error::CodecError;
use tiny_audio_codec::format::{band_range, band_table, BAND_COUNT, FRAME_LEN};
use tiny_audio_codec::header::{CodecHeaderManager, FileHeader};
use tiny_audio_codec::rice::{pow2_u32, remainder_len, unzigzag, zigzag};

fn sample_frame(seed: i32) -> Vec<i32> {
    (0..FRAME_LEN as i32)
        .map(|i| {
            let v = (i * 37 + seed * 11) % 61 - 30;
            if i % 5 == 0 { v * 1000 } else { v }
        })
        .collect()
}

fn encode_frames(frames: &[Vec<i32>], rows: &[Vec<usize>]) -> Vec<u8> {
    let mut enc = TinyEncoder::new(44100, 2);
    enc.reset_encoder();
    for (f, r) in frames.iter().zip(rows.iter()) {
        enc.encode_frame(f.clone(), r.clone()).unwrap();
    }
    enc.save_file().unwrap()
}

#[test]
fn zigzag_maps_small_values_in_order() {
    assert_eq!(zigzag(0), 0);
    assert_eq!(zigzag(-1), 1);
    assert_eq!(zigzag(1), 2);
    assert_eq!(zigzag(-2), 3);
    assert_eq!(zigzag(2), 4);
    assert_eq!(zigzag(i32::MAX), u32::MAX - 1);
    assert_eq!(zigzag(i32::MIN), u32::MAX);
}

#[test]
fn unzigzag_undoes_zigzag_in_range() {
    for q in [-0x4000_0000, -12345, -1, 0, 1, 7, 0x3FFF_FFFF] {
        assert_eq!(unzigzag(zigzag(q)), q);
    }
}

#[test]
fn unzigzag_of_large_codes_wraps() {
    // Codes from 2^31 on are read as two's complement.
    assert_eq!(unzigzag(u32::MAX), 0);
    assert_eq!(unzigzag(0x8000_0000), -0x4000_0000);
}

#[test]
fn remainder_len_follows_mean_code() {
    assert_eq!(remainder_len(0, 2), 0);
    assert_eq!(remainder_len(2, 2), 0);
    assert_eq!(remainder_len(3, 2), 0);
    assert_eq!(remainder_len(4, 2), 1);
    assert_eq!(remainder_len(7, 2), 1);
    assert_eq!(remainder_len(8, 2), 2);
    assert_eq!(remainder_len(256 * 10, 10), 8);
    assert_eq!(remainder_len(u64::MAX, 256), 8);
    assert_eq!(remainder_len(255 * 4, 4), 7);
}

#[test]
fn pow2_small() {
    assert_eq!(pow2_u32(0), 1);
    assert_eq!(pow2_u32(8), 256);
    assert_eq!(pow2_u32(31), 0x8000_0000);
}

#[test]
fn bands_cover_the_frame() {
    let bands = band_table();
    assert_eq!(bands.len(), BAND_COUNT);
    assert_eq!(bands[0], 0..2);
    assert_eq!(bands[8], 256..512);
    for b in 0..BAND_COUNT - 1 {
        assert_eq!(bands[b].end, bands[b + 1].start);
    }
    assert_eq!(band_range(3), 8..16);
}

#[test]
fn find_band_idx_matches_bands() {
    let enc = TinyEncoder::new(48000, 1);
    assert_eq!(enc._find_band_idx(0), 0);
    assert_eq!(enc._find_band_idx(1), 0);
    assert_eq!(enc._find_band_idx(2), 1);
    assert_eq!(enc._find_band_idx(255), 7);
    assert_eq!(enc._find_band_idx(256), 8);
    assert_eq!(enc._find_band_idx(511), 8);
    assert_eq!(enc._find_band_idx(512), 0);
    assert_eq!(enc._find_band_idx(512 + 20), 4);
}

#[test]
fn try_pop_frame_takes_512_from_the_front() {
    let mut cache: VecDeque<u32> = (0..1000).collect();
    let frame = try_pop_frame(&mut cache).unwrap();
    assert_eq!(frame.len(), 512);
    assert_eq!(frame[0], 0);
    assert_eq!(frame[511], 511);
    assert_eq!(cache.len(), 488);
    assert_eq!(cache[0], 512);
    assert_eq!(try_pop_frame(&mut cache), Err(CodecError::NotEnoughSamples));
    assert_eq!(cache.len(), 488);
}

#[test]
fn encode_without_reset_has_no_writer() {
    let mut enc = TinyEncoder::new(44100, 2);
    assert_eq!(enc.encode_frame(vec![0; 512], vec![0; 9]), Err(CodecError::NoWriter));
    assert_eq!(enc.frames(), 0);
    assert_eq!(enc.save_file(), Err(CodecError::NoWriter));
}

#[test]
fn save_twice_fails_the_second_time() {
    let mut enc = TinyEncoder::new(44100, 2);
    enc.reset_encoder();
    assert!(enc.save_file().is_ok());
    assert_eq!(enc.save_file(), Err(CodecError::NoWriter));
}

#[test]
fn empty_file_bytes() {
    let bytes = encode_frames(&[], &[]);
    // 32 + 32 + 8 header bits, no frames: nine bytes.
    assert_eq!(bytes, vec![0, 0, 0, 0, 0x44, 0xAC, 0, 0, 2]);
}

#[test]
fn one_zero_frame_bytes() {
    let bytes = encode_frames(&[vec![0; 512]], &[vec![1, 2, 3, 4, 5, 6, 7, 8, 9]]);
    // Header: 72 bits, then 54 bits of indices; the frame is 9 * 4 bits of
    // remainder lengths (all 0) and 512 one-bit unary zeros.
    let data_bits = 9 * 4 + 512;
    let data_bytes = (data_bits + 7) / 8;
    let header_bits = 72 + 54;
    assert_eq!(bytes.len(), (header_bits + data_bytes * 8 + 7) / 8);
    assert_eq!(&bytes[0..9], &[1, 0, 0, 0, 0x44, 0xAC, 0, 0, 2]);
    // First index (1) in the low six bits of byte 9, second (2) starting at bit 6.
    assert_eq!(bytes[9], 1 | (2 << 6));
}

#[test]
fn round_trip_frames_and_header() {
    let frames: Vec<Vec<i32>> = (0..5).map(sample_frame).collect();
    let rows: Vec<Vec<usize>> = (0..5).map(|f| (0..9).map(|b| (f * 9 + b) % 64).collect()).collect();
    let bytes = encode_frames(&frames, &rows);

    let mut dec = TinyDecoder::new();
    dec.reset_input_file(bytes);
    dec.read_file_header().unwrap();
    let header: &FileHeader = dec.file_header();
    assert_eq!(header.frames_len(), 5);
    assert_eq!(header.sample_rate(), 44100);
    assert_eq!(header.channels(), 2);
    assert_eq!(header.delta_indices(), &rows);
    for f in &frames {
        assert_eq!(&dec.pop_frame().unwrap(), f);
    }
    assert_eq!(dec.decoded_frame_len(), 5);
    assert_eq!(dec.pop_frame(), Err(CodecError::Finished));
}

#[test]
fn remaining_frames_come_back_in_order() {
    let frames: Vec<Vec<i32>> = (0..4).map(sample_frame).collect();
    let rows: Vec<Vec<usize>> = vec![vec![7usize; 9]; 4];
    let bytes = encode_frames(&frames, &rows);
    assert!(readable_input(&bytes));
    let mut dec = TinyDecoder::new();
    dec.reset_input_file(bytes);
    dec.read_file_header().unwrap();
    assert_eq!(dec.pop_frame().unwrap(), frames[0]);
    assert_eq!(dec.pop_remaining_frames().unwrap(), frames[1..].to_vec());
    assert_eq!(dec.decoded_frame_len(), 4);
    assert_eq!(dec.pop_remaining_frames().unwrap(), Vec::<Vec<i32>>::new());
    assert_eq!(dec.pop_frame(), Err(CodecError::Finished));
}

#[test]
fn remaining_frames_errors() {
    let mut dec = TinyDecoder::new();
    assert_eq!(dec.pop_remaining_frames().unwrap(), Vec::<Vec<i32>>::new());
    let frames = vec![sample_frame(2), sample_frame(5)];
    let rows = vec![vec![0usize; 9]; 2];
    let mut bytes = encode_frames(&frames, &rows);
    bytes.truncate(bytes.len() - 20);
    dec.reset_input_file(bytes);
    dec.read_file_header().unwrap();
    assert_eq!(dec.pop_remaining_frames(), Err(CodecError::UnexpectedEnd));
}

#[test]
fn readable_input_refuses_long_zero_runs() {
    assert!(readable_input(&[]));
    assert!(readable_input(&[0, 0, 0, 1, 0]));
    let long = vec![0u8; 0x1FFF_FFFF];
    assert!(!readable_input(&long));
}

#[test]
fn round_trip_extreme_values() {
    let mut frame = vec![0i32; 512];
    frame[0] = 0x3FFF_FFFF;
    frame[1] = -0x4000_0000;
    frame[300] = -1;
    frame[511] = 123_456;
    let rows = vec![vec![63usize; 9]];
    let bytes = encode_frames(&[frame.clone()], &rows);
    let mut dec = TinyDecoder::new();
    dec.reset_input_file(bytes);
    dec.read_file_header().unwrap();
    assert_eq!(dec.pop_frame().unwrap(), frame);
}

#[test]
fn decoder_without_input() {
    let mut dec = TinyDecoder::new();
    assert_eq!(dec.read_file_header(), Err(CodecError::NoReader));
    // The fresh header announces no frames.
    assert_eq!(dec.pop_frame(), Err(CodecError::Finished));
}

#[test]
fn truncated_header_is_unexpected_end() {
    let mut dec = TinyDecoder::new();
    dec.reset_input_file(vec![1, 0, 0, 0, 0x44]);
    assert_eq!(dec.read_file_header(), Err(CodecError::UnexpectedEnd));
    assert_eq!(dec.file_header().frames_len(), 0);
}

#[test]
fn truncated_frame_is_unexpected_end() {
    let frames = vec![sample_frame(3)];
    let rows = vec![vec![0usize; 9]];
    let mut bytes = encode_frames(&frames, &rows);
    bytes.truncate(bytes.len() - 40);
    let mut dec = TinyDecoder::new();
    dec.reset_input_file(bytes);
    dec.read_file_header().unwrap();
    assert_eq!(dec.pop_frame(), Err(CodecError::UnexpectedEnd));
    assert_eq!(dec.decoded_frame_len(), 0);
}

#[test]
fn reset_forgets_coded_frames() {
    let mut enc = TinyEncoder::new(8000, 1);
    enc.reset_encoder();
    enc.encode_frame(sample_frame(1), vec![5; 9]).unwrap();
    assert_eq!(enc.frames(), 1);
    enc.reset_encoder();
    assert_eq!(enc.frames(), 0);
    let bytes = enc.save_file().unwrap();
    assert_eq!(bytes, vec![0, 0, 0, 0, 0x40, 0x1F, 0, 0, 1]);
}

#[test]
fn header_manager_and_file_header() {
    let _m = CodecHeaderManager::new();
    let h = FileHeader::new(3, 22050, 1, vec![vec![1; 9]; 3]);
    assert_eq!(h.frames_len(), 3);
    assert_eq!(h.sample_rate(), 22050);
    assert_eq!(h.channels(), 1);
    assert_eq!(h.delta_indices().len(), 3);
}

#[test]
fn encoder_getters() {
    let enc = TinyEncoder::new(96000, 6);
    assert_eq!(enc.sample_rate(), 96000);
    assert_eq!(enc.channels(), 6);
    assert_eq!(enc.frames(), 0);
}
