use std::io::Cursor;
use waved::{decode, wav_header, DecodeError, State, WavHeader};

fn int_wav(channels: u16, bits: u16, sample_rate: u32, samples: &[i32]) -> Vec<u8> {
    let spec = hound::WavSpec { channels, sample_rate, bits_per_sample: bits, sample_format: hound::SampleFormat::Int };
    let mut bytes = Vec::new();
    let mut writer = hound::WavWriter::new(Cursor::new(&mut bytes), spec).unwrap();
    for &s in samples {
        writer.write_sample(s).unwrap();
    }
    writer.finalize().unwrap();
    bytes
}

fn float_wav(samples: &[f32]) -> Vec<u8> {
    let spec = hound::WavSpec { channels: 1, sample_rate: 8000, bits_per_sample: 32, sample_format: hound::SampleFormat::Float };
    let mut bytes = Vec::new();
    let mut writer = hound::WavWriter::new(Cursor::new(&mut bytes), spec).unwrap();
    for &s in samples {
        writer.write_sample(s).unwrap();
    }
    writer.finalize().unwrap();
    bytes
}

#[test]
fn two_channels_are_grouped() {
    let interleaved: Vec<i32> = vec![0, 100, 1, 101, 2, 102, 3, 103, 4, 104];
    let audio = decode(&int_wav(2, 16, 44100, &interleaved)).unwrap();
    assert_eq!(audio.header, WavHeader { channels: 2, sample_rate: 44100, bits_per_sample: 16, is_float: false });
    assert_eq!(audio.samples.len(), 10);
    let (left, right) = audio.samples.split_at(5);
    assert_eq!(left, &[0, 1, 2, 3, 4]);
    assert_eq!(right, &[100, 101, 102, 103, 104]);
    let evens: Vec<i32> = interleaved.iter().step_by(2).cloned().collect();
    assert_eq!(left, evens.as_slice());
}

#[test]
fn header_is_read() {
    let h = wav_header(&int_wav(3, 24, 48000, &[1, 2, 3])).unwrap();
    assert_eq!(h, WavHeader { channels: 3, sample_rate: 48000, bits_per_sample: 24, is_float: false });
}

#[test]
fn garbage_is_rejected() {
    assert!(decode(b"not a wave file at all").is_err());
    assert!(wav_header(&[]).is_err());
}

#[test]
fn float_samples_are_not_decoded_as_integers() {
    let bytes = float_wav(&[0.5, -0.5]);
    assert!(wav_header(&bytes).unwrap().is_float);
    assert_eq!(decode(&bytes).unwrap_err(), DecodeError::UnsupportedFormat { bits_per_sample: 32, is_float: true });
}

#[test]
fn truncated_data_is_an_error() {
    let mut bytes = int_wav(1, 16, 8000, &[1, 2, 3, 4]);
    bytes.truncate(bytes.len() - 3);
    assert!(decode(&bytes).is_err());
}

#[test]
fn load_replaces_current_file_only_on_success() {
    let mut state = State::new();
    assert!(state.load_file("a.wav".to_string(), &int_wav(1, 8, 8000, &[-128, 127])).is_ok());
    let file = state.current_file.as_ref().unwrap();
    assert_eq!(file.filename, "a.wav");
    assert_eq!(file.samples, vec![-128, 127]);
    assert_eq!((file.channels, file.sample_rate, file.bits_per_sample), (1, 8000, 8));
    assert!(state.load_file("b.wav".to_string(), b"junk").is_err());
    assert_eq!(state.current_file.as_ref().unwrap().filename, "a.wav");
}

#[test]
fn unsupported_depth_is_named() {
    let mut bytes = int_wav(1, 24, 8000, &[1, -1]);
    assert_eq!(u16::from_le_bytes([bytes[20], bytes[21]]), 0xfffe);
    bytes[38] = 20;
    bytes[39] = 0;
    assert_eq!(wav_header(&bytes).unwrap().bits_per_sample, 20);
    assert_eq!(decode(&bytes).unwrap_err(), DecodeError::UnsupportedFormat { bits_per_sample: 20, is_float: false });
}

#[test]
fn decoded_samples_stay_in_range() {
    let raw = vec![-8_388_608, 8_388_607, 0, -1];
    let audio = decode(&int_wav(2, 24, 8000, &raw)).unwrap();
    assert_eq!(audio.samples, vec![-8_388_608, 0, 8_388_607, -1]);
    for &s in &audio.samples {
        let f = waved::normalize(s, audio.header.bits_per_sample);
        assert!((f.numerator as i64).abs() <= f.denominator as i64);
    }
}
