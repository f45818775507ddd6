use voicechat::capture::decode_pcm;
use voicechat::wav::{wav_bytes, HEADER_LEN};

#[test]
fn wav_layout() {
    let bytes = wav_bytes(&vec![0, 1, -1, i16::MAX, i16::MIN], 16000).unwrap();
    let mut expected: Vec<u8> = Vec::new();
    expected.extend_from_slice(b"RIFF");
    expected.extend_from_slice(&46u32.to_le_bytes());
    expected.extend_from_slice(b"WAVEfmt ");
    expected.extend_from_slice(&16u32.to_le_bytes());
    expected.extend_from_slice(&1u16.to_le_bytes());
    expected.extend_from_slice(&1u16.to_le_bytes());
    expected.extend_from_slice(&16000u32.to_le_bytes());
    expected.extend_from_slice(&32000u32.to_le_bytes());
    expected.extend_from_slice(&2u16.to_le_bytes());
    expected.extend_from_slice(&16u16.to_le_bytes());
    expected.extend_from_slice(b"data");
    expected.extend_from_slice(&10u32.to_le_bytes());
    expected.extend_from_slice(&[0, 0, 1, 0, 0xff, 0xff, 0xff, 0x7f, 0x00, 0x80]);
    assert_eq!(bytes, expected);
}

#[test]
fn empty_wav_is_a_header() {
    assert_eq!(wav_bytes(&vec![], 8000).unwrap().len(), HEADER_LEN);
}

#[test]
fn wav_reads_back() {
    let samples: Vec<i16> = (0..2000).map(|i| (i * 37 - 30000) as i16).collect();
    let bytes = wav_bytes(&samples, 16000).unwrap();
    assert_eq!(decode_pcm(&bytes[HEADER_LEN..]), samples);
    let mut reader = hound::WavReader::new(std::io::Cursor::new(bytes)).unwrap();
    assert_eq!(reader.spec().sample_rate, 16000);
    assert_eq!(reader.spec().channels, 1);
    assert_eq!(reader.spec().bits_per_sample, 16);
    let read: Vec<i16> = reader.samples::<i16>().map(|s| s.unwrap()).collect();
    assert_eq!(read, samples);
}

#[test]
fn wav_at_the_highest_rate() {
    let bytes = wav_bytes(&vec![5], u32::MAX / 2).unwrap();
    assert_eq!(&bytes[24..28], &(u32::MAX / 2).to_le_bytes());
    assert_eq!(&bytes[28..32], &(u32::MAX - 1).to_le_bytes());
    assert_eq!(&bytes[32..34], &2u16.to_le_bytes());
}
