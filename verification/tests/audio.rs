use p25_httpd::audio::{
    clear_frames, stream_type, to_le_bytes, wav_file, wav_header_8k_16bit_mono, AudioChunk,
};
use p25_httpd::lsm::ring::i16_from_le;
use p25_httpd::voice::ImbeRecord;

#[test]
fn header_of_a_stream() {
    let h = wav_header_8k_16bit_mono();
    assert_eq!(&h[0..4], b"RIFF");
    assert_eq!(h[4..8], 0xFFFF_FFFFu32.to_le_bytes());
    assert_eq!(&h[8..16], b"WAVEfmt ");
    assert_eq!(h[16..20], 16u32.to_le_bytes());
    assert_eq!(h[20..22], 1u16.to_le_bytes());
    assert_eq!(h[22..24], 1u16.to_le_bytes());
    assert_eq!(h[24..28], 8000u32.to_le_bytes());
    assert_eq!(h[28..32], 16000u32.to_le_bytes());
    assert_eq!(h[32..34], 2u16.to_le_bytes());
    assert_eq!(h[34..36], 16u16.to_le_bytes());
    assert_eq!(&h[36..40], b"data");
    assert_eq!(h[40..44], 0xFFFF_FFFFu32.to_le_bytes());
}

#[test]
fn samples_survive_the_bytes() {
    let pcm = [0i16, 1, -1, 255, 256, -256, i16::MAX, i16::MIN];
    let bytes = to_le_bytes(&pcm);
    for (i, s) in pcm.iter().enumerate() {
        assert_eq!(bytes[2 * i..2 * i + 2], s.to_le_bytes());
        assert_eq!(i16_from_le(bytes[2 * i], bytes[2 * i + 1]), *s);
    }
}

#[test]
fn file_names_its_sizes() {
    let file = wav_file(&[1, -2, 3]);
    assert_eq!(file.len(), 50);
    assert_eq!(file[4..8], 42u32.to_le_bytes());
    assert_eq!(file[40..44], 6u32.to_le_bytes());
    assert_eq!(&file[44..], &[1, 0, 0xFE, 0xFF, 3, 0]);
    assert_eq!(&file[8..40], &wav_header_8k_16bit_mono()[8..40]);
}

#[test]
fn encrypted_frames_are_left_out() {
    let record = |talkgroup, encrypted, fill| ImbeRecord { talkgroup, encrypted, bits: [fill; 18] };
    let ring = vec![record(1, false, 1), record(1, true, 2), record(2, false, 3)];
    let frames = clear_frames(&ring);
    assert_eq!(frames.len(), 2);
    assert_eq!(frames[0].bits, [1; 18]);
    assert_eq!(frames[1].bits, [3; 18]);
}

#[test]
fn streams_have_a_type() {
    assert_eq!(stream_type(true), "audio/wav");
    assert_eq!(stream_type(false), "audio/L16;rate=8000;channels=1");
    let chunk = AudioChunk { pcm: [0; 160], seq: 1, talkgroup: 300 };
    assert_eq!(to_le_bytes(&chunk.pcm).len(), 320);
}
