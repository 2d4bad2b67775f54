use pocket3d::handles::SoundHandle;
use pocket3d::sound::{NullAudio, SoundBank};
use pocket3d::wav::{parse_wav, WavData, WavError};

fn synth_wav(sample_rate: u32, channels: u16, bits: u16, pcm: &[u8]) -> Vec<u8> {
    let byte_rate = sample_rate * channels as u32 * (bits as u32 / 8);
    let block_align = channels * (bits / 8);
    let mut out = Vec::new();
    out.extend_from_slice(b"RIFF");
    let riff_size = 4 + (8 + 16) + (8 + pcm.len() as u32);
    out.extend_from_slice(&riff_size.to_le_bytes());
    out.extend_from_slice(b"WAVE");
    out.extend_from_slice(b"fmt ");
    out.extend_from_slice(&16u32.to_le_bytes());
    out.extend_from_slice(&1u16.to_le_bytes());
    out.extend_from_slice(&channels.to_le_bytes());
    out.extend_from_slice(&sample_rate.to_le_bytes());
    out.extend_from_slice(&byte_rate.to_le_bytes());
    out.extend_from_slice(&block_align.to_le_bytes());
    out.extend_from_slice(&bits.to_le_bytes());
    out.extend_from_slice(b"data");
    out.extend_from_slice(&(pcm.len() as u32).to_le_bytes());
    out.extend_from_slice(pcm);
    out
}

#[test]
fn sound_bank_hands_out_stable_handles() {
    let mut bank = SoundBank::new();
    let a = bank.register("gunshot");
    let b = bank.register("bot_death");
    let c = bank.register("gunshot");

    assert_eq!(a, SoundHandle(0));
    assert_eq!(b, SoundHandle(1));
    assert_eq!(a, c);
    assert_eq!(bank.len(), 2);

    assert_eq!(bank.handle_of("gunshot"), Some(a));
    assert_eq!(bank.handle_of("bot_death"), Some(b));
    assert_eq!(bank.handle_of("missing"), None);
    assert_eq!(bank.name_of(a), Some("gunshot"));

    assert!(bank.pcm(a).is_none());
}

#[test]
fn parses_a_synthesized_wav() {
    let pcm = [0x01, 0x00, 0xFF, 0x7F, 0x00, 0x80, 0x34, 0x12];
    let bytes = synth_wav(44_100, 1, 16, &pcm);

    let wav = parse_wav(&bytes).expect("synthesized WAV must parse");
    assert_eq!(wav.audio_format, 1);
    assert_eq!(wav.channels, 1);
    assert_eq!(wav.sample_rate, 44_100);
    assert_eq!(wav.bits_per_sample, 16);
    assert_eq!(wav.pcm, pcm);
}

#[test]
fn parse_rejects_bad_magic_without_panicking() {
    assert!(matches!(parse_wav(b"nope"), Err(WavError::TooShort(4))));
    let mut bytes = vec![0u8; 12];
    bytes[0..4].copy_from_slice(b"XXXX");
    assert!(matches!(parse_wav(&bytes), Err(WavError::BadRiffMagic)));
}

#[test]
fn wav_error_variants() {
    let mut bytes = synth_wav(8000, 1, 8, &[1, 2, 3]);
    bytes[8] = b'X';
    assert_eq!(parse_wav(&bytes), Err(WavError::BadWaveMagic));

    // Header only: no chunks at all.
    let only_header = synth_wav(8000, 1, 8, &[])[..12].to_vec();
    assert_eq!(parse_wav(&only_header), Err(WavError::MissingFmtChunk));

    // fmt chunk but no data chunk.
    let no_data = synth_wav(8000, 1, 8, &[])[..36].to_vec();
    assert_eq!(parse_wav(&no_data), Err(WavError::MissingDataChunk));

    // A chunk whose declared size runs past the end.
    let mut truncated = synth_wav(8000, 1, 8, &[1, 2]);
    let n = truncated.len();
    truncated.truncate(n - 1);
    assert_eq!(parse_wav(&truncated), Err(WavError::TruncatedChunk));

    // A fmt chunk smaller than 16 bytes.
    let mut small = b"RIFF\0\0\0\0WAVEfmt ".to_vec();
    small.extend_from_slice(&4u32.to_le_bytes());
    small.extend_from_slice(&[0, 0, 0, 0]);
    assert_eq!(parse_wav(&small), Err(WavError::FmtChunkTooSmall(4)));
}

#[test]
fn wav_odd_chunks_are_padded_and_unknown_chunks_skipped() {
    let mut bytes = b"RIFF\0\0\0\0WAVE".to_vec();
    bytes.extend_from_slice(b"LIST");
    bytes.extend_from_slice(&3u32.to_le_bytes());
    bytes.extend_from_slice(&[7, 7, 7, 0]); // odd body plus pad byte
    let rest = synth_wav(22_050, 2, 16, &[0xAA, 0xBB, 0xCC, 0xDD]);
    bytes.extend_from_slice(&rest[12..]);
    let wav = parse_wav(&bytes).unwrap();
    assert_eq!(wav.sample_rate, 22_050);
    assert_eq!(wav.channels, 2);
    assert_eq!(wav.pcm, vec![0xAA, 0xBB, 0xCC, 0xDD]);
}

#[test]
fn insert_wav_attaches_pcm_to_the_stable_handle() {
    let mut bank = SoundBank::new();
    let step = bank.register("footstep");
    let wav = WavData {
        audio_format: 1,
        channels: 2,
        sample_rate: 22_050,
        bits_per_sample: 16,
        pcm: vec![0xAA, 0xBB, 0xCC, 0xDD],
    };
    let h = bank.insert_wav("footstep", wav);
    assert_eq!(h, step);
    assert_eq!(bank.pcm(h), Some(&[0xAA, 0xBB, 0xCC, 0xDD][..]));
    assert_eq!(bank.wav(h).unwrap().sample_rate, 22_050);
    let fresh = bank.insert_wav("shell", WavData {
        audio_format: 1,
        channels: 1,
        sample_rate: 8000,
        bits_per_sample: 8,
        pcm: vec![1],
    });
    assert_eq!(fresh, SoundHandle(1));
    assert_eq!(bank.len(), 2);
    assert!(!bank.is_empty());
    assert_eq!(bank.name_of(SoundHandle(5)), None);
    assert!(bank.wav(SoundHandle(5)).is_none());
}

#[test]
fn null_audio_constructs() {
    let _a = NullAudio::new();
}

#[test]
fn wav_error_messages_carry_their_sizes() {
    assert_eq!(WavError::TooShort(5).message(), "WAV data too short (5 bytes; need at least 12)");
    assert_eq!(
        WavError::FmtChunkTooSmall(14).message(),
        "'fmt ' chunk too small (14 bytes; need at least 16)"
    );
    assert_eq!(WavError::TooShort(0).message(), "WAV data too short (0 bytes; need at least 12)");
    assert_eq!(WavError::MissingDataChunk.message(), "missing 'data' chunk");
    assert_eq!(WavError::BadRiffMagic.message(), "missing 'RIFF' magic");
}
