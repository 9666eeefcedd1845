use para::audio::{detect_format, probe_report, read_probe_report, wav_pcm16_samples, FfprobeFields, WavError};

#[test]
fn detects_wav_magic_bytes() {
    let mut bytes = vec![0u8; 12];
    bytes[0..4].copy_from_slice(b"RIFF");
    bytes[8..12].copy_from_slice(b"WAVE");
    assert_eq!(detect_format(&bytes), Some("wav"));
}

#[test]
fn detects_flac_magic_bytes() {
    let mut bytes = vec![0u8; 12];
    bytes[0..4].copy_from_slice(b"fLaC");
    assert_eq!(detect_format(&bytes), Some("flac"));
}

#[test]
fn detects_ogg_magic_bytes() {
    let mut bytes = vec![0u8; 12];
    bytes[0..4].copy_from_slice(b"OggS");
    assert_eq!(detect_format(&bytes), Some("ogg/opus"));
}

#[test]
fn unknown_bytes_return_none() {
    let bytes = vec![0u8; 12];
    assert_eq!(detect_format(&bytes), None);
}

#[test]
fn short_input_returns_none() {
    assert_eq!(detect_format(&[0u8; 4]), None);
}

#[test]
fn detects_mp3_mp4_and_matroska_headers() {
    let mut id3 = vec![0u8; 12];
    id3[0..3].copy_from_slice(b"ID3");
    assert_eq!(detect_format(&id3), Some("mp3"));
    let mut sync = vec![0u8; 12];
    sync[0] = 0xFF;
    sync[1] = 0xFB;
    assert_eq!(detect_format(&sync), Some("mp3"));
    let mut mp4 = vec![0u8; 12];
    mp4[4..8].copy_from_slice(b"ftyp");
    assert_eq!(detect_format(&mp4), Some("m4a/mp4"));
    let mut mkv = vec![0u8; 12];
    mkv[0..4].copy_from_slice(&[0x1A, 0x45, 0xDF, 0xA3]);
    assert_eq!(detect_format(&mkv), Some("mkv/webm"));
}

fn wav_with_chunks(chunks: &[(&[u8; 4], Vec<u8>)]) -> Vec<u8> {
    let mut out = Vec::new();
    out.extend_from_slice(b"RIFF");
    out.extend_from_slice(&0u32.to_le_bytes());
    out.extend_from_slice(b"WAVE");
    for (id, body) in chunks {
        out.extend_from_slice(*id);
        out.extend_from_slice(&(body.len() as u32).to_le_bytes());
        out.extend_from_slice(body);
        if body.len() % 2 == 1 {
            out.push(0);
        }
    }
    out
}

#[test]
fn wav_samples_are_read_from_the_data_chunk_after_an_odd_sized_chunk() {
    let bytes = wav_with_chunks(&[
        (b"LIST", vec![1, 2, 3]),
        (b"data", vec![0x01, 0x00, 0xFF, 0xFF, 0x00, 0x80]),
    ]);
    assert_eq!(wav_pcm16_samples(&bytes), Ok(vec![1i16, -1, -32768]));
}

#[test]
fn wav_without_header_is_rejected() {
    assert_eq!(wav_pcm16_samples(b"not a wav file at all"), Err(WavError::NotWav));
}

#[test]
fn wav_without_data_chunk_is_rejected() {
    let bytes = wav_with_chunks(&[(b"fmt ", vec![0u8; 16])]);
    assert_eq!(wav_pcm16_samples(&bytes), Err(WavError::NoDataChunk));
}

#[test]
fn wav_data_chunk_past_the_end_is_cut_at_the_end() {
    let mut bytes = wav_with_chunks(&[(b"data", vec![0x02, 0x00, 0x03, 0x00])]);
    bytes[16..20].copy_from_slice(&100u32.to_le_bytes());
    bytes.push(0x07);
    assert_eq!(wav_pcm16_samples(&bytes), Ok(vec![2i16, 3]));
}

#[test]
fn probe_report_finds_an_audio_stream_and_the_duration_text() {
    let json = br#"{"streams":[{"codec_type":"video"},{"codec_type":"audio"}],"format":{"duration":"12.480000"}}"#;
    let r = read_probe_report(json).unwrap();
    assert!(r.has_audio_track);
    assert_eq!(r.duration_text.as_deref(), Some("12.480000"));
}

#[test]
fn probe_report_without_an_audio_stream_has_no_audio_track() {
    let json = br#"{"streams":[{"codec_type":"video"},{"index":1}],"format":{"duration":"3.0"}}"#;
    let r = read_probe_report(json).unwrap();
    assert!(!r.has_audio_track);
    let r = read_probe_report(br#"{"format":{"duration":3.0}}"#).unwrap();
    assert!(!r.has_audio_track);
    assert_eq!(r.duration_text, None);
}

#[test]
fn probe_report_of_output_that_is_not_json_is_none() {
    assert!(read_probe_report(b"not json").is_none());
    assert!(read_probe_report(b"").is_none());
}

#[test]
fn probe_report_reads_the_fields_given() {
    let f = FfprobeFields {
        duration: None,
        codec_types: Some(vec![None, Some("audio".to_string())]),
    };
    let r = probe_report(&f);
    assert!(r.has_audio_track);
    assert_eq!(r.duration_text, None);
    let f = FfprobeFields { duration: Some("1.5".to_string()), codec_types: Some(vec![Some("Audio".to_string())]) };
    let r = probe_report(&f);
    assert!(!r.has_audio_track);
    assert_eq!(r.duration_text.as_deref(), Some("1.5"));
}
