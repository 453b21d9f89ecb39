use master_duel_bgms::wav::{wav_duration, ChunkStep, WavScan, WavSpan};

fn seconds(wav: &[u8]) -> Option<f64> {
    wav_duration(wav).map(|span| f64::from(span.data_bytes) / f64::from(span.byte_rate))
}

fn chunk(tag: &[u8; 4], body: &[u8]) -> Vec<u8> {
    let mut bytes = tag.to_vec();
    bytes.extend_from_slice(&(body.len() as u32).to_le_bytes());
    bytes.extend_from_slice(body);
    if body.len() % 2 == 1 {
        bytes.push(0);
    }
    bytes
}

fn format(byte_rate: u32) -> Vec<u8> {
    let mut body = vec![1, 0, 2, 0, 0x40, 0x1f, 0, 0];
    body.extend_from_slice(&byte_rate.to_le_bytes());
    body.extend_from_slice(&[4, 0, 16, 0]);
    chunk(b"fmt ", &body)
}

fn wave(chunks: &[Vec<u8>]) -> Vec<u8> {
    let mut bytes = b"RIFF\0\0\0\0WAVE".to_vec();
    for chunk in chunks {
        bytes.extend_from_slice(chunk);
    }
    bytes
}

#[test]
fn reads_duration_from_pcm_wav_header() {
    let mut wav = Vec::new();
    wav.extend_from_slice(b"RIFF");
    wav.extend_from_slice(&32_036_u32.to_le_bytes());
    wav.extend_from_slice(b"WAVEfmt ");
    wav.extend_from_slice(&16_u32.to_le_bytes());
    wav.extend_from_slice(&1_u16.to_le_bytes());
    wav.extend_from_slice(&2_u16.to_le_bytes());
    wav.extend_from_slice(&8_000_u32.to_le_bytes());
    wav.extend_from_slice(&32_000_u32.to_le_bytes());
    wav.extend_from_slice(&4_u16.to_le_bytes());
    wav.extend_from_slice(&16_u16.to_le_bytes());
    wav.extend_from_slice(b"data");
    wav.extend_from_slice(&32_000_u32.to_le_bytes());
    wav.resize(32_044, 0);

    assert_eq!(seconds(&wav), Some(1.0));
}

#[test]
fn other_chunks_are_passed_over() {
    let wav = wave(&[
        chunk(b"LIST", b"odd"),
        format(100),
        chunk(b"fact", &[1, 2, 3, 4]),
        chunk(b"data", &[7; 50]),
    ]);
    assert_eq!(wav_duration(&wav), Some(WavSpan { data_bytes: 50, byte_rate: 100 }));
}

#[test]
fn the_sound_itself_is_not_read() {
    let mut wav = wave(&[format(100), chunk(b"data", &[])]);
    let size = wav.len() - 4;
    wav[size..].copy_from_slice(&4_000_000_000_u32.to_le_bytes());
    assert_eq!(wav_duration(&wav), Some(WavSpan { data_bytes: 4_000_000_000, byte_rate: 100 }));
}

#[test]
fn sound_may_come_before_its_format() {
    let wav = wave(&[chunk(b"data", &[7; 5]), format(10)]);
    assert_eq!(wav_duration(&wav), Some(WavSpan { data_bytes: 5, byte_rate: 10 }));
}

#[test]
fn the_last_format_before_the_sound_counts() {
    let wav = wave(&[format(10), format(20), chunk(b"data", &[7; 5]), chunk(b"data", &[7; 9])]);
    assert_eq!(wav_duration(&wav), Some(WavSpan { data_bytes: 5, byte_rate: 20 }));
}

#[test]
fn a_format_that_is_too_short_is_passed_over() {
    let wav = wave(&[chunk(b"fmt ", &[1; 11]), chunk(b"data", &[7; 4])]);
    assert_eq!(wav_duration(&wav), None);
}

#[test]
fn files_without_a_span_have_none() {
    assert_eq!(wav_duration(b""), None);
    assert_eq!(wav_duration(b"RIFF\0\0\0\0WAV"), None);
    assert_eq!(wav_duration(b"RIFF\0\0\0\0AVI "), None);
    assert_eq!(wav_duration(b"RIFX\0\0\0\0WAVE"), None);
    assert_eq!(wav_duration(&wave(&[])), None);
    assert_eq!(wav_duration(&wave(&[format(100)])), None);
    assert_eq!(wav_duration(&wave(&[chunk(b"data", &[7; 4])])), None);
    assert_eq!(wav_duration(&wave(&[format(0), chunk(b"data", &[7; 4])])), None);
    assert_eq!(wav_duration(&wave(&[format(100), chunk(b"data", &[])])), None);
}

#[test]
fn a_file_that_ends_within_a_format_has_no_span() {
    let mut wav = wave(&[chunk(b"data", &[7; 4]), format(100)]);
    wav.truncate(wav.len() - 5);
    assert_eq!(wav_duration(&wav), None);
}

#[test]
fn a_file_can_be_read_header_by_header() {
    assert_eq!(WavScan::begin(b"RIFX\0\0\0\0WAVE"), None);
    let mut scan = WavScan::begin(b"RIFF\0\0\0\0WAVE").unwrap();
    assert_eq!(scan.chunk(b"LIST\x03\0\0\0"), ChunkStep::Skip(4));
    assert_eq!(scan.chunk(b"fmt \x11\0\0\0"), ChunkStep::Format(6));
    scan.format(&[0, 0, 0, 0, 0, 0, 0, 0, 0x2c, 0x01, 0, 0]);
    assert_eq!(scan.span(), None);
    assert_eq!(scan.chunk(b"data\x02\x01\0\0"), ChunkStep::Stop);
    assert_eq!(scan.span(), Some(WavSpan { data_bytes: 258, byte_rate: 300 }));
}
