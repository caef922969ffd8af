use transcriber::pipeline::{Pipeline, TranscribeError};
use transcriber::sizefmt::format_bytes;

fn pipeline() -> Pipeline {
    Pipeline::new(
        "/app/build/bin/whisper-cli".to_string(),
        "./models".to_string(),
        "pt".to_string(),
        "ggml-base.bin".to_string(),
    )
}

/// A minimal waveform container with the given profile and two samples.
fn wav_bytes(channels: u16, sample_rate: u32, bits_per_sample: u16) -> Vec<u8> {
    let block_align = channels * (bits_per_sample / 8);
    let byte_rate = sample_rate * block_align as u32;
    let data_len: u32 = 2 * block_align as u32;
    let mut b = Vec::new();
    b.extend_from_slice(b"RIFF");
    b.extend_from_slice(&(36 + data_len).to_le_bytes());
    b.extend_from_slice(b"WAVE");
    b.extend_from_slice(b"fmt ");
    b.extend_from_slice(&16u32.to_le_bytes());
    b.extend_from_slice(&1u16.to_le_bytes());
    b.extend_from_slice(&channels.to_le_bytes());
    b.extend_from_slice(&sample_rate.to_le_bytes());
    b.extend_from_slice(&byte_rate.to_le_bytes());
    b.extend_from_slice(&block_align.to_le_bytes());
    b.extend_from_slice(&bits_per_sample.to_le_bytes());
    b.extend_from_slice(b"data");
    b.extend_from_slice(&data_len.to_le_bytes());
    for _ in 0..data_len {
        b.push(0);
    }
    b
}

#[test]
fn empty_audio_is_rejected_first() {
    let r = pipeline().transcribe_plan(&Vec::new(), None);
    assert!(matches!(r, Err(TranscribeError::NoAudioProvided)));
    let e = r.unwrap_err();
    assert_eq!(e.message(), "No WAV file provided");
    assert_eq!(e.http_status(), 400);
    assert!(e.is_caller_fault());
}

#[test]
fn malformed_container_is_rejected() {
    let garbage = vec![1u8, 2, 3, 4, 5, 6, 7, 8];
    let r = pipeline().transcribe_plan(&garbage, None);
    let e = r.unwrap_err();
    assert!(matches!(e, TranscribeError::InvalidAudioFormat(_)));
    assert!(e.message().starts_with("Invalid WAV format: "));
    assert_eq!(e.http_status(), 400);
}

#[test]
fn stereo_audio_is_rejected_without_a_plan() {
    let r = pipeline().transcribe_plan(&wav_bytes(2, 16000, 16), None);
    let e = r.unwrap_err();
    match &e {
        TranscribeError::UnsupportedAudioProfile(f) => {
            assert_eq!(f.channels, 2);
            assert_eq!(f.sample_rate, 16000);
            assert_eq!(f.bits_per_sample, 16);
        }
        other => panic!("expected a profile error, got {:?}", other),
    }
    assert_eq!(e.message(), "WAV must be mono, 16-bit, 16 kHz");
    assert_eq!(e.http_status(), 400);
}

#[test]
fn wrong_sample_rate_is_rejected() {
    let r = pipeline().transcribe_plan(&wav_bytes(1, 44100, 16), None);
    assert!(matches!(
        r,
        Err(TranscribeError::UnsupportedAudioProfile(_))
    ));
}

#[test]
fn wrong_bit_depth_is_rejected() {
    let r = pipeline().transcribe_plan(&wav_bytes(1, 16000, 8), None);
    assert!(matches!(
        r,
        Err(TranscribeError::UnsupportedAudioProfile(_))
    ));
}

#[test]
fn valid_audio_resolves_default_model_and_fixed_args() {
    let plan = pipeline()
        .transcribe_plan(&wav_bytes(1, 16000, 16), None)
        .expect("a mono 16-bit 16 kHz upload must be accepted");
    assert_eq!(plan.model_filename, "ggml-base.bin");
    assert_eq!(plan.model_path, "./models/ggml-base.bin");
    assert_eq!(
        plan.args,
        vec![
            "-m",
            "./models/ggml-base.bin",
            "-f",
            "-",
            "-l",
            "pt",
            "-ovtt",
            "-of",
            "-",
        ]
    );
}

#[test]
fn named_model_is_used_verbatim() {
    let plan = pipeline()
        .transcribe_plan(&wav_bytes(1, 16000, 16), Some("ggml-small.bin".to_string()))
        .unwrap();
    assert_eq!(plan.model_filename, "ggml-small.bin");
    assert_eq!(plan.model_path, "./models/ggml-small.bin");
}

#[test]
fn engine_success_parses_output() {
    let out = pipeline()
        .interpret_engine_output(
            true,
            "WEBVTT\n\n00:00:00.000 --> 00:00:02.000\nOla mundo\n",
            String::new(),
        )
        .unwrap();
    assert_eq!(out.len(), 1);
    assert_eq!(out[0].start, "00:00:00.000");
    assert_eq!(out[0].end, "00:00:02.000");
    assert_eq!(out[0].text, "Ola mundo");
}

#[test]
fn engine_success_with_empty_output_is_empty_list() {
    let out = pipeline()
        .interpret_engine_output(true, "", String::new())
        .unwrap();
    assert!(out.is_empty());
}

#[test]
fn engine_failure_reports_stderr_verbatim() {
    let e = pipeline()
        .interpret_engine_output(false, "", "model load failed".to_string())
        .unwrap_err();
    match &e {
        TranscribeError::EngineExecutionFailed(d) => assert_eq!(d, "model load failed"),
        other => panic!("expected an execution error, got {:?}", other),
    }
    assert_eq!(e.message(), "Transcription failed: model load failed");
    assert_eq!(e.http_status(), 500);
    assert!(!e.is_caller_fault());
}

#[test]
fn environment_errors_have_fixed_messages_and_status() {
    let e = TranscribeError::ModelNotFound("ggml-base.bin".to_string());
    assert_eq!(e.message(), "Model file ggml-base.bin not found in ./models");
    assert_eq!(e.http_status(), 500);

    let e = TranscribeError::EngineNotFound("/app/build/bin/whisper-cli".to_string());
    assert_eq!(
        e.message(),
        "Whisper-cli binary not found at /app/build/bin/whisper-cli"
    );
    assert_eq!(e.http_status(), 500);

    let e = TranscribeError::EngineNotExecutable("/app/build/bin/whisper-cli".to_string());
    assert_eq!(
        e.message(),
        "Whisper-cli binary at /app/build/bin/whisper-cli is not executable"
    );

    let e = TranscribeError::SpawnFailed("no such file".to_string());
    assert_eq!(e.message(), "Failed to spawn whisper-cli command: no such file");

    let e = TranscribeError::EngineWriteFailed("broken pipe".to_string());
    assert_eq!(e.message(), "Failed to write to stdin: broken pipe");
}

#[test]
fn format_bytes_renders_each_unit() {
    assert_eq!(format_bytes(0), "0 bytes");
    assert_eq!(format_bytes(512), "512 bytes");
    assert_eq!(format_bytes(1023), "1023 bytes");
    assert_eq!(format_bytes(1024), "1.00 KB");
    assert_eq!(format_bytes(1536), "1.50 KB");
    assert_eq!(format_bytes(10 * 1024 + 256), "10.25 KB");
    assert_eq!(format_bytes(5 * 1024 * 1024), "5.00 MB");
    assert_eq!(format_bytes(3 * 1024 * 1024 + 512 * 1024), "3.50 MB");
    assert_eq!(format_bytes(1024 * 1024 * 1024), "1.00 GB");
    assert_eq!(format_bytes(1024 * 1024 * 1024 + 512 * 1024 * 1024), "1.50 GB");
}

#[test]
fn format_bytes_rounds_to_nearest_hundredth_ties_upward() {
    // 1048575 / 1024 = 1023.999..., which rounds up to the next whole value.
    assert_eq!(format_bytes(1024 * 1024 - 1), "1024.00 KB");
    // 1152 / 1024 = 1.125 exactly: a tie, rounded upward.
    assert_eq!(format_bytes(1152), "1.13 KB");
    // 1151 / 1024 = 1.1240...: rounds down.
    assert_eq!(format_bytes(1151), "1.12 KB");
}
