use ahess::audio_build::{
    build_manifest, ensure_wav_size_can_hold, is_generated_file_name, manifest_lines,
    planned_audio_files, safe_generated_file_name, stale_manifest_entries, wav_size_fields,
    write_wav_header, AudioBuildError, BuildSampleRate, PlannedAudioFile, WAV_HEADER_SIZE,
};
use ahess::part::Part;
use ahess::project::{Project, Seed, Voice, VoiceType};

fn directory_name(name: &String) -> Option<String> {
    let mut stem = String::new();
    let mut pending_dash = false;
    for c in name.chars() {
        if c.is_ascii_alphanumeric() {
            if pending_dash && !stem.is_empty() {
                stem.push('-');
            }
            pending_dash = false;
            stem.push(c.to_ascii_lowercase());
        } else {
            pending_dash = true;
        }
    }
    if stem.is_empty() {
        None
    } else {
        Some(stem)
    }
}

#[test]
fn planned_files_name_the_mix_and_one_stem_per_voice() {
    let project = Project::new("Arc Light", 8, 0, Seed::new(1))
        .with_voices(vec![
            Voice::new(1, "Lead Voice", VoiceType::Saw),
            Voice::new(2, "Bass", VoiceType::Sin),
        ])
        .with_parts(vec![Part::new("intro", 2)]);

    let plans = planned_audio_files(&project, &directory_name);

    assert_eq!(plans.len(), 3);
    assert_eq!(plans[0].label, "whole piece");
    assert_eq!(plans[0].file_name, "arc-light-mix.wav");
    assert_eq!(plans[1].label, "voice: Lead Voice");
    assert_eq!(plans[1].file_name, "arc-light-voice-01-lead-voice.wav");
    assert_eq!(plans[2].file_name, "arc-light-voice-02-bass.wav");
}

#[test]
fn names_without_a_directory_name_fall_back() {
    let project = Project::new("!!!", 8, 0, Seed::new(1)).with_voices(vec![
        Voice::new(7, "???", VoiceType::Saw),
    ]);

    let plans = planned_audio_files(&project, &directory_name);

    assert_eq!(plans[0].file_name, "project-mix.wav");
    assert_eq!(plans[1].file_name, "project-voice-01-voice-7.wav");
}

#[test]
fn voice_numbers_keep_two_digits_then_grow() {
    let voices = (1..=12)
        .map(|id| Voice::new(id, "v", VoiceType::Sin))
        .collect::<Vec<_>>();
    let project = Project::new("p", 8, 0, Seed::new(1)).with_voices(voices);

    let plans = planned_audio_files(&project, &directory_name);

    assert_eq!(plans[9].file_name, "p-voice-09-v.wav");
    assert_eq!(plans[12].file_name, "p-voice-12-v.wav");
}

#[test]
fn sample_rates_round_trip_through_their_index() {
    for rate in BuildSampleRate::all() {
        assert_eq!(BuildSampleRate::from_index(rate.index()), Some(rate));
    }
    assert_eq!(BuildSampleRate::from_index(3), None);
    assert_eq!(BuildSampleRate::DEFAULT.hz(), 48_000);
    assert_eq!(BuildSampleRate::Hz44100.label(), "44.1 kHz");
    assert_eq!(BuildSampleRate::Hz96000.hz(), 96_000);
}

#[test]
fn wav_sizes_must_fit_thirty_two_bits() {
    let largest = (u64::from(u32::MAX) - 50) / 8;
    assert!(ensure_wav_size_can_hold(largest).is_ok());
    assert_eq!(
        ensure_wav_size_can_hold(largest + 1).unwrap_err(),
        AudioBuildError::new("the audio build is too large for a standard WAV file")
    );
    assert_eq!(
        ensure_wav_size_can_hold(u64::MAX).unwrap_err(),
        AudioBuildError::new("the audio build is too large for a WAV file")
    );
    assert_eq!(wav_size_fields(16).unwrap(), (178, 16, 128));
    assert!(wav_size_fields(largest + 1).is_err());
}

#[test]
fn the_header_describes_float_stereo_audio() {
    let mut bytes = Vec::new();
    write_wav_header(&mut bytes, 48_000).unwrap();
    assert_eq!(bytes.len() as u64, WAV_HEADER_SIZE);
    assert_eq!(&bytes[0..4], b"RIFF");
    assert_eq!(&bytes[8..12], b"WAVE");
    assert_eq!(u16::from_le_bytes(bytes[20..22].try_into().unwrap()), 3);
    assert_eq!(u16::from_le_bytes(bytes[22..24].try_into().unwrap()), 2);
    assert_eq!(u32::from_le_bytes(bytes[24..28].try_into().unwrap()), 48_000);
    assert_eq!(u32::from_le_bytes(bytes[28..32].try_into().unwrap()), 384_000);
    assert_eq!(u16::from_le_bytes(bytes[34..36].try_into().unwrap()), 32);
    assert_eq!(&bytes[38..42], b"fact");
    assert_eq!(&bytes[50..54], b"data");
    let mut untouched = vec![7_u8];
    assert_eq!(write_wav_header(&mut untouched, u32::MAX).unwrap_err(), "sample rate is too large");
    assert_eq!(untouched, vec![7]);
    let mut appended = vec![1_u8, 2];
    write_wav_header(&mut appended, 44_100).unwrap();
    assert_eq!(&appended[0..2], &[1, 2]);
    assert_eq!(&appended[2..6], b"RIFF");
}

#[test]
fn io_errors_carry_their_cause() {
    let error = AudioBuildError::io("failed to write audio file", "disk full");
    assert_eq!(error.message(), "failed to write audio file: disk full");
}

fn plan(file_name: &str) -> PlannedAudioFile {
    PlannedAudioFile { label: "whole piece".to_owned(), file_name: file_name.to_owned() }
}

#[test]
fn the_manifest_lists_one_file_per_line() {
    let plans = vec![plan("song-mix.wav"), plan("song-voice-01-lead.wav")];
    assert_eq!(build_manifest(&plans), "song-mix.wav\nsong-voice-01-lead.wav\n");
    assert_eq!(build_manifest(&[]), "\n");
}

#[test]
fn manifest_lines_split_like_str_lines() {
    for text in ["", "\n", "a", "a\n", "a\r\nb\n\nc", "a\r", "x\ry\n", "\n\n"] {
        let expected: Vec<String> = text.lines().map(|line| line.to_owned()).collect();
        assert_eq!(manifest_lines(text), expected, "{text:?}");
    }
}

#[test]
fn stale_entries_are_the_listed_files_no_longer_planned() {
    let plans = vec![plan("song-mix.wav"), plan("song-voice-01-lead.wav")];
    let previous = "song-mix.wav\nsong-voice-02-bass.wav\nsong-voice-01-lead.wav\nold-mix.wav\n";
    assert_eq!(
        stale_manifest_entries(previous, &plans),
        vec!["song-voice-02-bass.wav".to_owned(), "old-mix.wav".to_owned()]
    );
    assert!(stale_manifest_entries("", &plans).is_empty());
}

#[test]
fn only_single_wav_file_names_are_safe_to_remove() {
    assert!(safe_generated_file_name("song-mix.wav"));
    assert!(safe_generated_file_name("SONG.WAV"));
    assert!(!safe_generated_file_name("notes.txt"));
    assert!(!safe_generated_file_name(".wav"));
    assert!(!safe_generated_file_name("wav"));
    assert!(!safe_generated_file_name("../song.wav"));
    assert!(!safe_generated_file_name("nested/song.wav"));
    assert!(!safe_generated_file_name("/song.wav"));
    assert!(!safe_generated_file_name(""));
    assert!(!safe_generated_file_name("a/b/c.wav"));
    assert!(!safe_generated_file_name("../../x.wav"));
    assert!(!safe_generated_file_name("./../x.wav"));
    assert!(!safe_generated_file_name("sub/./x.wav"));
    assert!(!safe_generated_file_name("./a.wav"));
}

#[test]
fn generated_names_need_one_component_and_a_wav_extension() {
    assert!(is_generated_file_name(1, Some("wav")));
    assert!(is_generated_file_name(1, Some("WaV")));
    assert!(!is_generated_file_name(2, Some("wav")));
    assert!(!is_generated_file_name(0, Some("wav")));
    assert!(!is_generated_file_name(1, Some("wave")));
    assert!(!is_generated_file_name(1, None));
}

#[test]
fn a_manifest_reads_back_the_names_it_lists() {
    let plans = vec![plan("song-mix.wav"), plan("song-voice-01-lead.wav"), plan("x")];
    let manifest = build_manifest(&plans);
    assert_eq!(manifest_lines(&manifest), vec!["song-mix.wav", "song-voice-01-lead.wav", "x"]);
    assert!(stale_manifest_entries(&manifest, &plans).is_empty());
    // With no files, the manifest is one empty line.
    assert_eq!(manifest_lines(&build_manifest(&[])), vec![""]);
}
