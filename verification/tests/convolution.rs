use ahess::convolution::{
    check_existing_asset, check_wav_extension, check_wav_file, check_wav_path, validate_display_name,
    ImpulseResponseAssetPath, VoiceConvolutionSpec,
};
use ahess::wav::{inspect_wav_bytes, ImpulseResponseError, WavProblem};

fn wav_bytes(channels: u16, sample_rate: u32, bits: u16, data: &[u8]) -> Vec<u8> {
    let block_align = channels * (bits / 8);
    let byte_rate = sample_rate * u32::from(block_align);
    let riff_size = 36 + data.len() as u32;
    let mut bytes = Vec::new();
    bytes.extend_from_slice(b"RIFF");
    bytes.extend_from_slice(&riff_size.to_le_bytes());
    bytes.extend_from_slice(b"WAVEfmt ");
    bytes.extend_from_slice(&16_u32.to_le_bytes());
    bytes.extend_from_slice(&1_u16.to_le_bytes());
    bytes.extend_from_slice(&channels.to_le_bytes());
    bytes.extend_from_slice(&sample_rate.to_le_bytes());
    bytes.extend_from_slice(&byte_rate.to_le_bytes());
    bytes.extend_from_slice(&block_align.to_le_bytes());
    bytes.extend_from_slice(&bits.to_le_bytes());
    bytes.extend_from_slice(b"data");
    bytes.extend_from_slice(&(data.len() as u32).to_le_bytes());
    bytes.extend_from_slice(data);
    bytes
}

fn problem(result: Result<ahess::wav::WavMetadata, ImpulseResponseError>) -> WavProblem {
    match result.unwrap_err() {
        ImpulseResponseError::Invalid { problem, .. } => problem,
        other => panic!("unexpected error {other:?}"),
    }
}

#[test]
fn valid_mono_pcm_wav_reports_its_metadata() {
    let bytes = wav_bytes(1, 48_000, 16, &[0, 0, 1, 0]);

    let metadata = inspect_wav_bytes("room.wav", &bytes).unwrap();

    assert_eq!(metadata.sample_rate(), 48_000);
    assert_eq!(metadata.bits_per_sample(), 16);
    assert_eq!(
        metadata.frame_count() as f64 / f64::from(metadata.sample_rate()),
        2.0 / 48_000.0
    );
}

#[test]
fn stereo_wav_is_rejected_before_import() {
    let bytes = wav_bytes(2, 44_100, 16, &[0, 0, 0, 0]);

    let error = inspect_wav_bytes("room.wav", &bytes).unwrap_err();

    assert!(error.message().contains("exactly one channel"));
}

#[test]
fn imported_wav_uses_a_valid_content_addressed_project_path() {
    let contents = wav_bytes(1, 44_100, 16, &[0, 0]);
    inspect_wav_bytes("small hall.wav", &contents).unwrap();

    let spec = VoiceConvolutionSpec::for_source_path("source/small hall.wav", &contents);

    assert_eq!(spec.file_name(), "small hall.wav");
    assert!(spec.file().starts_with("assets/impulse-responses/"));
    assert!(ImpulseResponseAssetPath::new(spec.file_config_value().to_string()).is_ok());
}

#[test]
fn content_paths_use_the_fnv1a_hash_in_hexadecimal() {
    let empty = ImpulseResponseAssetPath::for_contents(&[]);
    assert_eq!(empty.as_str(), "assets/impulse-responses/cbf29ce484222325.wav");
    let a = ImpulseResponseAssetPath::for_contents(b"a");
    assert_eq!(a.as_str(), "assets/impulse-responses/af63dc4c8601ec8c.wav");
}

#[test]
fn asset_paths_must_be_content_addressed_wav_files() {
    assert!(ImpulseResponseAssetPath::new(
        "assets/impulse-responses/0123456789abcdef.wav".to_string()
    )
    .is_ok());
    assert_eq!(
        ImpulseResponseAssetPath::new("elsewhere/0123456789abcdef.wav".to_string()).unwrap_err(),
        "impulse response files must be stored under assets/impulse-responses"
    );
    assert_eq!(
        ImpulseResponseAssetPath::new("assets/impulse-responses/0123456789abcdef.mp3".to_string())
            .unwrap_err(),
        "impulse response assets must be WAV files"
    );
    assert_eq!(
        ImpulseResponseAssetPath::new("assets/impulse-responses/0123456789ABCDEF.wav".to_string())
            .unwrap_err(),
        "impulse response asset names must use their content hash"
    );
    assert!(ImpulseResponseAssetPath::new("assets/impulse-responses/abc.wav".to_string()).is_err());
}

#[test]
fn display_names_need_visible_text_and_no_control_characters() {
    assert!(validate_display_name("small hall.wav").is_ok());
    assert!(validate_display_name("   ").is_err());
    assert!(validate_display_name("").is_err());
    assert!(validate_display_name("a\u{7}b").is_err());
    assert!(validate_display_name("\u{3000}x").is_ok());
    assert_eq!(
        validate_display_name("\t").unwrap_err(),
        "the impulse response display name must contain visible text"
    );
}

#[test]
fn imports_without_a_usable_name_get_the_default_name() {
    let spec = VoiceConvolutionSpec::for_import(b"x", Some(" "));
    assert_eq!(spec.file_name(), "impulse-response.wav");
    let spec = VoiceConvolutionSpec::for_import(b"x", None);
    assert_eq!(spec.file_name(), "impulse-response.wav");
}

#[test]
fn stored_specs_check_their_path_and_name() {
    let good = "assets/impulse-responses/0123456789abcdef.wav".to_string();
    let spec = VoiceConvolutionSpec::from_stored(good.clone(), "hall".to_string()).unwrap();
    assert_eq!(spec.file(), good);
    assert_eq!(spec.file_name(), "hall");
    assert!(VoiceConvolutionSpec::from_stored(good, "\n".to_string()).is_err());
    assert!(VoiceConvolutionSpec::from_stored("x.wav".to_string(), "hall".to_string()).is_err());
}

#[test]
fn file_checks_come_before_reading() {
    assert!(check_wav_extension("a.WAV", Some("WAV")).is_ok());
    assert_eq!(
        check_wav_extension("a.mp3", Some("mp3")).unwrap_err(),
        ImpulseResponseError::Invalid {
            path: "a.mp3".to_string(),
            problem: WavProblem::NotWavExtension
        }
    );
    assert!(check_wav_extension("a", None).is_err());
    assert!(check_wav_file("a.wav", true, 64 * 1024 * 1024).is_ok());
    assert!(matches!(
        check_wav_file("a.wav", true, 64 * 1024 * 1024 + 1),
        Err(ImpulseResponseError::Invalid { problem: WavProblem::TooLarge, .. })
    ));
    assert!(matches!(
        check_wav_file("a.wav", false, 1),
        Err(ImpulseResponseError::Invalid { problem: WavProblem::NotAFile, .. })
    ));
    assert!(check_existing_asset("a.wav", b"abc", b"abc").is_ok());
    assert!(matches!(
        check_existing_asset("a.wav", b"abc", b"abd"),
        Err(ImpulseResponseError::Invalid { problem: WavProblem::AssetConflict, .. })
    ));
}

#[test]
fn each_wav_problem_is_reported() {
    assert_eq!(problem(inspect_wav_bytes("x", b"RIFF")), WavProblem::NoRiffHeader);
    assert_eq!(problem(inspect_wav_bytes("x", b"RIFF0000WAVX")), WavProblem::NoRiffHeader);
    let mut no_format = b"RIFF0000WAVE".to_vec();
    assert_eq!(problem(inspect_wav_bytes("x", &no_format)), WavProblem::NoFormat);
    no_format.extend_from_slice(b"data");
    no_format.extend_from_slice(&100_u32.to_le_bytes());
    assert_eq!(problem(inspect_wav_bytes("x", &no_format)), WavProblem::ChunkBeyondEnd);
    let mut short_format = b"RIFF0000WAVEfmt ".to_vec();
    short_format.extend_from_slice(&4_u32.to_le_bytes());
    short_format.extend_from_slice(&[1, 0, 1, 0]);
    assert_eq!(problem(inspect_wav_bytes("x", &short_format)), WavProblem::FormatIncomplete);
    let mut adpcm = wav_bytes(1, 8_000, 16, &[0, 0]);
    adpcm[20] = 2;
    assert_eq!(problem(inspect_wav_bytes("x", &adpcm)), WavProblem::UnsupportedEncoding);
    assert_eq!(
        problem(inspect_wav_bytes("x", &wav_bytes(1, 0, 16, &[0, 0]))),
        WavProblem::ZeroSampleRate
    );
    assert_eq!(
        problem(inspect_wav_bytes("x", &wav_bytes(1, 8_000, 12, &[0]))),
        WavProblem::UnsupportedSampleFormat
    );
    let mut misaligned = wav_bytes(1, 8_000, 16, &[0, 0]);
    misaligned[32] = 4;
    assert_eq!(problem(inspect_wav_bytes("x", &misaligned)), WavProblem::BlockAlignMismatch);
    assert_eq!(
        problem(inspect_wav_bytes("x", &wav_bytes(1, 8_000, 16, &[]))),
        WavProblem::NoSamples
    );
    assert_eq!(
        problem(inspect_wav_bytes("x", &wav_bytes(1, 8_000, 16, &[0, 0, 0]))),
        WavProblem::PartialFrame
    );
    assert_eq!(
        problem(inspect_wav_bytes("x", &wav_bytes(1, 1, 8, &[0; 31]))),
        WavProblem::TooLong
    );
    assert!(inspect_wav_bytes("x", &wav_bytes(1, 1, 8, &[0; 30])).is_ok());
    let float = {
        let mut b = wav_bytes(1, 8_000, 32, &[0; 8]);
        b[20] = 3;
        b
    };
    let metadata = inspect_wav_bytes("x", &float).unwrap();
    assert_eq!(metadata.bits_per_sample(), 32);
    assert_eq!(metadata.frame_count(), 2);
}

#[test]
fn errors_read_as_sentences() {
    let error = ImpulseResponseError::invalid("room.wav", WavProblem::NotMono);
    assert_eq!(
        error.message(),
        "invalid impulse response at room.wav: the impulse response must contain exactly one channel"
    );
    let io = ImpulseResponseError::Io {
        path: "room.wav".to_string(),
        message: "denied".to_string(),
    };
    assert_eq!(io.message(), "failed to read room.wav: denied");
}

#[test]
fn a_selected_path_must_end_in_a_wav_file_name() {
    assert!(check_wav_path("rooms/small hall.wav").is_ok());
    assert!(check_wav_path("/home/me/HALL.WAV").is_ok());
    assert!(check_wav_path("hall.Wav").is_ok());
    assert!(check_wav_path("rooms/hall.wav/.").is_ok());
    assert!(check_wav_path("rooms\\hall.wav").is_ok());
    for path in ["rooms/hall.mp3", "rooms.wav/hall", "hall", ".wav", "rooms/.wav", "hall.wav.txt", "sub\\a.txt", "a.txt/."] {
        match check_wav_path(path).unwrap_err() {
            ImpulseResponseError::Invalid { path: shown, problem } => {
                assert_eq!(shown, path);
                assert_eq!(problem, WavProblem::NotWavExtension);
            }
            other => panic!("unexpected error {other:?}"),
        }
    }
}

#[test]
fn an_imported_file_is_named_after_the_last_part_of_its_path() {
    let spec = VoiceConvolutionSpec::for_source_path("/rooms/church/nave.wav", b"x");
    assert_eq!(spec.file_name(), "nave.wav");
    let spec = VoiceConvolutionSpec::for_source_path("rooms/nave.wav/.", b"x");
    assert_eq!(spec.file_name(), "nave.wav");
    let spec = VoiceConvolutionSpec::for_source_path("nave.wav", b"x");
    assert_eq!(spec.file_name(), "nave.wav");
    let spec = VoiceConvolutionSpec::for_source_path("rooms/ ", b"x");
    assert_eq!(spec.file_name(), "impulse-response.wav");
    assert_eq!(
        VoiceConvolutionSpec::for_source_path("a/nave.wav", b"x").file(),
        VoiceConvolutionSpec::for_import(b"x", None).file()
    );
}
