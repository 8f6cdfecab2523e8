use app_core::recording::{
    check_recording, input_extension, recording_files, recording_stem, safe_timestamp,
    sanitize_file_part, should_mix_microphone, transcode_args, MAX_RECORDING_BYTES,
};

#[test]
fn media_types_map_to_extensions() {
    assert_eq!(input_extension("audio/webm;codecs=opus"), Some("webm".to_string()));
    assert_eq!(input_extension("Audio/MP4"), Some("m4a".to_string()));
    assert_eq!(input_extension("audio/ogg"), Some("ogg".to_string()));
    assert_eq!(input_extension("video/webm"), None);
}

#[test]
fn file_parts_are_sanitized() {
    assert_eq!(sanitize_file_part("  My:Song / Live?  "), "My Song Live");
    assert_eq!(sanitize_file_part("...hidden..."), "hidden");
    assert_eq!(sanitize_file_part("a\tb\nc"), "a b c");
    assert_eq!(sanitize_file_part(""), "");
    let long = "x".repeat(60);
    assert_eq!(sanitize_file_part(&long), "x".repeat(40));
}

#[test]
fn timestamps_must_be_well_formed() {
    assert_eq!(safe_timestamp("01-02-24 13-14-15"), Some("01-02-24 13-14-15"));
    assert_eq!(safe_timestamp("01-02-24 13:14:15"), None);
    assert_eq!(safe_timestamp("1-02-24 13-14-15"), None);
    assert_eq!(safe_timestamp("../../etc/passwd"), None);
}

#[test]
fn stems_join_parts_with_defaults() {
    assert_eq!(
        recording_stem("Song", "Album", "Me", "01-02-24 13-14-15"),
        Ok("Song - Album - Me - 01-02-24 13-14-15".to_string())
    );
    assert_eq!(
        recording_stem("", "  ", "", "01-02-24 13-14-15"),
        Ok("Untitled - Unknown album - No profile - 01-02-24 13-14-15".to_string())
    );
    assert_eq!(
        recording_stem("Song", "Album", "Me", "now"),
        Err("The recording timestamp is invalid".to_string())
    );
}

#[test]
fn save_requests_are_checked() {
    assert_eq!(check_recording(0, None, "audio/webm"), Err("The recording is empty".to_string()));
    assert_eq!(
        check_recording(MAX_RECORDING_BYTES, Some(1), "audio/webm"),
        Err("The recording is too large to save".to_string())
    );
    assert_eq!(
        check_recording(10, None, "audio/wav"),
        Err("This recording format is not supported".to_string())
    );
    assert_eq!(check_recording(MAX_RECORDING_BYTES, None, "audio/ogg"), Ok("ogg".to_string()));
}

#[test]
fn working_file_names() {
    let f = recording_files("42-7", "webm", "Song - A - B - 01-02-24 13-14-15");
    assert_eq!(f.input, ".nightingale-42-7.webm");
    assert_eq!(f.microphone, ".nightingale-42-7-microphone.wav");
    assert_eq!(f.encoded, ".nightingale-42-7.mp3");
    assert_eq!(f.target, "Song - A - B - 01-02-24 13-14-15.mp3");
}

#[test]
fn microphone_is_mixed_only_when_present() {
    assert!(!should_mix_microphone(None));
    assert!(!should_mix_microphone(Some(0)));
    assert!(should_mix_microphone(Some(5)));
}

#[test]
fn encoder_arguments() {
    assert_eq!(
        transcode_args("in.webm", None, "out.mp3"),
        vec![
            "-y", "-v", "error", "-i", "in.webm", "-vn", "-codec:a", "libmp3lame", "-b:a",
            "256k", "-ar", "48000", "-ac", "2", "out.mp3"
        ]
    );
    let mixed = transcode_args("in.webm", Some("mic.wav"), "out.mp3");
    assert_eq!(mixed.len(), 21);
    assert_eq!(mixed[5], "-i");
    assert_eq!(mixed[6], "mic.wav");
    assert_eq!(mixed[10], "[aout]");
}
