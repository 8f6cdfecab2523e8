use app_core::config::{has_plaintext_secret, AppConfig, LanguageOverride, LibrarySource};

fn jellyfin(token: &str) -> LibrarySource {
    LibrarySource::Jellyfin {
        base_url: "http://jf".to_string(),
        user_id: "u".to_string(),
        username: "me".to_string(),
        access_token: token.to_string(),
        device_id: "d".to_string(),
        library_ids: vec!["l1".to_string()],
    }
}

#[test]
fn secrets_are_mapped_and_nothing_else() {
    let src = jellyfin("secret").map_secret(|s| format!("enc:{s}"));
    match src {
        LibrarySource::Jellyfin { access_token, base_url, library_ids, .. } => {
            assert_eq!(access_token, "enc:secret");
            assert_eq!(base_url, "http://jf");
            assert_eq!(library_ids, vec!["l1".to_string()]);
        }
        _ => panic!("variant changed"),
    }
    let folder = LibrarySource::Folder { path: "/music".to_string() }
        .map_secret(|_| panic!("folders have no secret"));
    assert!(matches!(folder, LibrarySource::Folder { ref path } if path == "/music"));
}

#[test]
fn plaintext_secrets_are_detected() {
    let enc = |s: &str| s.starts_with("enc:");
    assert!(has_plaintext_secret(&jellyfin("secret"), enc));
    assert!(!has_plaintext_secret(&jellyfin("enc:xyz"), enc));
    assert!(!has_plaintext_secret(&jellyfin(""), enc));
    assert!(!has_plaintext_secret(&LibrarySource::Folder { path: "/m".to_string() }, enc));
}

fn blank() -> AppConfig {
    AppConfig {
        data_path: None,
        last_folder: None,
        library_source: None,
        recordings_path: None,
        whisper_model: None,
        beam_size: None,
        batch_size: None,
        separator: None,
        asr_engine: None,
        align_backend: None,
        auto_analyze: None,
        language_overrides: None,
    }
}

#[test]
fn analysis_settings_fall_back_to_defaults() {
    let cfg = blank();
    assert_eq!(cfg.whisper_model(), "large-v3");
    assert_eq!(cfg.beam_size(), 8);
    assert_eq!(cfg.batch_size(), 8);
    assert_eq!(cfg.separator(), "karaoke");
    assert_eq!(cfg.asr_engine(), "whisper");
    assert_eq!(cfg.align_backend(), "whisperx");
    assert!(!cfg.auto_analyze());
    assert_eq!(cfg.effective_data_path("/home/me/.nightingale"), "/home/me/.nightingale");

    let mut set = blank();
    set.whisper_model = Some("small".to_string());
    set.beam_size = Some(3);
    set.batch_size = Some(16);
    set.separator = Some("demucs".to_string());
    set.asr_engine = Some("parakeet".to_string());
    set.align_backend = Some("mms".to_string());
    set.auto_analyze = Some(true);
    set.data_path = Some("/data".to_string());
    assert_eq!(set.whisper_model(), "small");
    assert_eq!(set.beam_size(), 3);
    assert_eq!(set.batch_size(), 16);
    assert_eq!(set.separator(), "demucs");
    assert_eq!(set.asr_engine(), "parakeet");
    assert_eq!(set.align_backend(), "mms");
    assert!(set.auto_analyze());
    assert_eq!(set.effective_data_path("/home/me/.nightingale"), "/data");
}

#[test]
fn language_overrides_are_set_and_replaced() {
    let mut cfg = blank();
    assert_eq!(cfg.language_override("abc"), None);
    cfg.set_language_override("abc".to_string(), "en".to_string());
    cfg.set_language_override("def".to_string(), "de".to_string());
    assert_eq!(cfg.language_override("abc"), Some("en"));
    assert_eq!(cfg.language_override("def"), Some("de"));
    cfg.set_language_override("abc".to_string(), "fr".to_string());
    assert_eq!(cfg.language_override("abc"), Some("fr"));
    assert_eq!(cfg.language_override("def"), Some("de"));
    assert_eq!(cfg.language_override("xyz"), None);
    assert_eq!(cfg.language_overrides.as_ref().map(|v| v.len()), Some(2));
    let first: &LanguageOverride = &cfg.language_overrides.as_ref().unwrap()[0];
    assert_eq!(first.file_hash, "abc");
}

#[test]
fn legacy_folder_becomes_the_library_source() {
    let mut old = blank();
    old.last_folder = Some("/music".to_string());
    assert!(old.loaded_needs_save(false));
    let cfg = old.with_defaults("/home/me/.nightingale");
    assert_eq!(cfg.data_path.as_deref(), Some("/home/me/.nightingale"));
    assert!(cfg.last_folder.is_none());
    assert!(matches!(cfg.library_source, Some(LibrarySource::Folder { ref path }) if path == "/music"));
    assert!(!cfg.loaded_needs_save(false));
    assert!(cfg.loaded_needs_save(true));

    let mut kept = blank();
    kept.data_path = Some("/data".to_string());
    kept.last_folder = Some("/old".to_string());
    kept.library_source = Some(jellyfin("t"));
    let kept = kept.with_defaults("/default");
    assert_eq!(kept.data_path.as_deref(), Some("/data"));
    assert_eq!(kept.last_folder.as_deref(), Some("/old"));
    assert!(matches!(kept.library_source, Some(LibrarySource::Jellyfin { .. })));
}

#[test]
fn library_meta_recovers_a_folder_source() {
    let mut cfg = blank();
    assert!(!cfg.source_from_library_meta(None, true));
    assert!(!cfg.source_from_library_meta(Some((String::new(), 4)), true));
    assert!(!cfg.source_from_library_meta(Some(("/m".to_string(), 0)), true));
    assert!(!cfg.source_from_library_meta(Some(("/m".to_string(), 4)), false));
    assert!(cfg.library_source.is_none());
    assert!(cfg.source_from_library_meta(Some(("/m".to_string(), 4)), true));
    assert!(matches!(cfg.library_source, Some(LibrarySource::Folder { ref path }) if path == "/m"));
    assert!(!cfg.source_from_library_meta(Some(("/other".to_string(), 9)), true));
    assert!(matches!(cfg.library_source, Some(LibrarySource::Folder { ref path }) if path == "/m"));
}

#[test]
fn sealed_credentials_open_to_what_they_were() {
    let seal = |s: &str| format!("enc:{s}");
    let open = |s: &str| s.strip_prefix("enc:").unwrap_or(s).to_string();
    let on_disk = jellyfin("token-123").map_secret(seal);
    match &on_disk {
        LibrarySource::Jellyfin { access_token, .. } => assert_eq!(access_token, "enc:token-123"),
        _ => panic!("variant changed"),
    }
    match on_disk.map_secret(open) {
        LibrarySource::Jellyfin { access_token, base_url, username, library_ids, .. } => {
            assert_eq!(access_token, "token-123");
            assert_eq!(base_url, "http://jf");
            assert_eq!(username, "me");
            assert_eq!(library_ids, vec!["l1".to_string()]);
        }
        _ => panic!("variant changed"),
    }
}
