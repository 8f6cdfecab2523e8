use app_core::config::LibrarySource;
use app_core::media_server::{
    constant_time_eq, endpoint, local_media_roots, local_path, mime_for_extension, parse_range,
    range_to_serve, route, MediaSession, Route,
    sanitize_file_hash, session_token_from_bytes, stream_head, strip_session_prefix, StreamHead,
};
use base64::Engine;

#[test]
fn endpoint_keeps_port_and_token() {
    let e = endpoint(4242, "tok".to_string());
    assert_eq!(e.port, 4242);
    assert_eq!(e.session_token, "tok");
}

#[test]
fn session_token_is_url_safe_base64() {
    let bytes = [0xFBu8; 32];
    let token = session_token_from_bytes(&bytes);
    assert_eq!(
        token,
        base64::engine::general_purpose::URL_SAFE_NO_PAD.encode(bytes)
    );
    assert_eq!(token.len(), 43);
    assert!(!token.contains('='));
    assert!(!token.contains('+'));
    assert!(token.starts_with("-_"));
}

#[test]
fn equality_in_constant_time() {
    assert!(constant_time_eq(b"abc", b"abc"));
    assert!(!constant_time_eq(b"abc", b"abd"));
    assert!(!constant_time_eq(b"abc", b"ab"));
    assert!(constant_time_eq(b"", b""));
}

#[test]
fn session_prefix_is_checked() {
    assert_eq!(strip_session_prefix("/s/tok/local/a.mp3", "tok"), Some("/local/a.mp3"));
    assert_eq!(strip_session_prefix("/s/bad/local/a.mp3", "tok"), None);
    assert_eq!(strip_session_prefix("/s/tok", "tok"), None);
    assert_eq!(strip_session_prefix("/x/tok/a", "tok"), None);
}

#[test]
fn content_types() {
    assert_eq!(mime_for_extension(Some("MP3")), "audio/mpeg");
    assert_eq!(mime_for_extension(Some("opus")), "audio/ogg");
    assert_eq!(mime_for_extension(Some("m4a")), "audio/mp4");
    assert_eq!(mime_for_extension(Some("mkv")), "video/x-matroska");
    assert_eq!(mime_for_extension(Some("txt")), "application/octet-stream");
    assert_eq!(mime_for_extension(None), "application/octet-stream");
}

#[test]
fn byte_ranges() {
    assert_eq!(parse_range("bytes=0-99", 1000), Some((0, 99)));
    assert_eq!(parse_range("bytes=500-", 1000), Some((500, 999)));
    assert_eq!(parse_range("bytes=-100", 1000), Some((900, 999)));
    assert_eq!(parse_range("bytes=900-5000", 1000), Some((900, 999)));
    assert_eq!(parse_range("bytes=-5000", 1000), Some((0, 999)));
    assert_eq!(parse_range("items=0-1", 1000), None);
    assert_eq!(parse_range("bytes=a-b", 1000), None);
    assert_eq!(parse_range("bytes=0-", 0), Some((0, 0)));
}

#[test]
fn remote_hashes_are_sanitized() {
    assert_eq!(sanitize_file_hash("ABCdef01"), Some("abcdef01".to_string()));
    assert_eq!(sanitize_file_hash(""), None);
    assert_eq!(sanitize_file_hash("../etc"), None);
    assert_eq!(sanitize_file_hash(&"a".repeat(65)), None);
    assert_eq!(sanitize_file_hash(&"a".repeat(64)), Some("a".repeat(64)));
}

#[test]
fn local_paths_are_decoded() {
    assert_eq!(local_path("/music/My%20Song.mp3", false), "/music/My Song.mp3");
    assert_eq!(local_path("/C:/music/a.mp3", true), "C:/music/a.mp3");
    assert_eq!(local_path("/C:/music/a.mp3", false), "/C:/music/a.mp3");
    assert_eq!(local_path("/bad%ff", false), "/bad%ff");
    assert_eq!(local_path("/a%zz%41+b%4", false), "/a%zzA+b%4");
    assert_eq!(local_path("/caf%C3%A9", false), "/café");
}

#[test]
fn local_roots_include_library_folder() {
    let fixed = vec!["/data".to_string(), "/cache".to_string()];
    let folder = Some(LibrarySource::Folder { path: "/music".to_string() });
    assert_eq!(local_media_roots(fixed.clone(), &folder), vec!["/data", "/cache", "/music"]);
    let remote = Some(LibrarySource::Navidrome {
        base_url: "http://nd".to_string(),
        username: "u".to_string(),
        password: "p".to_string(),
    });
    assert_eq!(local_media_roots(fixed.clone(), &remote), vec!["/data", "/cache"]);
    assert_eq!(local_media_roots(fixed, &None), vec!["/data", "/cache"]);
}

#[test]
fn proxied_stream_head() {
    let h = StreamHead {
        status: 206,
        content_type: Some("audio/mpeg".to_string()),
        content_range: Some("bytes 0-9/100".to_string()),
        accept_ranges: None,
        content_length: Some(10),
    };
    assert_eq!(
        stream_head(&h),
        "HTTP/1.1 206 OK\r\nContent-Type: audio/mpeg\r\nContent-Range: bytes 0-9/100\r\nAccept-Ranges: bytes\r\nContent-Length: 10\r\nAccess-Control-Allow-Origin: *\r\nAccess-Control-Expose-Headers: Content-Range, Accept-Ranges, Content-Length\r\nX-Content-Type-Options: nosniff\r\nConnection: close\r\n\r\n"
    );
}

#[test]
fn ranges_past_the_end_are_not_served() {
    assert_eq!(parse_range("bytes=1500-", 1000), Some((1500, 999)));
    assert_eq!(range_to_serve("bytes=1500-", 1000), None);
    assert_eq!(range_to_serve("bytes=0-99", 1000), Some((0, 99, 100)));
    assert_eq!(range_to_serve("bytes=-100", 1000), Some((900, 999, 100)));
    assert_eq!(range_to_serve("bytes=990-5000", 1000), Some((990, 999, 10)));
    assert_eq!(range_to_serve("bytes=0-", 0), None);
    assert_eq!(range_to_serve("items=0-1", 1000), None);
}

#[test]
fn requests_are_routed_by_token_then_path() {
    let tok = "abc";
    assert!(matches!(route(true, false, "/anything", tok), Route::Preflight));
    assert!(matches!(route(false, true, "/s/wrong/local/x", tok), Route::Unauthorized));
    assert!(matches!(route(false, true, "/local/x", tok), Route::Unauthorized));
    assert!(matches!(route(false, true, "/s/abc/remote/ABCD", tok), Route::Remote(ref h) if h == "ABCD"));
    assert!(matches!(route(false, false, "/s/abc/remote/ABCD", tok), Route::MethodNotAllowed));
    assert!(matches!(route(false, false, "/s/abc/local/%2Fm%2Fa.mp3", tok), Route::Local(ref p) if p == "%2Fm%2Fa.mp3"));
    assert!(matches!(route(false, true, "/s/abc/other", tok), Route::NotFound));
}

#[test]
fn the_session_token_is_drawn_once() {
    let mut session = MediaSession::new();
    let first = session.endpoint(&[7u8; 32]);
    assert_eq!(first.port, 0);
    assert_eq!(first.session_token.len(), 43);
    assert!(!first.session_token.contains('/'));
    session.started(5123);
    let second = session.endpoint(&[9u8; 32]);
    assert_eq!(second.port, 5123);
    assert_eq!(second.session_token, first.session_token);
    assert_eq!(session.session_token(&[1u8; 32]), first.session_token);
}
