use talky_core::chars::{chars_of, lower_chars, str_chars_eq, string_from_chars};
use talky_core::chat::{ChatMessage, ContentPart, MessageContent};
use talky_core::editdist::{check_similarity, levenshtein_distance};
use talky_core::formatting::{
    format_ms_timestamp, format_timestamp, level_filter_from_u8, sanitize_filename, strip_tags,
    truncate_str, LogLevelFilter,
};
use talky_core::platform::{
    app_name, contains_sub, filter_meeting_apps, get_icon_path, AppTheme, PlatformCapabilities,
    TrayIconState,
};

#[test]
fn test_format_timestamp() {
    assert_eq!(format_timestamp(0), "00:00");
    assert_eq!(format_timestamp(7_500_000), "02:05");
    assert_eq!(format_timestamp(59_000), "00:00");
    assert_eq!(format_timestamp(60_000), "00:01");
}

#[test]
fn test_format_ms_timestamp() {
    assert_eq!(format_ms_timestamp(0), "00:00");
    assert_eq!(format_ms_timestamp(65_000), "01:05");
    assert_eq!(format_ms_timestamp(3_661_000), "01:01:01");
    assert_eq!(format_ms_timestamp(3_599_000), "59:59");
}

#[test]
fn test_sanitize_filename() {
    assert_eq!(sanitize_filename("a/b\\c:d*e?f\"g<h>i|j"), "a_b_c_d_e_f_g_h_i_j");
    assert_eq!(sanitize_filename("plain name.md"), "plain name.md");
}

#[test]
fn test_strip_tags() {
    assert_eq!(strip_tags("[ai] hello\n[noted]world\n  plain"), "hello\nworld\nplain");
    assert_eq!(strip_tags("[ai][ai]twice"), "twice");
    assert_eq!(strip_tags("[noted][ai]mixed"), "[ai]mixed");
    assert_eq!(strip_tags("no tags"), "no tags");
}

#[test]
fn test_truncate_str() {
    assert_eq!(truncate_str("hello", 10), "hello");
    assert_eq!(truncate_str("hello", 3), "hel");
    // the accented character takes two bytes; cutting inside it backs up
    assert_eq!(truncate_str("h\u{e9}llo", 2), "h");
    assert_eq!(truncate_str("h\u{e9}llo", 3), "h\u{e9}");
}

#[test]
fn test_level_filter_from_u8() {
    assert_eq!(level_filter_from_u8(0), LogLevelFilter::Off);
    assert_eq!(level_filter_from_u8(1), LogLevelFilter::Error);
    assert_eq!(level_filter_from_u8(2), LogLevelFilter::Warn);
    assert_eq!(level_filter_from_u8(3), LogLevelFilter::Info);
    assert_eq!(level_filter_from_u8(4), LogLevelFilter::Debug);
    assert_eq!(level_filter_from_u8(5), LogLevelFilter::Trace);
    assert_eq!(level_filter_from_u8(200), LogLevelFilter::Trace);
}

#[test]
fn test_levenshtein_and_similarity() {
    assert_eq!(levenshtein_distance("kitten", "sitting"), 3);
    assert_eq!(levenshtein_distance("abc", "abc"), 0);
    // similarity of kitten/sitting is 1 - 3/7 which is about 571 thousandths
    assert!(check_similarity("kitten", "sitting", 571));
    assert!(!check_similarity("kitten", "sitting", 572));
}

#[test]
fn test_char_helpers() {
    assert_eq!(chars_of("ab\u{e9}"), vec!['a', 'b', '\u{e9}']);
    assert_eq!(string_from_chars(&vec!['h', 'i']), "hi");
    assert_eq!(lower_chars("HeLLo"), vec!['h', 'e', 'l', 'l', 'o']);
    assert!(str_chars_eq("same", "same"));
    assert!(!str_chars_eq("same", "sane"));
}

#[test]
fn test_contains_sub() {
    assert!(contains_sub("us.zoom.xos.extra", "zoom"));
    assert!(!contains_sub("short", "longer pattern"));
    assert!(contains_sub("anything", ""));
}

#[test]
fn test_filter_meeting_apps() {
    let apps = vec![
        "us.zoom.xos".to_string(),
        "com.example.editor".to_string(),
        "com.microsoft.teams.helper".to_string(),
    ];
    let kept = filter_meeting_apps(&apps);
    assert_eq!(kept, vec!["us.zoom.xos".to_string(), "com.microsoft.teams.helper".to_string()]);
}

#[test]
fn test_app_name() {
    assert_eq!(app_name("us.zoom.xos"), "Zoom");
    assert_eq!(app_name("com.microsoft.teams"), "Teams");
    assert_eq!(app_name("org.mozilla.firefox"), "Firefox");
    assert_eq!(app_name("com.unknown.app"), "Meeting app");
}

#[test]
fn test_get_icon_path() {
    assert_eq!(get_icon_path(AppTheme::Dark, TrayIconState::Idle), "resources/tray_idle.png");
    assert_eq!(
        get_icon_path(AppTheme::Light, TrayIconState::Recording),
        "resources/tray_recording_dark.png"
    );
    assert_eq!(get_icon_path(AppTheme::Colored, TrayIconState::Idle), "resources/talky.png");
}

#[test]
fn test_platform_capabilities() {
    let mac = PlatformCapabilities::for_os("macos", true);
    assert!(mac.speaker_capture && mac.meeting_detection && mac.apple_intelligence);
    let win = PlatformCapabilities::for_os("windows", false);
    assert!(win.speaker_capture && !win.meeting_detection);
    let linux = PlatformCapabilities::for_os("linux", false);
    assert!(!linux.speaker_capture);
    assert_eq!(linux.os, "linux");
}

#[test]
fn test_chat_message_constructors() {
    let m = ChatMessage::text("user".to_string(), "hi".to_string());
    assert_eq!(m.role, "user");
    match m.content {
        MessageContent::Text(t) => assert_eq!(t, "hi"),
        _ => panic!("expected text content"),
    }
    let m = ChatMessage::multimodal(
        "user".to_string(),
        vec![ContentPart::Text { text: "see this".to_string() }],
    );
    match m.content {
        MessageContent::Parts(p) => assert_eq!(p.len(), 1),
        _ => panic!("expected parts"),
    }
}
