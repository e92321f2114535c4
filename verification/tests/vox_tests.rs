use vox::tui::theme::ThemeKind;
use vox::utils;
use vox::utils::lrc::LrcFile;
use vox::utils::text;

#[test]
fn test_lrc_synced_vs_unsynced() {
    // 1. Synchronized LRC
    let synced_lrc = r#"
[00:12.50]Line one
[00:15.80]Line two
[00:20.10]Line three
"#;
    let parsed_synced = LrcFile::parse(synced_lrc);
    assert!(parsed_synced.is_synced, "Should detect synced timestamps");
    assert_eq!(parsed_synced.lines.len(), 3);
    assert!((parsed_synced.lines[0].time_ms as f64 / 1000.0 - 12.5).abs() < 0.01);
    assert!((parsed_synced.lines[1].time_ms as f64 / 1000.0 - 15.8).abs() < 0.01);

    // 2. Unsynchronized embedded lyrics
    let unsynced_lrc = r#"
First line of lyrics
Second line of lyrics
Third line of lyrics
"#;
    let parsed_unsynced = LrcFile::parse(unsynced_lrc);
    assert!(!parsed_unsynced.is_synced, "Should detect unsynced plain text lyrics");
    assert_eq!(parsed_unsynced.lines.len(), 3);
}

#[test]
fn test_formatters() {
    assert_eq!(utils::format_duration(0.0_f64 as u64), "0:00");
    assert_eq!(utils::format_duration(65.0_f64 as u64), "1:05");
    assert_eq!(utils::format_duration(3665.0_f64 as u64), "1:01:05");

    assert_eq!(utils::format_bitrate(320), "320 kbps");
    assert_eq!(utils::format_sample_rate(44100), "44.1 kHz");
    assert_eq!(utils::format_sample_rate(96000), "96.0 kHz");
    assert_eq!(utils::format_sample_rate(192000), "192.0 kHz");
}

#[test]
fn test_theme_parsing() {
    assert_eq!(ThemeKind::from_str("nord"), ThemeKind::Nord);
    assert_eq!(ThemeKind::from_str("DRACULA"), ThemeKind::Dracula);
    assert_eq!(ThemeKind::from_str("tokyonight"), ThemeKind::TokyoNight);
    assert_eq!(ThemeKind::from_str("gruvbox"), ThemeKind::Gruvbox);
    assert_eq!(ThemeKind::from_str("cyberpunk"), ThemeKind::Cyberpunk);
    assert_eq!(ThemeKind::from_str("catppuccin"), ThemeKind::Catppuccin);
    assert_eq!(ThemeKind::from_str("unknown"), ThemeKind::Catppuccin);

    assert_eq!(ThemeKind::Nord.to_str(), "nord");
    assert_eq!(ThemeKind::Catppuccin.to_str(), "catppuccin");
}

#[test]
fn test_unicode_grapheme_width() {
    // Tamil cluster width should be 1 column
    assert_eq!(text::grapheme_width("கா"), 1);
    assert_eq!(text::grapheme_width("ழ்"), 1);

    // ASCII should be 1 column
    assert_eq!(text::grapheme_width("A"), 1);

    // CJK should be 2 columns
    assert_eq!(text::grapheme_width("中"), 2);

    let path = "/home/madara/Music/VeryLongFolderName/AnotherFolder/song.flac";
    let truncated = text::truncate_path_safe(path, 25);
    assert!(text::str_display_width(&truncated) <= 25);
    assert!(truncated.starts_with(".."));
}
