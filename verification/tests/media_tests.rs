use vox::audio::{patch_wav_header, queue_rate_mismatch, reopen_stream_for};
use vox::catalog::TrackTags;
use vox::metadata::{
    format_codec, is_dsf, is_supported, parse_i32_or_zero, parse_u32_or_zero, probe_codec,
    AudioFormat,
};
use vox::playlist::Playlist;
use vox::tui::nav::{Focus, InputMode};
use vox::tui::theme::{Rgb, ThemeKind, ThemePalette};
use vox::tui::view::{
    album_is_playing, album_row, lyrics_scroll, album_track_count, bottom_bar_gaps, bottom_bar_parts,
    browser_row, clamp_selection, help_text, meta_label, removed_status, rescan_status,
    scan_status, scroll_offset, top_bar_text, track_list_title, track_row,
};
use vox::probe::{read_probe_output, ProbeError};
use vox::utils::lrc::{first_lyrics, is_lyrics_key, lyrics_from_text, LrcFile};

fn wav(data_size_field: u32, payload: usize) -> Vec<u8> {
    let mut v = Vec::new();
    v.extend_from_slice(b"RIFF");
    v.extend_from_slice(&0xFFFF_FFFFu32.to_le_bytes());
    v.extend_from_slice(b"WAVE");
    v.extend_from_slice(b"fmt ");
    v.extend_from_slice(&16u32.to_le_bytes());
    v.extend_from_slice(&[1, 0, 2, 0, 0x44, 0xac, 0, 0, 0x10, 0xb1, 2, 0, 4, 0, 16, 0]);
    v.extend_from_slice(b"data");
    v.extend_from_slice(&data_size_field.to_le_bytes());
    v.extend(std::iter::repeat(7u8).take(payload));
    v
}

fn le(d: &[u8], i: usize) -> u32 {
    u32::from_le_bytes([d[i], d[i + 1], d[i + 2], d[i + 3]])
}

#[test]
fn wav_header_sizes_are_repaired() {
    let mut d = wav(0xFFFF_FFFF, 100);
    patch_wav_header(&mut d);
    assert_eq!(le(&d, 4), (d.len() - 8) as u32);
    assert_eq!(le(&d, 40), 100);
    assert_eq!(&d[0..4], b"RIFF");
    assert_eq!(&d[36..40], b"data");
    assert!(d[44..].iter().all(|b| *b == 7));
}

#[test]
fn wav_patch_twice_changes_nothing_more() {
    let mut once = wav(0xFFFF_FFFF, 37);
    patch_wav_header(&mut once);
    let mut twice = once.clone();
    patch_wav_header(&mut twice);
    assert_eq!(once, twice);
}

#[test]
fn wav_data_of_known_size_is_kept() {
    let mut d = wav(12, 100);
    patch_wav_header(&mut d);
    assert_eq!(le(&d, 4), (d.len() - 8) as u32);
    assert_eq!(le(&d, 40), 12);
}

#[test]
fn non_wav_bytes_are_left_alone() {
    let mut d = b"OggS this is not a wav file at all".to_vec();
    let before = d.clone();
    patch_wav_header(&mut d);
    assert_eq!(d, before);
    let mut short = b"RIFF".to_vec();
    patch_wav_header(&mut short);
    assert_eq!(short, b"RIFF".to_vec());
    let mut header_only = b"RIFF\0\0\0\0WAVE".to_vec();
    patch_wav_header(&mut header_only);
    assert_eq!(le(&header_only, 4), 4);
}

#[test]
fn stream_reopening_rules() {
    assert!(reopen_stream_for(false, 96000, 44100));
    assert!(!reopen_stream_for(false, 44100, 44100));
    assert!(!reopen_stream_for(true, 96000, 44100));
    assert!(!reopen_stream_for(false, 0, 44100));
    assert!(!reopen_stream_for(false, 48000, 0));
    assert!(queue_rate_mismatch(96000, 44100));
    assert!(!queue_rate_mismatch(44100, 44100));
    assert!(!queue_rate_mismatch(0, 44100));
    assert!(!queue_rate_mismatch(44100, 0));
}

#[test]
fn supported_audio_extensions() {
    assert!(is_supported("/music/a.flac"));
    assert!(is_supported("/music/a.FLAC"));
    assert!(is_supported("song.Mp3"));
    assert!(is_supported("x.opus"));
    assert!(is_supported("x.dsf"));
    assert!(is_supported("x.aiff"));
    assert!(is_supported("/music/song.alac"));
    assert!(is_supported("song.ALAC"));
    assert!(!is_supported("cover.jpg"));
    assert!(!is_supported("/music/flac"));
    assert!(!is_supported("/music/.flac"));
    assert!(is_dsf("/music/a.DSF"));
    assert!(is_dsf("b.dsf"));
    assert!(!is_dsf("b.dff"));
    assert!(!is_dsf("dsf"));
}

#[test]
fn codec_names() {
    assert_eq!(format_codec(&AudioFormat::Flac), "FLAC");
    assert_eq!(format_codec(&AudioFormat::Mpeg), "MP3");
    assert_eq!(format_codec(&AudioFormat::Mp4), "AAC (M4A)");
    assert_eq!(format_codec(&AudioFormat::Vorbis), "OGG Vorbis");
    assert_eq!(format_codec(&AudioFormat::WavPack), "WavPack");
    assert_eq!(format_codec(&AudioFormat::Custom("Xyz".to_string())), "Custom(\"Xyz\")");
    for name in ["a\"b", "back\\slash", "tab\there", "new\nline", "\u{7f}", "\u{301}x", "caf\u{e9}"] {
        assert_eq!(format_codec(&AudioFormat::Custom(name.to_string())), format!("Custom({name:?})"));
    }
    assert_eq!(probe_codec(Some("dsd_lsbf_planar")), "DSD");
    assert_eq!(probe_codec(Some("dsd_msbf")), "DSD");
    assert_eq!(probe_codec(Some("alac")), "ALAC");
    assert_eq!(probe_codec(Some("pcm_s24le")), "PCM_S24LE");
    assert_eq!(probe_codec(None), "UNKNOWN");
}

#[test]
fn numbers_from_prober_fields() {
    assert_eq!(parse_u32_or_zero("44100"), 44100);
    assert_eq!(parse_u32_or_zero("+7"), 7);
    assert_eq!(parse_u32_or_zero("4294967295"), u32::MAX);
    assert_eq!(parse_u32_or_zero("4294967296"), 0);
    assert_eq!(parse_u32_or_zero("-1"), 0);
    assert_eq!(parse_u32_or_zero(" 12"), 0);
    assert_eq!(parse_u32_or_zero(""), 0);
    assert_eq!(parse_u32_or_zero("N/A"), 0);
    assert_eq!(parse_i32_or_zero("-42"), -42);
    assert_eq!(parse_i32_or_zero("2147483647"), i32::MAX);
    assert_eq!(parse_i32_or_zero("-2147483648"), i32::MIN);
    assert_eq!(parse_i32_or_zero("2147483648"), 0);
    assert_eq!(parse_i32_or_zero("1975"), 1975);
    assert_eq!(parse_i32_or_zero("-"), 0);
    for s in ["0", "17", "+17", "-17", "99999999999", "1e3", "007", "+", "--1"] {
        assert_eq!(parse_u32_or_zero(s), s.parse::<u32>().unwrap_or(0), "{s}");
        assert_eq!(parse_i32_or_zero(s), s.parse::<i32>().unwrap_or(0), "{s}");
    }
}

#[test]
fn synced_lyrics_repeat_tags_and_sort() {
    let f = LrcFile::parse("[ar:Queen]\n[00:12.50][00:30.00]Chorus\n  [00:20.00]  Verse  \n\n[01:02.5]Late\n");
    assert!(f.is_synced);
    let got: Vec<(u64, &str)> = f.lines.iter().map(|l| (l.time_ms, l.text.as_str())).collect();
    assert_eq!(got, vec![(12500, "Chorus"), (20000, "Verse"), (30000, "Chorus"), (62500, "Late")]);
}

#[test]
fn lyrics_timestamp_fractions() {
    let f = LrcFile::parse("[00:01.05]a\n[00:02.123]b\n[00:03]c\n[00:04,5]d\n");
    let times: Vec<u64> = f.lines.iter().map(|l| l.time_ms).collect();
    assert_eq!(times, vec![1050, 2123, 3000, 4500]);
}

#[test]
fn plain_lyrics_three_seconds_apart() {
    let f = LrcFile::parse("\n  one \n\ntwo\nthree\n");
    assert!(!f.is_synced);
    let got: Vec<(u64, &str)> = f.lines.iter().map(|l| (l.time_ms, l.text.as_str())).collect();
    assert_eq!(got, vec![(0, "one"), (3000, "two"), (6000, "three")]);
    let empty = LrcFile::parse("   \n\n");
    assert!(empty.lines.is_empty());
    assert!(!empty.is_synced);
}

#[test]
fn current_lyrics_line() {
    let f = LrcFile::parse("[00:12.50]Line one\n[00:15.80]Line two\n[00:20.10]Line three\n");
    assert_eq!(f.current_line_index(0), None);
    assert_eq!(f.current_line_index(12_499), None);
    assert_eq!(f.current_line_index(12_500), Some(0));
    assert_eq!(f.current_line_index(16_000), Some(1));
    assert_eq!(f.current_line_index(99_999), Some(2));
    let none = LrcFile::parse("");
    assert_eq!(none.current_line_index(5_000), None);
}

#[test]
fn lyrics_found_in_text() {
    assert!(lyrics_from_text("   \n ").is_none());
    assert!(lyrics_from_text("").is_none());
    let f = lyrics_from_text("[00:01.00]hi").unwrap();
    assert!(f.is_synced);
    assert_eq!(f.lines.len(), 1);
    assert!(is_lyrics_key("Lyrics"));
    assert!(is_lyrics_key("UnsyncLyrics"));
    assert!(is_lyrics_key("Unknown(\"USLT\")"));
    assert!(is_lyrics_key("SYLT"));
    assert!(!is_lyrics_key("TrackTitle"));
}

#[test]
fn theme_names_and_round_trip() {
    assert_eq!(ThemeKind::Catppuccin.name(), "Catppuccin Mocha");
    assert_eq!(ThemeKind::Gruvbox.name(), "Gruvbox Dark");
    assert_eq!(ThemeKind::from_str("Tokyo Night"), ThemeKind::TokyoNight);
    assert_eq!(ThemeKind::from_str("tokyo_night"), ThemeKind::TokyoNight);
    for k in [
        ThemeKind::Catppuccin,
        ThemeKind::Nord,
        ThemeKind::Dracula,
        ThemeKind::TokyoNight,
        ThemeKind::Gruvbox,
        ThemeKind::Cyberpunk,
    ] {
        assert_eq!(ThemeKind::from_str(k.to_str()), k);
    }
}

#[test]
fn theme_palettes() {
    let p = ThemePalette::for_kind(ThemeKind::Catppuccin);
    assert_eq!(p.accent, Rgb { r: 137, g: 180, b: 250 });
    assert_eq!(p.progress_track, Rgb { r: 49, g: 50, b: 68 });
    let n = ThemePalette::for_kind(ThemeKind::Nord);
    assert_eq!(n.progress_fill, Rgb { r: 129, g: 161, b: 193 });
    let c = ThemePalette::for_kind(ThemeKind::Cyberpunk);
    assert_eq!(c.border_focused, Rgb { r: 0, g: 255, b: 240 });
    assert_ne!(p, n);
}

#[test]
fn new_playlist_is_empty() {
    let p = Playlist::new("road trip");
    assert_eq!(p.name, "road trip");
    assert!(p.tracks.is_empty());
}

fn tags(path: &str, album: &str) -> TrackTags {
    TrackTags {
        path: path.to_string(),
        title: String::new(),
        artist: String::new(),
        album: album.to_string(),
        track_number: None,
        disc_number: None,
    }
}

#[test]
fn list_scrolling_and_selection() {
    assert_eq!(scroll_offset(0, 10), 0);
    assert_eq!(scroll_offset(9, 10), 0);
    assert_eq!(scroll_offset(10, 10), 1);
    assert_eq!(scroll_offset(25, 10), 16);
    assert_eq!(scroll_offset(3, 0), 4);
    assert_eq!(clamp_selection(3, 10), 3);
    assert_eq!(clamp_selection(12, 10), 9);
    assert_eq!(clamp_selection(5, 0), 0);
}

#[test]
fn album_list_rows() {
    let ts = vec![tags("/a/1", "Opera"), tags("/a/2", "Opera"), tags("/b/1", "Arrival")];
    assert_eq!(album_track_count(&ts, "Opera"), 2);
    assert_eq!(album_track_count(&ts, "None"), 0);
    assert!(album_is_playing(&ts, "Opera", "/a/2"));
    assert!(!album_is_playing(&ts, "Arrival", "/a/2"));
    assert_eq!(album_row("Opera", 2, true, true), "\u{25b8} Opera  (2 tracks) \u{266a}");
    assert_eq!(album_row("Arrival", 1, false, false), "  Arrival  (1 tracks)");
}

#[test]
fn track_list_rows() {
    assert_eq!(track_row(0, "Intro", "1:05", 24, true, false), "\u{25b8} 01. Intro       1:05");
    assert_eq!(track_row(11, "Outro", "10:00", 14, false, true), "  12. Outro 10:00 \u{266a}");
    assert_eq!(track_row(0, "Long title", "0:01", 16, false, false), "  01. Long title  0:01");
    assert_eq!(browser_row("Music", true, false), "  Music/");
    assert_eq!(browser_row("..", true, true), "\u{25b8} ../");
    assert_eq!(browser_row("x.txt", false, false), "  x.txt");
    assert_eq!(meta_label("Name", 7), "     Name:");
    assert_eq!(meta_label("Bitrate", 7), "  Bitrate:");
}

#[test]
fn bars_and_help() {
    assert_eq!(bottom_bar_gaps(80, 10, 20, 30), (20, 0));
    assert_eq!(bottom_bar_gaps(100, 10, 20, 30), (30, 10));
    assert_eq!(bottom_bar_gaps(10, 10, 20, 30), (0, 0));
    assert_eq!(
        top_bar_text(InputMode::Normal, "", true, false, "", "", 0, 0),
        " [/] add folder  [x] remove path  [F] search \u{1f501} repeat | Tab to switch | Q to quit"
    );
    assert_eq!(top_bar_text(InputMode::Normal, "Scanned 3 tracks", false, true, "", "", 0, 0),
        " Scanned 3 tracks");
    assert_eq!(top_bar_text(InputMode::Search, "", false, false, "que", "", 0, 0), " Search: que");
    assert_eq!(top_bar_text(InputMode::Browse, "", false, false, "", "/home/me", 0, 0),
        " Select folder: /home/me");
    assert_eq!(top_bar_text(InputMode::RemovePath, "", false, false, "", "", 1, 3),
        " Select path to remove (2/3)");
    assert_eq!(help_text(InputMode::RemovePath, Focus::Albums),
        " [\u{2191}\u{2193}] select  [Enter] remove from library  [Esc] cancel");
    assert!(help_text(InputMode::Normal, Focus::Tracks).contains("[N]next"));
    assert!(help_text(InputMode::Normal, Focus::Albums).contains("[Enter] select"));
}

#[test]
fn bottom_bar_texts() {
    let (l, c, r) = bottom_bar_parts(42, Some(("Bohemian Rhapsody", "Queen")), false, 80, Some("FLAC"), "1:05", "5:54");
    assert_eq!(l, " 42 items ");
    assert_eq!(c, " Bohemian Rhapsody \u{2014} Queen ");
    assert_eq!(r, "  Vol: 80% FLAC | 1:05 5:54 ");
    let (l, c, r) = bottom_bar_parts(0, None, true, 0, None, "0:00", "0:00");
    assert_eq!(l, " 0 items ");
    assert_eq!(c, " No track playing ");
    assert_eq!(r, "  MUTED -- | 0:00 0:00 ");
    assert_eq!(track_list_title("Opera"), " Tracks \u{2014} Opera");
}

#[test]
fn status_lines() {
    assert_eq!(scan_status(12, 0, "/music"), " Added 12 tracks from /music");
    assert_eq!(scan_status(12, 3, "/music"), " Added 12 tracks from /music (3 skipped)");
    assert_eq!(rescan_status(5, 7, 0), " Rescanned \u{2014} 5 tracks refreshed, 7 new");
    assert_eq!(rescan_status(5, 7, 1), " Rescanned \u{2014} 5 tracks refreshed, 7 new (1 skipped)");
    assert_eq!(removed_status(0), " Removed 0 tracks");
}

#[test]
fn all_themes_in_order() {
    assert_eq!(ThemeKind::ALL.len(), 6);
    let names: Vec<&str> = ThemeKind::ALL.iter().map(|k| k.name()).collect();
    assert_eq!(
        names,
        vec!["Catppuccin Mocha", "Nord", "Dracula", "Tokyo Night", "Gruvbox Dark", "Cyberpunk Neon"]
    );
    for i in 0..6 {
        assert_eq!(ThemeKind::ALL[i].next(), ThemeKind::ALL[(i + 1) % 6]);
    }
}

#[test]
fn probe_report_is_read() {
    let json = br#"{"streams":[{"codec_name":"dsd_lsbf_planar","sample_rate":"2822400",
        "tags":{"title":"Stream Title","genre":"Jazz"}}],
        "format":{"duration":"354.120000","bit_rate":"5644800",
        "tags":{"title":"Format Title","artist":"Queen","date":"1975"}}}"#;
    let t = read_probe_output(json).unwrap();
    assert_eq!(t.title, "Format Title");
    assert_eq!(t.artist, "Queen");
    assert_eq!(t.album, "");
    assert_eq!(t.genre, "Jazz");
    assert_eq!(t.year, 1975);
    assert_eq!(t.bitrate, 5_644_800);
    assert_eq!(t.sample_rate, 2_822_400);
    assert_eq!(t.codec, "DSD");
    assert_eq!(t.duration_text.as_deref(), Some("354.120000"));

    let bare = br#"{"streams":[{"codec_name":"flac","sample_rate":"x"}],"format":{"tags":{"date":"n/a"}}}"#;
    let t = read_probe_output(bare).unwrap();
    assert_eq!(t.codec, "FLAC");
    assert_eq!(t.sample_rate, 0);
    assert_eq!(t.bitrate, 0);
    assert_eq!(t.year, 0);
    assert_eq!(t.title, "");
    assert_eq!(t.duration_text, None);

    let none = br#"{}"#;
    assert_eq!(read_probe_output(none).unwrap().codec, "UNKNOWN");
    assert!(matches!(read_probe_output(b"not json"), Err(ProbeError::Unparsable)));
}

#[test]
fn lyrics_source_priority() {
    let cands = vec![None, Some("   ".to_string()), Some("plain words".to_string()), Some("[00:01.00]x".to_string())];
    let f = first_lyrics(&cands).unwrap();
    assert!(!f.is_synced);
    assert_eq!(f.lines[0].text, "plain words");
    assert!(first_lyrics(&vec![None, Some(String::new())]).is_none());
    assert!(first_lyrics(&Vec::new()).is_none());
}

#[test]
fn lyrics_panel_scroll() {
    assert_eq!(lyrics_scroll(None, 10), 0);
    assert_eq!(lyrics_scroll(Some(3), 10), 0);
    assert_eq!(lyrics_scroll(Some(5), 10), 0);
    assert_eq!(lyrics_scroll(Some(12), 10), 7);
    assert_eq!(lyrics_scroll(Some(12), 0), 12);
}

#[test]
fn probe_streams_must_be_an_array() {
    let json = br#"{"streams":{"0":{"codec_name":"flac","sample_rate":"44100","tags":{"title":"T"}}},
        "format":{}}"#;
    let t = read_probe_output(json).unwrap();
    assert_eq!(t.codec, "UNKNOWN");
    assert_eq!(t.sample_rate, 0);
    assert_eq!(t.title, "");
    let empty = br#"{"streams":[],"format":{"tags":{}}}"#;
    assert_eq!(read_probe_output(empty).unwrap().codec, "UNKNOWN");
}
