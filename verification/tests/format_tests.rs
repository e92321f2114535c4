use vox::commands::{
    list_kind, playlist_file_name, playlist_name_of_file, playlist_summary_line,
    playlist_track_line, scan_folder, search_result_line, track_list_line, ListKind,
};
use vox::utils::text::{
    grapheme_width, span_cells, str_display_width, text_cells, truncate_path, truncate_path_safe,
    truncate_to_width,
};
use vox::utils::{format_bitrate, format_duration, format_sample_rate};

#[test]
fn duration_formats_minutes_and_hours() {
    assert_eq!(format_duration(59), "0:59");
    assert_eq!(format_duration(60), "1:00");
    assert_eq!(format_duration(599), "9:59");
    assert_eq!(format_duration(3599), "59:59");
    assert_eq!(format_duration(3600), "1:00:00");
    assert_eq!(format_duration(36061), "10:01:01");
    assert_eq!(format_duration(354), "5:54");
}

#[test]
fn duration_matches_std_formatting() {
    for secs in (0u64..200_000).step_by(7) {
        let h = secs / 3600;
        let m = (secs % 3600) / 60;
        let s = secs % 60;
        let expected = if h > 0 { format!("{h}:{m:02}:{s:02}") } else { format!("{m}:{s:02}") };
        assert_eq!(format_duration(secs), expected);
    }
    let big = u64::MAX;
    let expected = format!("{}:{:02}:{:02}", big / 3600, (big % 3600) / 60, big % 60);
    assert_eq!(format_duration(big), expected);
}

#[test]
fn bitrate_formats_kbps() {
    assert_eq!(format_bitrate(0), "0 kbps");
    assert_eq!(format_bitrate(1411), "1411 kbps");
    assert_eq!(format_bitrate(u32::MAX), "4294967295 kbps");
}

#[test]
fn sample_rate_below_one_khz_is_in_hz() {
    assert_eq!(format_sample_rate(0), "0 Hz");
    assert_eq!(format_sample_rate(999), "999 Hz");
    assert_eq!(format_sample_rate(1000), "1.0 kHz");
    assert_eq!(format_sample_rate(22050), "22.1 kHz");
    assert_eq!(format_sample_rate(88200), "88.2 kHz");
}

#[test]
fn sample_rate_matches_float_rounding() {
    let mut check = |hz: u32| {
        let expected = if hz >= 1000 {
            format!("{:.1} kHz", hz as f64 / 1000.0)
        } else {
            format!("{hz} Hz")
        };
        assert_eq!(format_sample_rate(hz), expected, "at {hz} Hz");
    };
    for hz in 0u32..400_000 {
        check(hz);
    }
    for hz in [
        44_150, 44_050, 1_050, 2_050, 8_250, 12_345_678, 99_999_950, 1_000_000_050, u32::MAX - 1,
        u32::MAX,
    ] {
        check(hz);
    }
    let mut hz: u32 = 400_000;
    while hz < u32::MAX - 9_973_177 {
        check(hz);
        hz += 9_973_177;
    }
}

#[test]
fn grapheme_widths_of_scripts() {
    assert_eq!(grapheme_width(""), 0);
    assert_eq!(grapheme_width("e\u{301}"), 1);
    assert_eq!(grapheme_width("\u{1F600}"), 2);
    assert_eq!(grapheme_width("\u{7}"), 0);
    assert_eq!(grapheme_width("\u{915}\u{94d}"), 1);
}

#[test]
fn display_width_adds_clusters() {
    assert_eq!(str_display_width(""), 0);
    assert_eq!(str_display_width("abc"), 3);
    assert_eq!(str_display_width("h\u{e9}llo"), 5);
    assert_eq!(str_display_width("\u{65e5}\u{672c}\u{8a9e}"), 6);
    assert_eq!(str_display_width("\u{b95}\u{bbe}\u{b9f}\u{bc1}"), 2);
}

#[test]
fn truncation_keeps_whole_clusters() {
    assert_eq!(truncate_to_width("\u{65e5}\u{672c}\u{8a9e}", 5), "\u{65e5}\u{672c}");
    assert_eq!(truncate_to_width("hello world", 5), "hello");
    assert_eq!(truncate_to_width("abc", 0), "");
    assert_eq!(truncate_to_width("abc", 10), "abc");
    assert_eq!(truncate_to_width("abc", 3), "abc");
    assert_eq!(truncate_to_width("\u{65e5}\u{672c}", 4), "\u{65e5}\u{672c}");
    assert_eq!(truncate_to_width("", 0), "");
    assert_eq!(grapheme_width("A"), 1);
    assert_eq!(grapheme_width("~"), 1);
}

#[test]
fn path_truncation_from_the_front() {
    let path = "/home/madara/Music/VeryLongFolderName/AnotherFolder/song.flac";
    assert_eq!(truncate_path_safe(path, 25), "..AnotherFolder/song.flac");
    assert_eq!(truncate_path_safe(path, 3), path);
    assert_eq!(truncate_path_safe("short", 25), "short");
    assert_eq!(truncate_path_safe("/\u{65e5}\u{672c}\u{8a9e}", 5), "..\u{8a9e}");

    assert_eq!(truncate_path("abcdefghij", 5), "..hij");
    assert_eq!(truncate_path("abc", 5), "abc");
    assert_eq!(truncate_path("abcdefghij", 2), "abcdefghij");
}

#[test]
fn text_cells_stop_at_the_line_end() {
    let (cells, used) = text_cells("ab\u{4e2d}", 0, 10);
    assert_eq!(cells, vec![(0, "a".to_string()), (1, "b".to_string()), (2, "\u{4e2d}".to_string())]);
    assert_eq!(used, 4);

    let (cells, used) = text_cells("ab\u{4e2d}", 0, 3);
    assert_eq!(cells, vec![(0, "a".to_string()), (1, "b".to_string())]);
    assert_eq!(used, 2);

    let (cells, used) = text_cells("a\u{7}b", 5, 10);
    assert_eq!(cells, vec![(5, "a".to_string()), (6, "b".to_string())]);
    assert_eq!(used, 2);
}

#[test]
fn span_cells_cut_the_last_span() {
    let spans = vec!["ab".to_string(), String::new(), "cdef".to_string()];
    let (cells, used) = span_cells(&spans, 0, 4);
    assert_eq!(cells, vec![(0, "ab".to_string(), 2, 0), (2, "cd".to_string(), 2, 2)]);
    assert_eq!(used, 4);

    let spans = vec!["ab".to_string(), "cd".to_string()];
    let (cells, used) = span_cells(&spans, 3, 10);
    assert_eq!(cells, vec![(3, "ab".to_string(), 2, 0), (5, "cd".to_string(), 2, 1)]);
    assert_eq!(used, 4);

    let spans = vec!["abc".to_string()];
    let (cells, used) = span_cells(&spans, 65534, 10);
    assert_eq!(cells, vec![(65534, "a".to_string(), 1, 0)]);
    assert_eq!(used, 1);
}

#[test]
fn list_kinds_of_the_list_command() {
    assert_eq!(list_kind("tracks"), Some(ListKind::Tracks));
    assert_eq!(list_kind("songs"), Some(ListKind::Tracks));
    assert_eq!(list_kind("albums"), Some(ListKind::Albums));
    assert_eq!(list_kind("artists"), Some(ListKind::Artists));
    assert_eq!(list_kind("Albums"), None);
    assert_eq!(list_kind(""), None);
}

#[test]
fn scan_folder_falls_back_to_the_music_folder() {
    assert_eq!(scan_folder(Some("/a".to_string()), Some("/b".to_string())), Some("/a".to_string()));
    assert_eq!(scan_folder(None, Some("/b".to_string())), Some("/b".to_string()));
    assert_eq!(scan_folder(None, None), None);
}

#[test]
fn playlist_file_names() {
    assert_eq!(playlist_file_name("road trip"), "road trip.json");
    assert_eq!(playlist_name_of_file("road trip.json"), Some("road trip".to_string()));
    assert_eq!(playlist_name_of_file("a.json.json"), Some("a".to_string()));
    assert_eq!(playlist_name_of_file("x.jsonpart.json"), Some("xpart".to_string()));
    assert_eq!(playlist_name_of_file("notes.txt"), None);
    assert_eq!(playlist_name_of_file("json"), None);
    assert_eq!(playlist_name_of_file(".json"), Some(String::new()));
}

#[test]
fn command_output_lines() {
    assert_eq!(track_list_line(0, "Queen", "Bohemian Rhapsody", "A Night at the Opera"),
        "   1. Queen - Bohemian Rhapsody [A Night at the Opera]");
    assert_eq!(track_list_line(12344, "A", "B", "C"), "12345. A - B [C]");
    assert_eq!(search_result_line("Queen", "Love of My Life", "A Night at the Opera", "3:39"),
        "  Queen - Love of My Life [A Night at the Opera] (3:39)");
    assert_eq!(playlist_summary_line("mix", 12), "  mix (12 tracks)");
    assert_eq!(playlist_track_line(1, "/music/a.flac"), "  2. /music/a.flac");
}

#[test]
fn text_cells_stay_within_the_line() {
    let text = "a\u{4e2d}b\u{301}\u{7}\u{65e5}\u{1F600}x\u{b95}\u{bbe}yz";
    for x in [0u16, 3, 65530] {
        for max_w in 0u16..14 {
            let (cells, used) = text_cells(text, x, max_w);
            let end = (x as u32 + max_w as u32).min(u16::MAX as u32);
            let mut next = x as u32;
            for (col, g) in &cells {
                let w = grapheme_width(g) as u32;
                assert!(w > 0);
                assert!(*col as u32 >= next);
                next = *col as u32 + w;
                assert!(next <= end);
            }
            assert_eq!(x as u32 + used as u32, next);
        }
    }
}
