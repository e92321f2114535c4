use vox::catalog::TrackTags;
use vox::tui::nav::{Action, Focus, InputMode, Key, NavState};
use vox::tui::theme::ThemeKind;

fn track(path: &str, title: &str, artist: &str, album: &str) -> TrackTags {
    TrackTags {
        path: path.to_string(),
        title: title.to_string(),
        artist: artist.to_string(),
        album: album.to_string(),
        track_number: None,
        disc_number: None,
    }
}

fn library() -> NavState {
    let tracks = vec![
        track("/music/queen/01.flac", "Death on Two Legs", "Queen", "Opera"),
        track("/music/queen/02.flac", "Lazing on a Sunday Afternoon", "Queen", "Opera"),
        track("/music/abba/01.flac", "When I Kissed the Teacher", "ABBA", "Arrival"),
        track("/music/queen/03.flac", "Bohemian Rhapsody", "Queen", "Opera"),
    ];
    NavState::new(
        tracks,
        vec!["Opera".to_string(), "Arrival".to_string()],
        vec!["/music/queen".to_string(), "/music/abba".to_string()],
        false,
        false,
        ThemeKind::Catppuccin,
    )
}

fn is_normal(m: InputMode) -> bool {
    matches!(m, InputMode::Normal)
}

#[test]
fn new_state_loads_the_first_album() {
    let nav = library();
    assert_eq!(nav.album_tracks, vec![0, 1, 3]);
    assert_eq!(nav.selected_album, 0);
    assert_eq!(nav.selected_track, 0);
    assert!(matches!(nav.focus, Focus::Albums));
    assert!(is_normal(nav.input_mode));
    assert_eq!(nav.remove_paths, nav.music_dirs);
}

#[test]
fn tab_twice_restores_focus() {
    let mut nav = library();
    let (a, clear) = nav.handle_key(Key::Tab, 0);
    assert!(matches!(a, Action::Nothing));
    assert!(clear);
    assert!(matches!(nav.focus, Focus::Tracks));
    nav.handle_key(Key::Tab, 0);
    assert!(matches!(nav.focus, Focus::Albums));
    nav.handle_key(Key::Right, 0);
    assert!(matches!(nav.focus, Focus::Tracks));
}

#[test]
fn moving_through_albums_loads_their_tracks() {
    let mut nav = library();
    nav.handle_key(Key::Down, 0);
    assert_eq!(nav.selected_album, 1);
    assert_eq!(nav.album_tracks, vec![2]);
    nav.handle_key(Key::Down, 0);
    assert_eq!(nav.selected_album, 1);
    nav.handle_key(Key::Up, 0);
    assert_eq!(nav.selected_album, 0);
    assert_eq!(nav.album_tracks, vec![0, 1, 3]);
    nav.handle_key(Key::Up, 0);
    assert_eq!(nav.selected_album, 0);
}

#[test]
fn enter_opens_album_then_plays_track() {
    let mut nav = library();
    let (a, _) = nav.handle_key(Key::Enter, 0);
    assert!(matches!(a, Action::Nothing));
    assert!(matches!(nav.focus, Focus::Tracks));
    nav.handle_key(Key::Down, 0);
    nav.handle_key(Key::Down, 0);
    nav.handle_key(Key::Down, 0);
    assert_eq!(nav.selected_track, 2);
    let (a, _) = nav.handle_key(Key::Enter, 0);
    assert!(matches!(a, Action::Play { track: 3, stop_first: false }));
}

#[test]
fn search_narrows_and_escape_restores() {
    let mut nav = library();
    nav.handle_key(Key::Char('f'), 0);
    assert!(matches!(nav.input_mode, InputMode::Search));
    assert_eq!(nav.search_results, vec![0, 1, 2, 3]);
    for c in "SUNDAY".chars() {
        nav.handle_key(Key::Char(c), 0);
    }
    assert_eq!(nav.search_query, "SUNDAY");
    assert_eq!(nav.search_results, vec![1]);
    let (a, _) = nav.handle_key(Key::Enter, 0);
    assert!(matches!(a, Action::Play { track: 1, stop_first: false }));
    nav.handle_key(Key::Backspace, 0);
    assert_eq!(nav.search_query, "SUNDA");
    nav.handle_key(Key::Esc, 0);
    assert!(is_normal(nav.input_mode));
    assert_eq!(nav.search_query, "");
    assert!(nav.search_results.is_empty());
}

#[test]
fn search_matches_artist_and_album() {
    let mut nav = library();
    nav.handle_key(Key::Char('F'), 0);
    for c in "abba".chars() {
        nav.handle_key(Key::Char(c), 0);
    }
    assert_eq!(nav.search_results, vec![2]);
    nav.handle_key(Key::Backspace, 0);
    nav.handle_key(Key::Backspace, 0);
    nav.handle_key(Key::Backspace, 0);
    nav.handle_key(Key::Backspace, 0);
    assert_eq!(nav.search_results, vec![0, 1, 2, 3]);
    for c in "opera".chars() {
        nav.handle_key(Key::Char(c), 0);
    }
    assert_eq!(nav.search_results, vec![0, 1, 3]);
}

#[test]
fn next_and_previous_tracks() {
    let mut nav = library();
    let a = nav.next_track(0);
    assert!(matches!(a, Action::Play { track: 1, stop_first: true }));
    assert_eq!(nav.selected_track, 1);
    let a = nav.previous_track();
    assert!(matches!(a, Action::Play { track: 0, stop_first: true }));
    let a = nav.previous_track();
    assert!(matches!(a, Action::Play { track: 3, stop_first: true }));
    assert_eq!(nav.selected_track, 2);
    let a = nav.next_track(0);
    assert!(matches!(a, Action::Stop));
    assert_eq!(nav.selected_track, 2);
}

#[test]
fn repeat_wraps_and_shuffle_uses_entropy() {
    let mut nav = library();
    let (a, _) = nav.handle_key(Key::Char('r'), 0);
    assert!(matches!(a, Action::SaveConfig));
    assert!(nav.repeat);
    nav.selected_track = 2;
    let (a, _) = nav.handle_key(Key::Char('n'), 0);
    assert!(matches!(a, Action::Play { track: 0, stop_first: true }));
    assert_eq!(nav.selected_track, 0);

    nav.handle_key(Key::Char('s'), 0);
    assert!(nav.shuffle);
    let a = nav.next_track(7);
    assert_eq!(nav.selected_track, 1);
    assert!(matches!(a, Action::Play { track: 1, stop_first: true }));
}

#[test]
fn playback_keys_ask_for_actions() {
    let mut nav = library();
    assert!(matches!(nav.handle_key(Key::Char(' '), 0).0, Action::TogglePause));
    assert!(matches!(nav.handle_key(Key::Char('k'), 0).0, Action::TogglePause));
    assert!(matches!(nav.handle_key(Key::Char('p'), 0).0, Action::RestartTrack));
    assert!(matches!(nav.handle_key(Key::Char('+'), 0).0, Action::VolumeUp));
    assert!(matches!(nav.handle_key(Key::Char('-'), 0).0, Action::VolumeDown));
    assert!(matches!(nav.handle_key(Key::Char('m'), 0).0, Action::ToggleMute));
    assert!(matches!(nav.handle_key(Key::Other, 0).0, Action::Nothing));
    match nav.handle_key(Key::Char('D'), 0).0 {
        Action::RemoveAlbumFolder(p) => assert_eq!(p, "/music/queen/01.flac"),
        _ => panic!("expected an album folder removal"),
    }
}

#[test]
fn quit_and_global_keys() {
    let mut nav = library();
    let (a, clear) = nav.handle_key(Key::CtrlR, 0);
    assert!(matches!(a, Action::Rescan));
    assert!(!clear);
    assert!(!nav.exit);
    let (_, clear) = nav.handle_key(Key::CtrlC, 0);
    assert!(!clear);
    assert!(nav.exit);

    let mut nav = library();
    nav.handle_key(Key::Char('Q'), 0);
    assert!(nav.exit);
}

#[test]
fn removing_a_music_folder_forgets_it() {
    let mut nav = library();
    nav.handle_key(Key::Char('x'), 0);
    assert!(matches!(nav.input_mode, InputMode::RemovePath));
    nav.handle_key(Key::Down, 0);
    nav.handle_key(Key::Down, 0);
    assert_eq!(nav.remove_path_selection, 1);
    match nav.handle_key(Key::Enter, 0).0 {
        Action::RemoveFolder(p) => assert_eq!(p, "/music/abba"),
        _ => panic!("expected a folder removal"),
    }
    assert!(is_normal(nav.input_mode));
    assert_eq!(nav.music_dirs, vec!["/music/queen".to_string()]);
    assert_eq!(nav.remove_paths, vec!["/music/queen".to_string()]);
    assert_eq!(nav.remove_path_selection, 0);

    nav.handle_key(Key::Char('X'), 0);
    nav.handle_key(Key::Esc, 0);
    assert!(is_normal(nav.input_mode));
    assert_eq!(nav.music_dirs, vec!["/music/queen".to_string()]);
}

#[test]
fn folder_browser_keys() {
    let mut nav = library();
    let (a, _) = nav.handle_key(Key::Char('/'), 0);
    assert!(matches!(a, Action::OpenBrowser));
    assert!(matches!(nav.input_mode, InputMode::Browse));
    nav.set_browser(true, vec!["b".to_string(), "A".to_string(), "c".to_string(), "a".to_string()]);
    let names: Vec<&str> = nav.browser_entries.iter().map(|(n, _)| n.as_str()).collect();
    assert_eq!(names, vec!["..", "A", "a", "b", "c"]);
    assert!(nav.browser_entries.iter().all(|(_, d)| *d));
    assert!(matches!(nav.handle_key(Key::Enter, 0).0, Action::BrowserUp));
    nav.handle_key(Key::Down, 0);
    match nav.handle_key(Key::Enter, 0).0 {
        Action::BrowserInto(n) => assert_eq!(n, "A"),
        _ => panic!("expected to enter a folder"),
    }
    assert!(matches!(nav.handle_key(Key::Esc, 0).0, Action::BrowserUp));
    let (a, _) = nav.handle_key(Key::Char('s'), 0);
    assert!(matches!(a, Action::ScanBrowserDir));
    assert!(is_normal(nav.input_mode));

    nav.handle_key(Key::Char('/'), 0);
    nav.set_browser(false, vec![]);
    assert!(nav.browser_entries.is_empty());
    assert!(matches!(nav.handle_key(Key::Esc, 0).0, Action::Nothing));
    assert!(is_normal(nav.input_mode));
}

#[test]
fn clicks_select_and_double_click_plays() {
    let mut nav = library();
    let a = nav.handle_click(50, 3, 100, 30, false);
    assert!(matches!(a, Action::Nothing));
    assert!(matches!(nav.focus, Focus::Albums));
    assert_eq!(nav.selected_album, 1);
    assert_eq!(nav.album_tracks, vec![2]);

    let a = nav.handle_click(50, 9, 100, 30, false);
    assert!(matches!(a, Action::Nothing));
    assert_eq!(nav.selected_album, 1);

    nav.handle_click(50, 2, 100, 30, false);
    assert_eq!(nav.selected_album, 0);
    let a = nav.handle_click(5, 13, 100, 30, true);
    assert!(matches!(nav.focus, Focus::Tracks));
    assert_eq!(nav.selected_track, 1);
    assert!(matches!(a, Action::Play { track: 1, stop_first: false }));

    let a = nav.handle_click(5, 0, 100, 30, false);
    assert!(matches!(a, Action::Nothing));
    assert_eq!(nav.selected_track, 1);
}

#[test]
fn track_end_starts_the_next_track_once() {
    let mut nav = library();
    let a = nav.check_track_end(true, true, false, true, 0);
    assert!(matches!(a, Action::Play { track: 1, stop_first: true }));
    assert!(nav.track_ended);
    let a = nav.check_track_end(true, true, false, true, 0);
    assert!(matches!(a, Action::Nothing));
    let a = nav.check_track_end(true, false, false, true, 0);
    assert!(matches!(a, Action::Nothing));
    assert!(!nav.track_ended);
    let a = nav.check_track_end(false, true, false, true, 0);
    assert!(matches!(a, Action::Nothing));
    let a = nav.check_track_end(true, true, true, true, 0);
    assert!(matches!(a, Action::Nothing));
}

#[test]
fn refreshing_the_library_keeps_selection_inside() {
    let mut nav = library();
    nav.handle_key(Key::Down, 0);
    assert_eq!(nav.selected_album, 1);
    nav.refresh_library(vec![track("/x/1.flac", "One", "X", "Solo")], vec!["Solo".to_string()]);
    assert_eq!(nav.selected_album, 0);
    assert_eq!(nav.album_tracks, vec![0]);
    nav.refresh_library(vec![], vec![]);
    assert_eq!(nav.selected_album, 0);
    assert!(nav.album_tracks.is_empty());
}

#[test]
fn music_folders_are_added_once() {
    let mut nav = library();
    assert!(nav.add_music_dir("/music/new".to_string()));
    assert!(!nav.add_music_dir("/music/new".to_string()));
    assert!(!nav.add_music_dir("/music/queen".to_string()));
    assert_eq!(nav.music_dirs.len(), 3);
}

#[test]
fn seek_keys_ask_for_five_second_seeks() {
    let mut nav = library();
    assert!(matches!(nav.handle_key(Key::Char('j'), 0).0, Action::SeekBack));
    assert!(matches!(nav.handle_key(Key::Char('l'), 0).0, Action::SeekForward));
    assert_eq!(nav.selected_track, 0);
    assert!(is_normal(nav.input_mode));
}

#[test]
fn theme_key_cycles_through_all_themes() {
    let mut nav = library();
    assert_eq!(nav.theme, ThemeKind::Catppuccin);
    for i in 1..=6 {
        let (a, _) = nav.handle_key(Key::Char('t'), 0);
        assert!(matches!(a, Action::SaveConfig));
        assert_eq!(nav.theme, ThemeKind::ALL[i % 6]);
    }
    assert_eq!(nav.theme, ThemeKind::Catppuccin);
}

#[test]
fn lyrics_and_help_toggle() {
    let mut nav = library();
    assert!(!nav.show_lyrics && !nav.show_help);
    assert!(matches!(nav.handle_key(Key::Char('y'), 0).0, Action::Nothing));
    assert!(nav.show_lyrics);
    nav.handle_key(Key::Char('?'), 0);
    assert!(nav.show_help);
    nav.handle_key(Key::Char('y'), 0);
    nav.handle_key(Key::Char('?'), 0);
    assert!(!nav.show_lyrics && !nav.show_help);
}
