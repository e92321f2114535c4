use vox::catalog::{
    album_counts, album_key, album_track_order, distinct_albums, distinct_artists, search_tracks,
    split_album_key, tracks_under, TrackTags,
};

fn track(path: &str, title: &str, artist: &str, album: &str, disc: Option<u32>, number: Option<u32>) -> TrackTags {
    TrackTags {
        path: path.to_string(),
        title: title.to_string(),
        artist: artist.to_string(),
        album: album.to_string(),
        track_number: number,
        disc_number: disc,
    }
}

fn queen() -> Vec<TrackTags> {
    vec![
        track(
            "/music/queen/02. Bohemian Rhapsody.flac",
            "Bohemian Rhapsody",
            "Queen",
            "A Night at the Opera",
            Some(1),
            Some(2),
        ),
        track(
            "/music/queen/01. Death on Two Legs.flac",
            "Death on Two Legs",
            "Queen",
            "A Night at the Opera",
            Some(1),
            Some(1),
        ),
    ]
}

#[test]
fn album_order_by_disc_then_number_untagged_first() {
    let tracks = vec![
        track("/a/3", "c", "x", "al", Some(2), Some(1)),
        track("/a/2", "b", "x", "al", Some(1), Some(5)),
        track("/a/1", "a", "x", "al", Some(1), None),
        track("/a/4", "d", "x", "al", None, Some(9)),
        track("/a/5", "e", "x", "al", Some(1), Some(5)),
    ];
    assert_eq!(album_track_order(&tracks), vec![3, 2, 1, 4, 0]);
    assert_eq!(album_track_order(&Vec::new()), Vec::<usize>::new());
}

#[test]
fn test_track_numbers_and_multiword_search() {
    let tracks = queen();

    // Album tracks are listed by track number (01 before 02).
    let order = album_track_order(&tracks);
    assert_eq!(order.len(), 2);
    assert_eq!(tracks[order[0]].track_number, Some(1));
    assert_eq!(tracks[order[0]].title, "Death on Two Legs");
    assert_eq!(tracks[order[1]].track_number, Some(2));
    assert_eq!(tracks[order[1]].title, "Bohemian Rhapsody");

    // Multi-word search matches across artist, title and album.
    let results = search_tracks(&tracks, "queen rhapsody");
    assert_eq!(results.len(), 1);
    assert_eq!(tracks[results[0]].title, "Bohemian Rhapsody");

    let results_case = search_tracks(&tracks, "NIGHT BOHEMIAN");
    assert_eq!(results_case.len(), 1);
    assert_eq!(tracks[results_case[0]].title, "Bohemian Rhapsody");

    let results_artist = search_tracks(&tracks, "queen opera");
    assert_eq!(results_artist.len(), 2);
}

#[test]
fn search_words_and_empty_keywords() {
    let tracks = queen();
    assert_eq!(search_tracks(&tracks, "queen opera"), vec![0, 1]);
    assert_eq!(search_tracks(&tracks, "  legs   death "), vec![1]);
    assert_eq!(search_tracks(&tracks, "beatles"), Vec::<usize>::new());
    assert_eq!(search_tracks(&tracks, ""), vec![0, 1]);
    assert_eq!(search_tracks(&tracks, "   "), vec![0, 1]);
}

#[test]
fn album_keys_round_trip() {
    let k = album_key("A Night at the Opera", "/music/queen/x.flac");
    assert_eq!(k, "A Night at the Opera::/music/queen/x.flac");
    assert_eq!(
        split_album_key(&k),
        Some(("A Night at the Opera".to_string(), "/music/queen/x.flac".to_string()))
    );
    assert_eq!(split_album_key("a::b::c"), Some(("a".to_string(), "b::c".to_string())));
    assert_eq!(split_album_key("no separator"), None);
    assert_eq!(split_album_key("a:b"), None);
    assert_eq!(split_album_key("::"), Some((String::new(), String::new())));
}

#[test]
fn tracks_under_a_folder() {
    let tracks = vec![
        track("/music/queen/a.flac", "a", "Queen", "x", None, None),
        track("/music/other/b.flac", "b", "Other", "y", None, None),
        track("/music/queen/sub/c.flac", "c", "Queen", "x", None, None),
    ];
    assert_eq!(tracks_under(&tracks, "/music/queen"), vec![0, 2]);
    assert_eq!(tracks_under(&tracks, "/music"), vec![0, 1, 2]);
    assert_eq!(tracks_under(&tracks, "/elsewhere"), Vec::<usize>::new());
    assert_eq!(tracks_under(&tracks, ""), vec![0, 1, 2]);
}

#[test]
fn artists_sorted_without_repeats() {
    let tracks = vec![
        track("/1", "a", "Queen", "x", None, None),
        track("/2", "b", "ABBA", "y", None, None),
        track("/3", "c", "", "z", None, None),
        track("/4", "d", "Queen", "x", None, None),
        track("/5", "e", "abba", "w", None, None),
    ];
    assert_eq!(distinct_artists(&tracks), vec!["ABBA", "Queen", "abba"]);
    assert_eq!(distinct_artists(&Vec::new()), Vec::<String>::new());
}

#[test]
fn albums_sorted_without_repeats() {
    let tracks = vec![
        track("/1", "a", "Queen", "Opera", None, None),
        track("/2", "b", "ABBA", "Arrival", None, None),
        track("/3", "c", "Queen", "", None, None),
        track("/4", "d", "Queen", "Opera", None, None),
        track("/5", "e", "Queen", "Arrival", None, None),
    ];
    assert_eq!(
        distinct_albums(&tracks),
        vec![
            ("Arrival".to_string(), "ABBA".to_string()),
            ("Arrival".to_string(), "Queen".to_string()),
            ("Opera".to_string(), "Queen".to_string()),
        ]
    );
}

#[test]
fn album_summary_counts_and_orders() {
    let keys = vec![
        "zeta::/z/1".to_string(),
        "Alpha::/a/1".to_string(),
        "zeta::/z/2".to_string(),
        "alpha::/a/2".to_string(),
        "::/none".to_string(),
        "broken".to_string(),
        "Alpha::/a/3".to_string(),
    ];
    assert_eq!(
        album_counts(&keys),
        vec![("Alpha".to_string(), 2), ("alpha".to_string(), 1), ("zeta".to_string(), 2)]
    );
    assert_eq!(album_counts(&Vec::new()), Vec::<(String, usize)>::new());
}
