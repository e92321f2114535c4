use vstd::prelude::*;

use crate::catalog::{
    indices_view, insert_point, lemma_insert_point, sort_stable, strings_view, TrackTags,
};
use crate::tui::theme::{theme_after, ThemeKind};
use crate::chars::{
    chars_of, contains, contains_text, string_eq, text_less, text_lt, to_lowercase,
    unicode_lowercase,
};

verus! {

/// What the keyboard is driving.
#[derive(Clone, Copy)]
pub enum InputMode {
    Normal,
    Browse,
    Search,
    RemovePath,
}

/// The panel that the arrow keys move in.
#[derive(Clone, Copy)]
pub enum Focus {
    Albums,
    Tracks,
}

/// A key press, as the player reacts to it.
pub enum Key {
    Char(char),
    Enter,
    Esc,
    Backspace,
    Up,
    Down,
    Left,
    Right,
    Tab,
    CtrlC,
    CtrlR,
    Other,
}

/// The outside work that a key or a click asks for.
pub enum Action {
    Nothing,
    /// Rescan every music folder.
    Rescan,
    /// Play track `track` (a position in the library), after stopping playback if
    /// `stop_first` (playing also stops what plays).
    Play { track: usize, stop_first: bool },
    /// Stop playback.
    Stop,
    TogglePause,
    /// Seek to the start of the current track.
    RestartTrack,
    /// Seek five seconds back in the current track.
    SeekBack,
    /// Seek five seconds forward in the current track.
    SeekForward,
    /// Raise the volume by 5 percent (up to full) and save it in the configuration.
    VolumeUp,
    /// Lower the volume by 5 percent (down to silence) and save it in the configuration.
    VolumeDown,
    ToggleMute,
    /// Save the repeat, shuffle and theme settings.
    SaveConfig,
    /// Show the folder browser at the home folder.
    OpenBrowser,
    /// Show the browser's parent folder.
    BrowserUp,
    /// Show the browser's sub-folder of this name.
    BrowserInto(String),
    /// Scan the folder that the browser shows.
    ScanBrowserDir,
    /// Remove the tracks under this music folder from the library and forget the folder.
    RemoveFolder(String),
    /// Remove the tracks in the folder of the track at this path.
    RemoveAlbumFolder(String),
}

/// The outside work, with texts taken by their characters.
pub enum ActionModel {
    Nothing,
    Rescan,
    Play { track: int, stop_first: bool },
    Stop,
    TogglePause,
    RestartTrack,
    SeekBack,
    SeekForward,
    VolumeUp,
    VolumeDown,
    ToggleMute,
    SaveConfig,
    OpenBrowser,
    BrowserUp,
    BrowserInto(Seq<char>),
    ScanBrowserDir,
    RemoveFolder(Seq<char>),
    RemoveAlbumFolder(Seq<char>),
}

impl View for Action {
    type V = ActionModel;

    open spec fn view(&self) -> ActionModel {
        match self {
            Action::Nothing => ActionModel::Nothing,
            Action::Rescan => ActionModel::Rescan,
            Action::Play { track, stop_first } => ActionModel::Play {
                track: *track as int,
                stop_first: *stop_first,
            },
            Action::Stop => ActionModel::Stop,
            Action::TogglePause => ActionModel::TogglePause,
            Action::RestartTrack => ActionModel::RestartTrack,
            Action::SeekBack => ActionModel::SeekBack,
            Action::SeekForward => ActionModel::SeekForward,
            Action::VolumeUp => ActionModel::VolumeUp,
            Action::VolumeDown => ActionModel::VolumeDown,
            Action::ToggleMute => ActionModel::ToggleMute,
            Action::SaveConfig => ActionModel::SaveConfig,
            Action::OpenBrowser => ActionModel::OpenBrowser,
            Action::BrowserUp => ActionModel::BrowserUp,
            Action::BrowserInto(s) => ActionModel::BrowserInto(s@),
            Action::ScanBrowserDir => ActionModel::ScanBrowserDir,
            Action::RemoveFolder(s) => ActionModel::RemoveFolder(s@),
            Action::RemoveAlbumFolder(s) => ActionModel::RemoveAlbumFolder(s@),
        }
    }
}

/// The navigation state of the player's interface: the library as listed, the selections,
/// the search, the folder browser and the list of music folders.
pub struct NavState {
    pub all_tracks: Vec<TrackTags>,
    pub album_names: Vec<String>,
    /// The tracks of the selected album, as positions in `all_tracks`.
    pub album_tracks: Vec<usize>,
    pub selected_album: usize,
    /// The album whose tracks `album_tracks` holds (`None` before the first load).
    pub prev_album: Option<usize>,
    pub selected_track: usize,
    pub focus: Focus,
    pub input_mode: InputMode,
    pub search_query: String,
    /// The tracks that match the search, as positions in `all_tracks`.
    pub search_results: Vec<usize>,
    /// The folder browser's entries: name, and whether it is a folder.
    pub browser_entries: Vec<(String, bool)>,
    /// The folder that the browser shows has a parent.
    pub browser_has_parent: bool,
    pub browser_selection: usize,
    pub music_dirs: Vec<String>,
    pub remove_paths: Vec<String>,
    pub remove_path_selection: usize,
    pub track_ended: bool,
    pub exit: bool,
    pub repeat: bool,
    pub shuffle: bool,
    /// The colour theme.
    pub theme: ThemeKind,
    /// The lyrics panel is shown.
    pub show_lyrics: bool,
    /// The key help overlay is shown.
    pub show_help: bool,
}

/// The navigation state, with texts taken by their characters.
#[verifier::ext_equal]
pub struct NavModel {
    pub all_tracks: Seq<TrackTags>,
    pub album_names: Seq<Seq<char>>,
    pub album_tracks: Seq<int>,
    pub selected_album: int,
    pub prev_album: Option<int>,
    pub selected_track: int,
    pub focus: Focus,
    pub input_mode: InputMode,
    pub search_query: Seq<char>,
    pub search_results: Seq<int>,
    pub browser_entries: Seq<(Seq<char>, bool)>,
    pub browser_has_parent: bool,
    pub browser_selection: int,
    pub music_dirs: Seq<Seq<char>>,
    pub remove_paths: Seq<Seq<char>>,
    pub remove_path_selection: int,
    pub track_ended: bool,
    pub exit: bool,
    pub repeat: bool,
    pub shuffle: bool,
    pub theme: ThemeKind,
    pub show_lyrics: bool,
    pub show_help: bool,
}

pub open spec fn entries_view(s: Seq<(String, bool)>) -> Seq<(Seq<char>, bool)> {
    s.map_values(|e: (String, bool)| (e.0@, e.1))
}

pub open spec fn opt_view(o: Option<usize>) -> Option<int> {
    match o {
        Some(i) => Some(i as int),
        None => None,
    }
}

impl View for NavState {
    type V = NavModel;

    open spec fn view(&self) -> NavModel {
        NavModel {
            all_tracks: self.all_tracks@,
            album_names: strings_view(self.album_names@),
            album_tracks: indices_view(self.album_tracks@),
            selected_album: self.selected_album as int,
            prev_album: opt_view(self.prev_album),
            selected_track: self.selected_track as int,
            focus: self.focus,
            input_mode: self.input_mode,
            search_query: self.search_query@,
            search_results: indices_view(self.search_results@),
            browser_entries: entries_view(self.browser_entries@),
            browser_has_parent: self.browser_has_parent,
            browser_selection: self.browser_selection as int,
            music_dirs: strings_view(self.music_dirs@),
            remove_paths: strings_view(self.remove_paths@),
            remove_path_selection: self.remove_path_selection as int,
            track_ended: self.track_ended,
            exit: self.exit,
            repeat: self.repeat,
            shuffle: self.shuffle,
            theme: self.theme,
            show_lyrics: self.show_lyrics,
            show_help: self.show_help,
        }
    }
}

// ---------------------------------------------------------------------------------------------
// Album tracks and search
// ---------------------------------------------------------------------------------------------
/// The positions, in order, of the tracks of the album named `name`.
pub open spec fn tracks_of_album(ts: Seq<TrackTags>, name: Seq<char>) -> Seq<int>
    decreases ts.len(),
{
    if ts.len() == 0 {
        Seq::empty()
    } else if ts.last().album@ == name {
        tracks_of_album(ts.drop_last(), name).push(ts.len() - 1)
    } else {
        tracks_of_album(ts.drop_last(), name)
    }
}

/// Loading the selected album's tracks: nothing changes when they are loaded already;
/// otherwise the track list becomes the selected album's tracks (none when no album is
/// selected) and the first track is selected.
pub open spec fn load_album(m: NavModel) -> NavModel {
    if m.prev_album == Some(m.selected_album) {
        m
    } else {
        NavModel {
            prev_album: Some(m.selected_album),
            album_tracks: if 0 <= m.selected_album < m.album_names.len() {
                tracks_of_album(m.all_tracks, m.album_names[m.selected_album])
            } else {
                Seq::empty()
            },
            selected_track: 0,
            ..m
        }
    }
}

/// The lower-cased query `q` occurs in the lower-cased title, artist or album of `t`.
pub open spec fn query_hits(t: TrackTags, q: Seq<char>) -> bool {
    ||| contains_text(unicode_lowercase(t.title@), q)
    ||| contains_text(unicode_lowercase(t.artist@), q)
    ||| contains_text(unicode_lowercase(t.album@), q)
}

/// The positions, in order, of the tracks of `ts` that the lower-cased query `q` hits.
pub open spec fn hits(ts: Seq<TrackTags>, q: Seq<char>) -> Seq<int>
    decreases ts.len(),
{
    if ts.len() == 0 {
        Seq::empty()
    } else if query_hits(ts.last(), q) {
        hits(ts.drop_last(), q).push(ts.len() - 1)
    } else {
        hits(ts.drop_last(), q)
    }
}

/// The search results for `query`: every track for an empty query, else the tracks whose
/// title, artist or album holds the lower-cased query.
pub open spec fn search_hits(ts: Seq<TrackTags>, query: Seq<char>) -> Seq<int> {
    if unicode_lowercase(query).len() == 0 {
        Seq::new(ts.len(), |i: int| i)
    } else {
        hits(ts, unicode_lowercase(query))
    }
}

/// Running the search: the results follow the query, and the first result is selected.
pub open spec fn run_search(m: NavModel) -> NavModel {
    NavModel {
        search_results: search_hits(m.all_tracks, m.search_query),
        selected_track: 0,
        ..m
    }
}

fn all_positions(n: usize) -> (r: Vec<usize>)
    ensures
        indices_view(r@) == Seq::new(n as nat, |i: int| i),
{
    let mut r: Vec<usize> = Vec::new();
    let mut i: usize = 0;
    while i < n
        invariant
            i <= n,
            indices_view(r@) == Seq::new(i as nat, |k: int| k),
        decreases n - i,
    {
        let ghost prev = indices_view(r@);
        r.push(i);
        assert(indices_view(r@) =~= prev.push(i as int));
        assert(prev.push(i as int) =~= Seq::new((i + 1) as nat, |k: int| k));
        i += 1;
    }
    r
}

fn lowered(s: &String) -> (v: Vec<char>)
    ensures
        v@ == unicode_lowercase(s@),
{
    let l = to_lowercase(s.as_str());
    chars_of(l.as_str())
}

impl NavState {
    /// Loads the tracks of the selected album, unless they are loaded already.
    pub fn load_album_tracks(&mut self)
        ensures
            final(self)@ == load_album(old(self)@),
    {
        if self.prev_album == Some(self.selected_album) {
            return ;
        }
        self.prev_album = Some(self.selected_album);
        let mut list: Vec<usize> = Vec::new();
        if self.selected_album < self.album_names.len() {
            let name = &self.album_names[self.selected_album];
            let ghost ts = self.all_tracks@;
            let mut i: usize = 0;
            assert(ts.take(0) =~= Seq::<TrackTags>::empty());
            while i < self.all_tracks.len()
                invariant
                    i <= ts.len(),
                    ts == self.all_tracks@,
                    indices_view(list@) == tracks_of_album(ts.take(i as int), name@),
                decreases ts.len() - i,
            {
                assert(ts.take(i + 1 as int).drop_last() =~= ts.take(i as int));
                assert(ts.take(i + 1 as int).last() == ts[i as int]);
                if self.all_tracks[i].album == *name {
                    list.push(i);
                    assert(indices_view(list@) =~= tracks_of_album(ts.take(i as int), name@).push(
                        i as int,
                    ));
                }
                i += 1;
            }
            assert(ts.take(ts.len() as int) =~= ts);
        }
        self.album_tracks = list;
        self.selected_track = 0;
        assert(self@ =~= load_album(old(self)@));
    }

    /// Runs the search for the current query.
    pub fn run_search(&mut self)
        ensures
            final(self)@ == run_search(old(self)@),
    {
        let q = lowered(&self.search_query);
        let results = if q.len() == 0 {
            all_positions(self.all_tracks.len())
        } else {
            let ghost ts = self.all_tracks@;
            let mut r: Vec<usize> = Vec::new();
            let mut i: usize = 0;
            assert(ts.take(0) =~= Seq::<TrackTags>::empty());
            while i < self.all_tracks.len()
                invariant
                    i <= ts.len(),
                    ts == self.all_tracks@,
                    q@ == unicode_lowercase(self.search_query@),
                    indices_view(r@) == hits(ts.take(i as int), q@),
                decreases ts.len() - i,
            {
                assert(ts.take(i + 1 as int).drop_last() =~= ts.take(i as int));
                assert(ts.take(i + 1 as int).last() == ts[i as int]);
                let t = &self.all_tracks[i];
                let title = lowered(&t.title);
                let artist = lowered(&t.artist);
                let album = lowered(&t.album);
                if contains(title.as_slice(), q.as_slice()) || contains(
                    artist.as_slice(),
                    q.as_slice(),
                ) || contains(album.as_slice(), q.as_slice()) {
                    r.push(i);
                    assert(indices_view(r@) =~= hits(ts.take(i as int), q@).push(i as int));
                }
                i += 1;
            }
            assert(ts.take(ts.len() as int) =~= ts);
            r
        };
        self.search_results = results;
        self.selected_track = 0;
        assert(self@ =~= run_search(old(self)@));
    }
}

// ---------------------------------------------------------------------------------------------
// Playing, next and previous track
// ---------------------------------------------------------------------------------------------
pub open spec fn toggled(f: Focus) -> Focus {
    match f {
        Focus::Albums => Focus::Tracks,
        Focus::Tracks => Focus::Albums,
    }
}

/// The track list that the selection points into: the search results while searching,
/// else the selected album's tracks.
pub open spec fn shown_tracks(m: NavModel) -> Seq<int> {
    if m.input_mode is Search {
        m.search_results
    } else {
        m.album_tracks
    }
}

/// The position in the shown list that playing takes: the selection, held within the
/// results while searching.
pub open spec fn play_index(m: NavModel) -> int {
    if m.input_mode is Search {
        let last = if shown_tracks(m).len() > 0 {
            shown_tracks(m).len() - 1
        } else {
            0
        };
        if m.selected_track < last {
            m.selected_track
        } else {
            last
        }
    } else {
        m.selected_track
    }
}

/// Playing the selected track: the track at the play index of the shown list, or, when the
/// index is past the list, nothing (only the stop, if one was asked for).
pub open spec fn play_pick(m: NavModel, stop_first: bool) -> ActionModel {
    if 0 <= play_index(m) < shown_tracks(m).len() {
        ActionModel::Play { track: shown_tracks(m)[play_index(m)], stop_first }
    } else if stop_first {
        ActionModel::Stop
    } else {
        ActionModel::Nothing
    }
}

/// The next track of the album: a random one (from `entropy`) when shuffling, else the
/// following one, or with repeat on the first after the last; playback stops first, and stays
/// stopped when there is no next track.
pub open spec fn next_track(m: NavModel, entropy: u64) -> (NavModel, ActionModel) {
    let n = m.album_tracks.len();
    if n == 0 {
        (m, ActionModel::Stop)
    } else if m.shuffle || m.selected_track + 1 < n || m.repeat {
        let next = if m.shuffle {
            (entropy % (n as u64)) as int
        } else if m.selected_track + 1 < n {
            m.selected_track + 1
        } else {
            0
        };
        let m1 = NavModel { selected_track: next, ..m };
        (m1, play_pick(m1, true))
    } else {
        (m, ActionModel::Stop)
    }
}

/// The previous track of the album, from the first one back to the last.
pub open spec fn previous_track(m: NavModel) -> (NavModel, ActionModel) {
    let n = m.album_tracks.len();
    if n == 0 {
        (m, ActionModel::Nothing)
    } else {
        let prev = if m.selected_track > 0 {
            m.selected_track - 1
        } else {
            n - 1
        };
        let m1 = NavModel { selected_track: prev, ..m };
        (m1, play_pick(m1, true))
    }
}

impl NavState {
    fn play_pick(&self, stop_first: bool) -> (a: Action)
        ensures
            a@ == play_pick(self@, stop_first),
    {
        let in_search = matches!(self.input_mode, InputMode::Search);
        let list = if in_search {
            &self.search_results
        } else {
            &self.album_tracks
        };
        let idx = if in_search {
            let last = if list.len() > 0 {
                list.len() - 1
            } else {
                0
            };
            if self.selected_track < last {
                self.selected_track
            } else {
                last
            }
        } else {
            self.selected_track
        };
        if idx < list.len() {
            Action::Play { track: list[idx], stop_first }
        } else if stop_first {
            Action::Stop
        } else {
            Action::Nothing
        }
    }

    /// Moves to the next track of the album and asks to play it.
    pub fn next_track(&mut self, entropy: u64) -> (a: Action)
        ensures
            (final(self)@, a@) == next_track(old(self)@, entropy),
    {
        let n = self.album_tracks.len();
        if n == 0 {
            return Action::Stop;
        }
        let next = if self.shuffle {
            (entropy % (n as u64)) as usize
        } else if self.selected_track < n - 1 {
            self.selected_track + 1
        } else if self.repeat {
            0
        } else {
            return Action::Stop;
        };
        self.selected_track = next;
        assert(self@ =~= NavModel { selected_track: next as int, ..old(self)@ });
        self.play_pick(true)
    }

    /// Moves to the previous track of the album and asks to play it.
    pub fn previous_track(&mut self) -> (a: Action)
        ensures
            (final(self)@, a@) == previous_track(old(self)@),
    {
        let n = self.album_tracks.len();
        if n == 0 {
            return Action::Nothing;
        }
        if self.selected_track > 0 {
            self.selected_track = self.selected_track - 1;
        } else {
            self.selected_track = n - 1;
        }
        assert(self@ =~= NavModel { selected_track: self.selected_track as int, ..old(self)@ });
        self.play_pick(true)
    }
}

// ---------------------------------------------------------------------------------------------
// Keys
// ---------------------------------------------------------------------------------------------
/// `s` without the texts equal to `x` (what `retain(|e| *e != x)` leaves).
pub open spec fn without(s: Seq<Seq<char>>, x: Seq<char>) -> Seq<Seq<char>>
    decreases s.len(),
{
    if s.len() == 0 {
        s
    } else if s.last() == x {
        without(s.drop_last(), x)
    } else {
        without(s.drop_last(), x).push(s.last())
    }
}

/// A key in the search box.
pub open spec fn search_key(m: NavModel, k: Key) -> (NavModel, ActionModel) {
    match k {
        Key::Esc => (
            load_album(
                NavModel {
                    input_mode: InputMode::Normal,
                    search_query: Seq::empty(),
                    search_results: Seq::empty(),
                    ..m
                },
            ),
            ActionModel::Nothing,
        ),
        Key::Enter => (m, play_pick(m, false)),
        Key::Backspace => (
            run_search(
                NavModel {
                    search_query: if m.search_query.len() > 0 {
                        m.search_query.drop_last()
                    } else {
                        m.search_query
                    },
                    ..m
                },
            ),
            ActionModel::Nothing,
        ),
        Key::Char(c) => (
            run_search(NavModel { search_query: m.search_query.push(c), ..m }),
            ActionModel::Nothing,
        ),
        Key::Up => (
            if m.selected_track > 0 {
                NavModel { selected_track: m.selected_track - 1, ..m }
            } else {
                m
            },
            ActionModel::Nothing,
        ),
        Key::Down => (
            if m.selected_track + 1 < m.search_results.len() {
                NavModel { selected_track: m.selected_track + 1, ..m }
            } else {
                m
            },
            ActionModel::Nothing,
        ),
        _ => (m, ActionModel::Nothing),
    }
}

/// A key in the folder browser.
pub open spec fn browse_key(m: NavModel, k: Key) -> (NavModel, ActionModel) {
    match k {
        Key::Esc => if m.browser_has_parent {
            (m, ActionModel::BrowserUp)
        } else {
            (NavModel { input_mode: InputMode::Normal, ..m }, ActionModel::Nothing)
        },
        Key::Enter => if 0 <= m.browser_selection < m.browser_entries.len()
            && m.browser_entries[m.browser_selection].1 {
            if m.browser_entries[m.browser_selection].0 == ".."@ {
                (m, ActionModel::BrowserUp)
            } else {
                (m, ActionModel::BrowserInto(m.browser_entries[m.browser_selection].0))
            }
        } else {
            (m, ActionModel::Nothing)
        },
        Key::Char(c) => if c == 's' || c == 'S' {
            (NavModel { input_mode: InputMode::Normal, ..m }, ActionModel::ScanBrowserDir)
        } else {
            (m, ActionModel::Nothing)
        },
        Key::Up => (
            if m.browser_selection > 0 {
                NavModel { browser_selection: m.browser_selection - 1, ..m }
            } else {
                m
            },
            ActionModel::Nothing,
        ),
        Key::Down => (
            if m.browser_selection + 1 < m.browser_entries.len() {
                NavModel { browser_selection: m.browser_selection + 1, ..m }
            } else {
                m
            },
            ActionModel::Nothing,
        ),
        _ => (m, ActionModel::Nothing),
    }
}

/// A key in the list of music folders to remove.
pub open spec fn remove_key(m: NavModel, k: Key) -> (NavModel, ActionModel) {
    match k {
        Key::Esc => (NavModel { input_mode: InputMode::Normal, ..m }, ActionModel::Nothing),
        Key::Up => (
            if m.remove_path_selection > 0 {
                NavModel { remove_path_selection: m.remove_path_selection - 1, ..m }
            } else {
                m
            },
            ActionModel::Nothing,
        ),
        Key::Down => (
            if m.remove_path_selection + 1 < m.remove_paths.len() {
                NavModel { remove_path_selection: m.remove_path_selection + 1, ..m }
            } else {
                m
            },
            ActionModel::Nothing,
        ),
        Key::Enter => {
            let sel = m.remove_path_selection;
            if 0 <= sel < m.remove_paths.len() {
                let prefix = m.remove_paths[sel];
                let rest = without(m.remove_paths, prefix);
                (
                    NavModel {
                        input_mode: InputMode::Normal,
                        remove_paths: rest,
                        music_dirs: without(m.music_dirs, prefix),
                        remove_path_selection: if sel >= rest.len() {
                            if rest.len() > 0 {
                                rest.len() - 1
                            } else {
                                0
                            }
                        } else {
                            sel
                        },
                        ..m
                    },
                    ActionModel::RemoveFolder(prefix),
                )
            } else {
                (NavModel { input_mode: InputMode::Normal, ..m }, ActionModel::Nothing)
            }
        },
        _ => (m, ActionModel::Nothing),
    }
}

/// A key in the normal view, before the selected album's tracks are brought up to date.
pub open spec fn normal_key_core(m: NavModel, k: Key, entropy: u64) -> (NavModel, ActionModel) {
    match k {
        Key::Char(c) => if c == 'q' || c == 'Q' {
            (NavModel { exit: true, ..m }, ActionModel::Nothing)
        } else if c == '/' {
            (NavModel { input_mode: InputMode::Browse, ..m }, ActionModel::OpenBrowser)
        } else if c == 'x' || c == 'X' {
            (
                NavModel {
                    input_mode: InputMode::RemovePath,
                    remove_paths: m.music_dirs,
                    remove_path_selection: 0,
                    ..m
                },
                ActionModel::Nothing,
            )
        } else if c == 'f' || c == 'F' {
            (
                NavModel {
                    input_mode: InputMode::Search,
                    search_query: Seq::empty(),
                    search_results: Seq::new(m.all_tracks.len(), |i: int| i),
                    selected_track: 0,
                    focus: Focus::Tracks,
                    ..m
                },
                ActionModel::Nothing,
            )
        } else if c == ' ' || c == 'k' || c == 'K' {
            (m, ActionModel::TogglePause)
        } else if c == 'n' || c == 'N' {
            next_track(m, entropy)
        } else if c == 'b' || c == 'B' {
            previous_track(m)
        } else if c == 'p' || c == 'P' {
            (m, ActionModel::RestartTrack)
        } else if c == '=' || c == '+' {
            (m, ActionModel::VolumeUp)
        } else if c == '-' || c == '_' {
            (m, ActionModel::VolumeDown)
        } else if c == 'm' || c == 'M' {
            (m, ActionModel::ToggleMute)
        } else if c == 'r' || c == 'R' {
            (NavModel { repeat: !m.repeat, ..m }, ActionModel::SaveConfig)
        } else if c == 's' || c == 'S' {
            (NavModel { shuffle: !m.shuffle, ..m }, ActionModel::SaveConfig)
        } else if c == 'j' {
            (m, ActionModel::SeekBack)
        } else if c == 'l' {
            (m, ActionModel::SeekForward)
        } else if c == 't' {
            (NavModel { theme: theme_after(m.theme), ..m }, ActionModel::SaveConfig)
        } else if c == 'y' {
            (NavModel { show_lyrics: !m.show_lyrics, ..m }, ActionModel::Nothing)
        } else if c == '?' {
            (NavModel { show_help: !m.show_help, ..m }, ActionModel::Nothing)
        } else if c == 'D' {
            if 0 <= m.selected_album < m.album_names.len() && tracks_of_album(
                m.all_tracks,
                m.album_names[m.selected_album],
            ).len() > 0 {
                (
                    m,
                    ActionModel::RemoveAlbumFolder(
                        m.all_tracks[tracks_of_album(
                            m.all_tracks,
                            m.album_names[m.selected_album],
                        )[0]].path@,
                    ),
                )
            } else {
                (m, ActionModel::Nothing)
            }
        } else {
            (m, ActionModel::Nothing)
        },
        Key::Tab | Key::Left | Key::Right => (
            NavModel { focus: toggled(m.focus), ..m },
            ActionModel::Nothing,
        ),
        Key::Up => (
            match m.focus {
                Focus::Albums => if m.selected_album > 0 {
                    NavModel { selected_album: m.selected_album - 1, ..m }
                } else {
                    m
                },
                Focus::Tracks => if m.selected_track > 0 {
                    NavModel { selected_track: m.selected_track - 1, ..m }
                } else {
                    m
                },
            },
            ActionModel::Nothing,
        ),
        Key::Down => (
            match m.focus {
                Focus::Albums => if m.selected_album + 1 < m.album_names.len() {
                    NavModel { selected_album: m.selected_album + 1, ..m }
                } else {
                    m
                },
                Focus::Tracks => if m.selected_track + 1 < m.album_tracks.len() {
                    NavModel { selected_track: m.selected_track + 1, ..m }
                } else {
                    m
                },
            },
            ActionModel::Nothing,
        ),
        Key::Enter => match m.focus {
            Focus::Albums => (
                NavModel { focus: Focus::Tracks, ..load_album(m) },
                ActionModel::Nothing,
            ),
            Focus::Tracks => (m, play_pick(m, false)),
        },
        _ => (m, ActionModel::Nothing),
    }
}

/// A key in the normal view; with the album list focused, the selected album's tracks are
/// then loaded.
pub open spec fn normal_key(m: NavModel, k: Key, entropy: u64) -> (NavModel, ActionModel) {
    let (m1, a) = normal_key_core(m, k, entropy);
    if m1.focus is Albums {
        (load_album(m1), a)
    } else {
        (m1, a)
    }
}

/// What a key press does: Ctrl-C quits, Ctrl-R rescans the music folders, and any other key
/// clears the status message and acts by the input mode.
pub open spec fn key_step(m: NavModel, k: Key, entropy: u64) -> (NavModel, ActionModel, bool) {
    match k {
        Key::CtrlC => (NavModel { exit: true, ..m }, ActionModel::Nothing, false),
        Key::CtrlR => (m, ActionModel::Rescan, false),
        _ => {
            let (m1, a) = match m.input_mode {
                InputMode::Search => search_key(m, k),
                InputMode::Browse => browse_key(m, k),
                InputMode::RemovePath => remove_key(m, k),
                InputMode::Normal => normal_key(m, k, entropy),
            };
            (m1, a, true)
        },
    }
}

fn without_exec(s: &Vec<String>, x: &String) -> (r: Vec<String>)
    ensures
        strings_view(r@) == without(strings_view(s@), x@),
{
    let ghost v = strings_view(s@);
    let mut r: Vec<String> = Vec::new();
    let mut i: usize = 0;
    assert(v.take(0) =~= Seq::<Seq<char>>::empty());
    while i < s.len()
        invariant
            i <= s@.len(),
            v == strings_view(s@),
            strings_view(r@) == without(v.take(i as int), x@),
        decreases s@.len() - i,
    {
        assert(v.take(i + 1 as int).drop_last() =~= v.take(i as int));
        assert(v.take(i + 1 as int).last() == s@[i as int]@);
        if s[i] != *x {
            let ghost prev = strings_view(r@);
            let e = s[i].clone();
            r.push(e);
            assert(strings_view(r@) =~= prev.push(s@[i as int]@));
        }
        i += 1;
    }
    assert(v.take(s@.len() as int) =~= v);
    r
}

fn clone_strings(s: &Vec<String>) -> (r: Vec<String>)
    ensures
        strings_view(r@) == strings_view(s@),
{
    let mut r: Vec<String> = Vec::new();
    let mut i: usize = 0;
    while i < s.len()
        invariant
            i <= s@.len(),
            strings_view(r@) == strings_view(s@).take(i as int),
        decreases s@.len() - i,
    {
        let ghost prev = strings_view(r@);
        r.push(s[i].clone());
        assert(strings_view(r@) =~= prev.push(s@[i as int]@));
        assert(strings_view(s@).take(i + 1 as int) =~= strings_view(s@).take(i as int).push(
            s@[i as int]@,
        ));
        i += 1;
    }
    assert(strings_view(s@).take(s@.len() as int) =~= strings_view(s@));
    r
}

impl NavState {
    #[verifier::rlimit(40)]
    fn search_key(&mut self, k: Key) -> (a: Action)
        requires
            old(self).input_mode is Search,
        ensures
            (final(self)@, a@) == search_key(old(self)@, k),
    {
        match k {
            Key::Esc => {
                self.input_mode = InputMode::Normal;
                self.search_query = String::new();
                self.search_results = Vec::new();
                self.load_album_tracks();
                Action::Nothing
            },
            Key::Enter => self.play_pick(false),
            Key::Backspace => {
                let v = chars_of(self.search_query.as_str());
                let n = v.len();
                if n > 0 {
                    self.search_query = crate::chars::string_of(
                        crate::chars::subvec(v.as_slice(), 0, n - 1).as_slice(),
                    );
                }
                self.run_search();
                Action::Nothing
            },
            Key::Char(c) => {
                crate::chars::push_char(&mut self.search_query, c);
                self.run_search();
                Action::Nothing
            },
            Key::Up => {
                if self.selected_track > 0 {
                    self.selected_track = self.selected_track - 1;
                }
                Action::Nothing
            },
            Key::Down => {
                if self.selected_track < self.search_results.len() && self.selected_track + 1
                    < self.search_results.len() {
                    self.selected_track = self.selected_track + 1;
                }
                Action::Nothing
            },
            _ => Action::Nothing,
        }
    }

    fn browse_key(&mut self, k: Key) -> (a: Action)
        requires
            old(self).input_mode is Browse,
        ensures
            (final(self)@, a@) == browse_key(old(self)@, k),
    {
        match k {
            Key::Esc => {
                if self.browser_has_parent {
                    Action::BrowserUp
                } else {
                    self.input_mode = InputMode::Normal;
                    Action::Nothing
                }
            },
            Key::Enter => {
                let sel = self.browser_selection;
                if sel < self.browser_entries.len() && self.browser_entries[sel].1 {
                    if string_eq(&self.browser_entries[sel].0, "..") {
                        Action::BrowserUp
                    } else {
                        Action::BrowserInto(self.browser_entries[sel].0.clone())
                    }
                } else {
                    Action::Nothing
                }
            },
            Key::Char(c) => {
                if c == 's' || c == 'S' {
                    self.input_mode = InputMode::Normal;
                    Action::ScanBrowserDir
                } else {
                    Action::Nothing
                }
            },
            Key::Up => {
                if self.browser_selection > 0 {
                    self.browser_selection = self.browser_selection - 1;
                }
                Action::Nothing
            },
            Key::Down => {
                if self.browser_selection < self.browser_entries.len() && self.browser_selection + 1
                    < self.browser_entries.len() {
                    self.browser_selection = self.browser_selection + 1;
                }
                Action::Nothing
            },
            _ => Action::Nothing,
        }
    }

    fn remove_key(&mut self, k: Key) -> (a: Action)
        requires
            old(self).input_mode is RemovePath,
        ensures
            (final(self)@, a@) == remove_key(old(self)@, k),
    {
        match k {
            Key::Esc => {
                self.input_mode = InputMode::Normal;
                Action::Nothing
            },
            Key::Up => {
                if self.remove_path_selection > 0 {
                    self.remove_path_selection = self.remove_path_selection - 1;
                }
                Action::Nothing
            },
            Key::Down => {
                if self.remove_path_selection < self.remove_paths.len()
                    && self.remove_path_selection + 1 < self.remove_paths.len() {
                    self.remove_path_selection = self.remove_path_selection + 1;
                }
                Action::Nothing
            },
            Key::Enter => {
                let sel = self.remove_path_selection;
                self.input_mode = InputMode::Normal;
                if sel < self.remove_paths.len() {
                    let prefix = self.remove_paths[sel].clone();
                    let rest = without_exec(&self.remove_paths, &prefix);
                    let dirs = without_exec(&self.music_dirs, &prefix);
                    let n = rest.len();
                    self.remove_paths = rest;
                    self.music_dirs = dirs;
                    if sel >= n {
                        self.remove_path_selection = if n > 0 {
                            n - 1
                        } else {
                            0
                        };
                    }
                    Action::RemoveFolder(prefix)
                } else {
                    Action::Nothing
                }
            },
            _ => Action::Nothing,
        }
    }

    fn normal_key_core(&mut self, k: Key, entropy: u64) -> (a: Action)
        requires
            old(self).input_mode is Normal,
        ensures
            (final(self)@, a@) == normal_key_core(old(self)@, k, entropy),
    {
        match k {
            Key::Char(c) => {
                if c == 'q' || c == 'Q' {
                    self.exit = true;
                    Action::Nothing
                } else if c == '/' {
                    self.input_mode = InputMode::Browse;
                    Action::OpenBrowser
                } else if c == 'x' || c == 'X' {
                    self.input_mode = InputMode::RemovePath;
                    self.remove_paths = clone_strings(&self.music_dirs);
                    self.remove_path_selection = 0;
                    Action::Nothing
                } else if c == 'f' || c == 'F' {
                    self.input_mode = InputMode::Search;
                    self.search_query = String::new();
                    self.search_results = all_positions(self.all_tracks.len());
                    self.selected_track = 0;
                    self.focus = Focus::Tracks;
                    Action::Nothing
                } else if c == ' ' || c == 'k' || c == 'K' {
                    Action::TogglePause
                } else if c == 'n' || c == 'N' {
                    self.next_track(entropy)
                } else if c == 'b' || c == 'B' {
                    self.previous_track()
                } else if c == 'p' || c == 'P' {
                    Action::RestartTrack
                } else if c == '=' || c == '+' {
                    Action::VolumeUp
                } else if c == '-' || c == '_' {
                    Action::VolumeDown
                } else if c == 'm' || c == 'M' {
                    Action::ToggleMute
                } else if c == 'r' || c == 'R' {
                    self.repeat = !self.repeat;
                    Action::SaveConfig
                } else if c == 's' || c == 'S' {
                    self.shuffle = !self.shuffle;
                    Action::SaveConfig
                } else if c == 'j' {
                    Action::SeekBack
                } else if c == 'l' {
                    Action::SeekForward
                } else if c == 't' {
                    self.theme = self.theme.next();
                    Action::SaveConfig
                } else if c == 'y' {
                    self.show_lyrics = !self.show_lyrics;
                    Action::Nothing
                } else if c == '?' {
                    self.show_help = !self.show_help;
                    Action::Nothing
                } else if c == 'D' {
                    self.first_track_folder_action()
                } else {
                    Action::Nothing
                }
            },
            Key::Tab | Key::Left | Key::Right => {
                self.focus = match self.focus {
                    Focus::Albums => Focus::Tracks,
                    Focus::Tracks => Focus::Albums,
                };
                Action::Nothing
            },
            Key::Up => {
                match self.focus {
                    Focus::Albums => {
                        if self.selected_album > 0 {
                            self.selected_album = self.selected_album - 1;
                        }
                    },
                    Focus::Tracks => {
                        if self.selected_track > 0 {
                            self.selected_track = self.selected_track - 1;
                        }
                    },
                }
                Action::Nothing
            },
            Key::Down => {
                match self.focus {
                    Focus::Albums => {
                        if self.selected_album < self.album_names.len() && self.selected_album + 1
                            < self.album_names.len() {
                            self.selected_album = self.selected_album + 1;
                        }
                    },
                    Focus::Tracks => {
                        if self.selected_track < self.album_tracks.len() && self.selected_track + 1
                            < self.album_tracks.len() {
                            self.selected_track = self.selected_track + 1;
                        }
                    },
                }
                Action::Nothing
            },
            Key::Enter => {
                match self.focus {
                    Focus::Albums => {
                        self.load_album_tracks();
                        self.focus = Focus::Tracks;
                        Action::Nothing
                    },
                    Focus::Tracks => self.play_pick(false),
                }
            },
            _ => Action::Nothing,
        }
    }

    /// The path of the first track of the selected album, for removing its folder.
    fn first_track_folder_action(&self) -> (a: Action)
        ensures
            a@ == normal_key_core(self@, Key::Char('D'), 0).1,
    {
        if self.selected_album >= self.album_names.len() {
            return Action::Nothing;
        }
        let name = &self.album_names[self.selected_album];
        let ghost ts = self.all_tracks@;
        let mut i: usize = 0;
        assert(ts.take(0) =~= Seq::<TrackTags>::empty());
        while i < self.all_tracks.len()
            invariant
                i <= ts.len(),
                ts == self.all_tracks@,
                self.selected_album < self.album_names@.len(),
                name@ == self@.album_names[self@.selected_album],
                tracks_of_album(ts.take(i as int), name@).len() == 0,
            decreases ts.len() - i,
        {
            assert(ts.take(i + 1 as int).drop_last() =~= ts.take(i as int));
            assert(ts.take(i + 1 as int).last() == ts[i as int]);
            if self.all_tracks[i].album == *name {
                proof {
                    lemma_tracks_of_album_first(ts, name@, i as int);
                    assert(self@.album_names[self@.selected_album] == name@);
                    assert(self@.all_tracks[tracks_of_album(ts, name@)[0]] == ts[i as int]);
                }
                let p = self.all_tracks[i].path.clone();
                assert(p@ == ts[i as int].path@);
                return Action::RemoveAlbumFolder(p);
            }
            i += 1;
        }
        assert(ts.take(ts.len() as int) =~= ts);
        Action::Nothing
    }

    /// Reacts to a key press: changes the navigation state and says what outside work the
    /// key asks for, and whether the status message is to be cleared.
    pub fn handle_key(&mut self, k: Key, entropy: u64) -> (r: (Action, bool))
        ensures
            (final(self)@, r.0@, r.1) == key_step(old(self)@, k, entropy),
    {
        match k {
            Key::CtrlC => {
                self.exit = true;
                return (Action::Nothing, false);
            },
            Key::CtrlR => {
                return (Action::Rescan, false);
            },
            _ => {},
        }
        let a = match self.input_mode {
            InputMode::Search => self.search_key(k),
            InputMode::Browse => self.browse_key(k),
            InputMode::RemovePath => self.remove_key(k),
            InputMode::Normal => {
                let a = self.normal_key_core(k, entropy);
                if matches!(self.focus, Focus::Albums) {
                    self.load_album_tracks();
                }
                a
            },
        };
        (a, true)
    }
}

// ---------------------------------------------------------------------------------------------
// Track end, library refresh, music folders, browser
// ---------------------------------------------------------------------------------------------
/// Watching for the end of a track: when the player has run empty, with a track chosen and
/// not paused, the next track starts once; otherwise the watch is re-armed.
pub open spec fn track_end(
    m: NavModel,
    has_meta: bool,
    player_empty: bool,
    player_paused: bool,
    has_path: bool,
    entropy: u64,
) -> (NavModel, ActionModel) {
    if !has_meta {
        (m, ActionModel::Nothing)
    } else if player_empty && has_path && !player_paused {
        if !m.track_ended {
            next_track(NavModel { track_ended: true, ..m }, entropy)
        } else {
            (m, ActionModel::Nothing)
        }
    } else {
        (NavModel { track_ended: false, ..m }, ActionModel::Nothing)
    }
}

/// Taking in a re-read library: the album selection is held within the albums and the
/// selected album's tracks are loaded afresh.
pub open spec fn refreshed(m: NavModel, tracks: Seq<TrackTags>, names: Seq<Seq<char>>) -> NavModel {
    load_album(
        NavModel {
            all_tracks: tracks,
            album_names: names,
            selected_album: if m.selected_album >= names.len() {
                if names.len() > 0 {
                    names.len() - 1
                } else {
                    0
                }
            } else {
                m.selected_album
            },
            prev_album: None,
            ..m
        },
    )
}

/// `a` may stay before `b` when ordering names by their lower-cased form.
pub open spec fn name_le(a: Seq<char>, b: Seq<char>) -> bool {
    !text_lt(unicode_lowercase(b), unicode_lowercase(a))
}

/// The browser's entries for a folder: `".."` first when it has a parent, then its
/// sub-folders ordered by lower-cased name (a stable sort).
pub open spec fn browser_listing(has_parent: bool, names: Seq<Seq<char>>) -> Seq<(Seq<char>, bool)> {
    let dirs = sort_stable(names, |a: Seq<char>, b: Seq<char>| name_le(a, b)).map_values(
        |n: Seq<char>| (n, true),
    );
    if has_parent {
        seq![(".."@, true)] + dirs
    } else {
        dirs
    }
}

/// Sorts `names` by their lower-cased form, keeping the order of names that compare equal.
fn sort_by_lowercase(names: &Vec<String>) -> (r: Vec<String>)
    ensures
        strings_view(r@) == sort_stable(
            strings_view(names@),
            |a: Seq<char>, b: Seq<char>| name_le(a, b),
        ),
{
    let ghost le = |a: Seq<char>, b: Seq<char>| name_le(a, b);
    let ghost nv = strings_view(names@);
    let mut sorted: Vec<(Vec<char>, String)> = Vec::new();
    let mut i: usize = 0;
    assert(nv.take(0) =~= Seq::<Seq<char>>::empty());
    while i < names.len()
        invariant
            i <= names@.len(),
            nv == strings_view(names@),
            le == (|a: Seq<char>, b: Seq<char>| name_le(a, b)),
            sorted@.map_values(|e: (Vec<char>, String)| e.1@) == sort_stable(nv.take(i as int), le),
            forall|k: int|
                0 <= k < sorted@.len() ==> (#[trigger] sorted@[k]).0@ == unicode_lowercase(
                    sorted@[k].1@,
                ),
        decreases names@.len() - i,
    {
        let name = names[i].clone();
        let lower = chars_of(to_lowercase(name.as_str()).as_str());
        let ghost xv = name@;
        assert(xv == nv[i as int]);
        let ghost s = sorted@.map_values(|e: (Vec<char>, String)| e.1@);
        let mut p: usize = sorted.len();
        assert(s.take(p as int) =~= s);
        while p > 0 && text_less(lower.as_slice(), sorted[p - 1].0.as_slice())
            invariant
                p <= sorted@.len(),
                s == sorted@.map_values(|e: (Vec<char>, String)| e.1@),
                le == (|a: Seq<char>, b: Seq<char>| name_le(a, b)),
                lower@ == unicode_lowercase(xv),
                forall|k: int|
                    0 <= k < sorted@.len() ==> (#[trigger] sorted@[k]).0@ == unicode_lowercase(
                        sorted@[k].1@,
                    ),
                insert_point(s, xv, le) == insert_point(s.take(p as int), xv, le),
            decreases p,
        {
            assert(s.take(p as int).drop_last() =~= s.take(p - 1 as int));
            assert(s.take(p as int).last() == s[p - 1]);
            p -= 1;
        }
        proof {
            if p > 0 {
                assert(s.take(p as int).last() == s[p - 1]);
            }
            lemma_insert_point(s, xv, le);
        }
        sorted.insert(p, (lower, name));
        assert(sorted@.map_values(|e: (Vec<char>, String)| e.1@) =~= s.insert(p as int, xv));
        assert(nv.take(i + 1 as int).drop_last() =~= nv.take(i as int));
        assert(nv.take(i + 1 as int).last() == xv);
        i += 1;
    }
    assert(nv.take(names@.len() as int) =~= nv);
    let ghost sv = sorted@.map_values(|e: (Vec<char>, String)| e.1@);
    let mut r: Vec<String> = Vec::new();
    let mut j: usize = 0;
    while j < sorted.len()
        invariant
            j <= sorted@.len(),
            sv == sorted@.map_values(|e: (Vec<char>, String)| e.1@),
            strings_view(r@) == sv.take(j as int),
        decreases sorted@.len() - j,
    {
        let ghost prev = strings_view(r@);
        r.push(sorted[j].1.clone());
        assert(strings_view(r@) =~= prev.push(sv[j as int]));
        assert(sv.take(j + 1 as int) =~= sv.take(j as int).push(sv[j as int]));
        j += 1;
    }
    assert(sv.take(sorted@.len() as int) =~= sv);
    r
}

impl NavState {
    /// A fresh navigation state over a library: first album selected and its tracks loaded,
    /// nothing searched, the browser empty.
    pub fn new(
        all_tracks: Vec<TrackTags>,
        album_names: Vec<String>,
        music_dirs: Vec<String>,
        repeat: bool,
        shuffle: bool,
        theme: ThemeKind,
    ) -> (r: NavState)
        ensures
            r@ == load_album(
                NavModel {
                    all_tracks: all_tracks@,
                    album_names: strings_view(album_names@),
                    album_tracks: Seq::empty(),
                    selected_album: 0,
                    prev_album: None,
                    selected_track: 0,
                    focus: Focus::Albums,
                    input_mode: InputMode::Normal,
                    search_query: Seq::empty(),
                    search_results: Seq::empty(),
                    browser_entries: Seq::empty(),
                    browser_has_parent: false,
                    browser_selection: 0,
                    music_dirs: strings_view(music_dirs@),
                    remove_paths: strings_view(music_dirs@),
                    remove_path_selection: 0,
                    track_ended: false,
                    exit: false,
                    repeat,
                    shuffle,
                    theme,
                    show_lyrics: false,
                    show_help: false,
                },
            ),
    {
        let remove_paths = clone_strings(&music_dirs);
        let mut nav = NavState {
            all_tracks,
            album_names,
            album_tracks: Vec::new(),
            selected_album: 0,
            prev_album: None,
            selected_track: 0,
            focus: Focus::Albums,
            input_mode: InputMode::Normal,
            search_query: String::new(),
            search_results: Vec::new(),
            browser_entries: Vec::new(),
            browser_has_parent: false,
            browser_selection: 0,
            music_dirs,
            remove_paths,
            remove_path_selection: 0,
            track_ended: false,
            exit: false,
            repeat,
            shuffle,
            theme,
            show_lyrics: false,
            show_help: false,
        };
        nav.load_album_tracks();
        nav
    }

    /// Watches for the end of the playing track (called once per frame).
    pub fn check_track_end(
        &mut self,
        has_meta: bool,
        player_empty: bool,
        player_paused: bool,
        has_path: bool,
        entropy: u64,
    ) -> (a: Action)
        ensures
            (final(self)@, a@) == track_end(
                old(self)@,
                has_meta,
                player_empty,
                player_paused,
                has_path,
                entropy,
            ),
    {
        if !has_meta {
            return Action::Nothing;
        }
        if player_empty && has_path && !player_paused {
            if !self.track_ended {
                self.track_ended = true;
                return self.next_track(entropy);
            }
            Action::Nothing
        } else {
            self.track_ended = false;
            Action::Nothing
        }
    }

    /// Takes in the library as re-read after a scan or a removal.
    pub fn refresh_library(&mut self, all_tracks: Vec<TrackTags>, album_names: Vec<String>)
        ensures
            final(self)@ == refreshed(old(self)@, all_tracks@, strings_view(album_names@)),
    {
        let n = album_names.len();
        self.all_tracks = all_tracks;
        self.album_names = album_names;
        if self.selected_album >= n {
            self.selected_album = if n > 0 {
                n - 1
            } else {
                0
            };
        }
        self.prev_album = None;
        self.load_album_tracks();
    }

    /// Adds a scanned folder to the music folders unless it is there already; says whether
    /// it was added (and the configuration is to be saved).
    pub fn add_music_dir(&mut self, path: String) -> (added: bool)
        ensures
            added == !strings_view(old(self).music_dirs@).contains(path@),
            strings_view(final(self).music_dirs@) == if added {
                strings_view(old(self).music_dirs@).push(path@)
            } else {
                strings_view(old(self).music_dirs@)
            },
            final(self)@ == (NavModel { music_dirs: final(self)@.music_dirs, ..old(self)@ }),
    {
        let ghost v = strings_view(self.music_dirs@);
        let mut i: usize = 0;
        while i < self.music_dirs.len()
            invariant
                i <= self.music_dirs@.len(),
                v == strings_view(self.music_dirs@),
                forall|k: int| 0 <= k < i ==> v[k] != path@,
            decreases self.music_dirs@.len() - i,
        {
            if self.music_dirs[i] == path {
                assert(v[i as int] == path@);
                return false;
            }
            i += 1;
        }
        let ghost pv = path@;
        self.music_dirs.push(path);
        assert(strings_view(self.music_dirs@) =~= v.push(pv));
        assert(self@ =~= (NavModel { music_dirs: self@.music_dirs, ..old(self)@ }));
        true
    }

    /// Shows a folder in the browser: `".."` first when it has a parent, then its sub-folders
    /// (`dir_names`, in any order) sorted by lower-cased name; the first entry is selected.
    pub fn set_browser(&mut self, has_parent: bool, dir_names: Vec<String>)
        ensures
            final(self)@ == (NavModel {
                browser_entries: browser_listing(has_parent, strings_view(dir_names@)),
                browser_has_parent: has_parent,
                browser_selection: 0,
                ..old(self)@
            }),
    {
        let sorted = sort_by_lowercase(&dir_names);
        let ghost sv = strings_view(sorted@);
        let mut entries: Vec<(String, bool)> = Vec::new();
        if has_parent {
            entries.push((String::from_str(".."), true));
        }
        let ghost base = entries_view(entries@);
        let mut i: usize = 0;
        while i < sorted.len()
            invariant
                i <= sorted@.len(),
                sv == strings_view(sorted@),
                base == (if has_parent {
                    seq![(".."@, true)]
                } else {
                    Seq::<(Seq<char>, bool)>::empty()
                }),
                entries_view(entries@) == base + sv.take(i as int).map_values(
                    |n: Seq<char>| (n, true),
                ),
            decreases sorted@.len() - i,
        {
            let ghost prev = entries_view(entries@);
            entries.push((sorted[i].clone(), true));
            assert(entries_view(entries@) =~= prev.push((sv[i as int], true)));
            assert(sv.take(i + 1 as int).map_values(|n: Seq<char>| (n, true)) =~= sv.take(
                i as int,
            ).map_values(|n: Seq<char>| (n, true)).push((sv[i as int], true)));
            i += 1;
        }
        assert(sv.take(sorted@.len() as int) =~= sv);
        self.browser_entries = entries;
        self.browser_has_parent = has_parent;
        self.browser_selection = 0;
        assert(self@ =~= (NavModel {
            browser_entries: browser_listing(has_parent, strings_view(dir_names@)),
            browser_has_parent: has_parent,
            browser_selection: 0,
            ..old(self)@
        }));
    }
}

// ---------------------------------------------------------------------------------------------
// Mouse
// ---------------------------------------------------------------------------------------------
/// How far a list of `visible` rows is scrolled to show row `sel`.
pub open spec fn scroll_for(sel: int, visible: int) -> int {
    if sel >= visible + 1 {
        sel - visible + 1
    } else {
        0
    }
}

/// A left click at (`col`, `row`) in a terminal of `term_w` by `term_h` cells: in the album
/// list (the right panel) it focuses the albums and selects the album under the pointer; in
/// the track list (below the ten-row information panel on the left) it focuses the tracks
/// and selects the track under the pointer. A double click then plays the selected track.
pub open spec fn click(
    m: NavModel,
    col: u16,
    row: u16,
    term_w: u16,
    term_h: u16,
    double: bool,
) -> (NavModel, ActionModel) {
    let main_h: int = if term_h >= 5 {
        term_h - 5
    } else {
        0
    };
    let left_w: int = (term_w * 38) / 100;
    let m1 = if 1 <= row < 1 + main_h {
        if col >= left_w {
            let f = NavModel { focus: Focus::Albums, ..m };
            if row >= 2 {
                let idx = scroll_for(m.selected_album, main_h - 2) + (row - 2);
                if idx < m.album_names.len() {
                    load_album(NavModel { selected_album: idx, ..f })
                } else {
                    f
                }
            } else {
                f
            }
        } else {
            let f = NavModel { focus: Focus::Tracks, ..m };
            if row >= 12 {
                let idx = scroll_for(m.selected_track, main_h - 12) + (row - 12);
                if idx < m.album_tracks.len() {
                    NavModel { selected_track: idx, ..f }
                } else {
                    f
                }
            } else {
                f
            }
        }
    } else {
        m
    };
    if double {
        (m1, play_pick(m1, false))
    } else {
        (m1, ActionModel::Nothing)
    }
}

/// The row under the pointer, scrolled as the list is, unless it lies past the list.
fn row_pick(sel: usize, visible: usize, row_off: usize, len: usize) -> (r: Option<usize>)
    ensures
        r matches Some(i) ==> i == scroll_for(sel as int, visible as int) + row_off && i < len,
        r is None ==> scroll_for(sel as int, visible as int) + row_off >= len,
{
    let scroll = if visible < usize::MAX && sel >= visible + 1 {
        if visible >= 1 {
            sel - (visible - 1)
        } else if sel < usize::MAX {
            sel + 1
        } else {
            return None;
        }
    } else {
        0
    };
    if scroll >= len || row_off >= len - scroll {
        None
    } else {
        Some(scroll + row_off)
    }
}

impl NavState {
    /// Reacts to a left click; `double` tells whether it repeats the previous click.
    #[verifier::rlimit(40)]
    pub fn handle_click(&mut self, col: u16, row: u16, term_w: u16, term_h: u16, double: bool) -> (a:
        Action)
        requires
            term_w <= 1724,
        ensures
            (final(self)@, a@) == click(old(self)@, col, row, term_w, term_h, double),
    {
        let main_h: u16 = if term_h >= 5 {
            term_h - 5
        } else {
            0
        };
        let left_w: u16 = term_w * 38 / 100;
        if row >= 1 && row < 1 + main_h {
            if col >= left_w {
                self.focus = Focus::Albums;
                if row >= 2 {
                    let visible = (main_h - 2) as usize;
                    match row_pick(
                        self.selected_album,
                        visible,
                        (row - 2) as usize,
                        self.album_names.len(),
                    ) {
                        Some(idx) => {
                            self.selected_album = idx;
                            self.load_album_tracks();
                        },
                        None => {},
                    }
                }
            } else {
                self.focus = Focus::Tracks;
                if row >= 12 {
                    let area = (main_h - 12) as usize;
                    match row_pick(
                        self.selected_track,
                        area,
                        (row - 12) as usize,
                        self.album_tracks.len(),
                    ) {
                        Some(idx) => {
                            self.selected_track = idx;
                        },
                        None => {},
                    }
                }
            }
        }
        if double {
            self.play_pick(false)
        } else {
            Action::Nothing
        }
    }
}

// ---------------------------------------------------------------------------------------------
// Laws
// ---------------------------------------------------------------------------------------------
/// Pressing Tab twice in the normal view leaves the navigation state as it was, once the
/// selected album's tracks are loaded.
pub proof fn law_tab_twice(m: NavModel, entropy: u64)
    requires
        m.input_mode is Normal,
        m.prev_album == Some(m.selected_album),
    ensures
        key_step(key_step(m, Key::Tab, entropy).0, Key::Tab, entropy).0 == m,
        key_step(m, Key::Tab, entropy).0.focus == toggled(m.focus),
{
    let m1 = key_step(m, Key::Tab, entropy).0;
    let m2 = key_step(m1, Key::Tab, entropy).0;
    assert(m2 =~= m);
}

/// The arrow keys keep the album selection on an album, and, while searching, the track
/// selection on a result.
pub proof fn law_arrows_keep_selection(m: NavModel, k: Key, entropy: u64)
    requires
        k is Up || k is Down,
    ensures
        m.input_mode is Normal && 0 <= m.selected_album < m.album_names.len() ==> 0
            <= key_step(m, k, entropy).0.selected_album < key_step(m, k, entropy).0.album_names.len(),
        m.input_mode is Search && 0 <= m.selected_track < m.search_results.len() ==> 0
            <= key_step(m, k, entropy).0.selected_track < key_step(
            m,
            k,
            entropy,
        ).0.search_results.len(),
{
}

/// While searching, the results always follow the query: after a typed character or a
/// backspace they are the tracks that the new query hits, and the first is selected.
pub proof fn law_search_follows_query(m: NavModel, k: Key, entropy: u64)
    requires
        m.input_mode is Search,
        k is Char || k is Backspace,
    ensures
        key_step(m, k, entropy).0.search_results == search_hits(
            key_step(m, k, entropy).0.all_tracks,
            key_step(m, k, entropy).0.search_query,
        ),
        key_step(m, k, entropy).0.selected_track == 0,
        key_step(m, k, entropy).0.input_mode is Search,
{
}

/// Opening the search and leaving it with Esc returns to the normal view with the query and
/// the results cleared.
pub proof fn law_search_then_escape(m: NavModel, entropy: u64)
    requires
        m.input_mode is Normal,
    ensures
        ({
            let m2 = key_step(key_step(m, Key::Char('f'), entropy).0, Key::Esc, entropy).0;
            &&& m2.input_mode is Normal
            &&& m2.search_query.len() == 0
            &&& m2.search_results.len() == 0
            &&& m2.all_tracks == m.all_tracks
        }),
{
}

/// Going to the next track and back to the previous one returns to the same track when
/// neither shuffle nor the end of the album intervenes.
pub proof fn law_next_then_previous(m: NavModel, entropy: u64)
    requires
        !m.shuffle,
        0 <= m.selected_track,
        m.selected_track + 1 < m.album_tracks.len(),
    ensures
        previous_track(next_track(m, entropy).0).0 == m,
{
    let m2 = previous_track(next_track(m, entropy).0).0;
    assert(m2 =~= m);
}

/// With repeat on and shuffle off, the track after the last one is the first one.
pub proof fn law_repeat_wraps(m: NavModel, entropy: u64)
    requires
        m.repeat,
        !m.shuffle,
        m.album_tracks.len() > 0,
        m.selected_track + 1 >= m.album_tracks.len(),
    ensures
        next_track(m, entropy).0.selected_track == 0,
{
}

proof fn lemma_push_contains(s: Seq<Seq<char>>, a: Seq<char>, y: Seq<char>)
    ensures
        s.push(a).contains(y) <==> (s.contains(y) || a == y),
{
    if s.push(a).contains(y) {
        let k = choose|k: int| 0 <= k < s.push(a).len() && s.push(a)[k] == y;
        if k < s.len() {
            assert(s[k] == y);
        }
    }
    if s.contains(y) {
        let k = choose|k: int| 0 <= k < s.len() && s[k] == y;
        assert(s.push(a)[k] == y);
    }
    if a == y {
        assert(s.push(a)[s.len() as int] == y);
    }
}

proof fn lemma_without(s: Seq<Seq<char>>, x: Seq<char>)
    ensures
        !without(s, x).contains(x),
        forall|y: Seq<char>| y != x ==> (without(s, x).contains(y) <==> s.contains(y)),
    decreases s.len(),
{
    if s.len() > 0 {
        lemma_without(s.drop_last(), x);
        let r = without(s.drop_last(), x);
        assert(s.drop_last().push(s.last()) =~= s);
        assert forall|y: Seq<char>| y != x implies (without(s, x).contains(y) <==> s.contains(y)) by {
            lemma_push_contains(s.drop_last(), s.last(), y);
            lemma_push_contains(r, s.last(), y);
        }
        lemma_push_contains(r, s.last(), x);
    }
}

/// Removing a music folder from the removal list forgets it: it is neither listed for
/// removal nor a music folder any more, and the other folders stay.
pub proof fn law_removed_folder_forgotten(m: NavModel, entropy: u64)
    requires
        m.input_mode is RemovePath,
        0 <= m.remove_path_selection < m.remove_paths.len(),
    ensures
        ({
            let (m1, a, _) = key_step(m, Key::Enter, entropy);
            let prefix = m.remove_paths[m.remove_path_selection];
            &&& a == ActionModel::RemoveFolder(prefix)
            &&& !m1.remove_paths.contains(prefix)
            &&& !m1.music_dirs.contains(prefix)
            &&& forall|d: Seq<char>| d != prefix ==> (m1.music_dirs.contains(d) <==> m.music_dirs.contains(d))
        }),
{
    let prefix = m.remove_paths[m.remove_path_selection];
    lemma_without(m.remove_paths, prefix);
    lemma_without(m.music_dirs, prefix);
}

/// The first track of an album, found at `i` with none before it, is the first of its tracks.
proof fn lemma_tracks_of_album_first(ts: Seq<TrackTags>, name: Seq<char>, i: int)
    requires
        0 <= i < ts.len(),
        ts[i].album@ == name,
        tracks_of_album(ts.take(i), name).len() == 0,
    ensures
        tracks_of_album(ts, name).len() > 0,
        tracks_of_album(ts, name)[0] == i,
{
    lemma_tracks_of_album_prefix(ts, name, i + 1);
    assert(ts.take(i + 1).drop_last() =~= ts.take(i));
    assert(ts.take(i + 1).last() == ts[i]);
    assert(tracks_of_album(ts.take(i + 1), name) =~= seq![i]);
    assert(tracks_of_album(ts, name)[0] == tracks_of_album(ts.take(i + 1), name)[0]);
}

/// The tracks of an album among the first `k` tracks lead its tracks among all of them.
proof fn lemma_tracks_of_album_prefix(ts: Seq<TrackTags>, name: Seq<char>, k: int)
    requires
        0 <= k <= ts.len(),
    ensures
        tracks_of_album(ts.take(k), name).len() <= tracks_of_album(ts, name).len(),
        forall|j: int|
            0 <= j < tracks_of_album(ts.take(k), name).len() ==> #[trigger] tracks_of_album(
                ts,
                name,
            )[j] == tracks_of_album(ts.take(k), name)[j],
    decreases ts.len() - k,
{
    if k == ts.len() {
        assert(ts.take(k) =~= ts);
    } else {
        lemma_tracks_of_album_prefix(ts, name, k + 1);
        assert(ts.take(k + 1).drop_last() =~= ts.take(k));
        assert(ts.take(k + 1).last() == ts[k]);
    }
}

/// The actions after which the configuration is saved: a change of the repeat, shuffle or
/// theme setting, and a change of the volume.
pub open spec fn asks_to_save(a: ActionModel) -> bool {
    a is SaveConfig || a is VolumeUp || a is VolumeDown
}

/// In the normal view the volume keys (`+` or `=`, `-` or `_`) change the volume and ask for
/// it to be saved in the configuration.
pub proof fn law_volume_keys_save(m: NavModel, entropy: u64)
    requires
        m.input_mode is Normal,
    ensures
        key_step(m, Key::Char('+'), entropy).1 == ActionModel::VolumeUp,
        key_step(m, Key::Char('='), entropy).1 == ActionModel::VolumeUp,
        key_step(m, Key::Char('-'), entropy).1 == ActionModel::VolumeDown,
        key_step(m, Key::Char('_'), entropy).1 == ActionModel::VolumeDown,
        asks_to_save(key_step(m, Key::Char('+'), entropy).1),
        asks_to_save(key_step(m, Key::Char('='), entropy).1),
        asks_to_save(key_step(m, Key::Char('-'), entropy).1),
        asks_to_save(key_step(m, Key::Char('_'), entropy).1),
{
}

/// In the normal view `j` asks for a seek five seconds back and `l` five seconds forward;
/// `t` moves to the next colour theme and asks for the settings to be saved; `y` and `?`
/// show or hide the lyrics panel and the key help.
pub proof fn law_player_keys(m: NavModel, entropy: u64)
    requires
        m.input_mode is Normal,
    ensures
        key_step(m, Key::Char('j'), entropy).1 == ActionModel::SeekBack,
        key_step(m, Key::Char('l'), entropy).1 == ActionModel::SeekForward,
        key_step(m, Key::Char('t'), entropy).1 == ActionModel::SaveConfig,
        asks_to_save(key_step(m, Key::Char('t'), entropy).1),
        key_step(m, Key::Char('t'), entropy).0.theme == theme_after(m.theme),
        key_step(m, Key::Char('y'), entropy).0.show_lyrics == !m.show_lyrics,
        key_step(m, Key::Char('?'), entropy).0.show_help == !m.show_help,
{
}

/// In the normal view, with the selection on a track of the loaded album, `b` (or `B`) goes to
/// the previous track of the album (from the first to the last) and plays it, stopping what
/// plays first; nothing else of the navigation state changes.
pub proof fn law_b_plays_previous_track(m: NavModel, c: char, entropy: u64)
    requires
        m.input_mode is Normal,
        c == 'b' || c == 'B',
        0 <= m.selected_track < m.album_tracks.len(),
        m.focus is Tracks || m.prev_album == Some(m.selected_album),
    ensures
        key_step(m, Key::Char(c), entropy).0 == (NavModel {
            selected_track: if m.selected_track > 0 {
                m.selected_track - 1
            } else {
                m.album_tracks.len() - 1
            },
            ..m
        }),
        key_step(m, Key::Char(c), entropy).1 == (ActionModel::Play {
            track: m.album_tracks[if m.selected_track > 0 {
                m.selected_track - 1
            } else {
                m.album_tracks.len() - 1
            }],
            stop_first: true,
        }),
        key_step(m, Key::Char(c), entropy).2,
{
}

} // verus!
