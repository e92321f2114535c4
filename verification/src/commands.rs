use vstd::prelude::*;
use crate::chars::{
    chars_of, decimal, occurs_at, pad_left, push_char, push_decimal, push_padded_left, push_str,
    string_eq,
};

verus! {

/// The command line: an optional subcommand (without one the player's screen opens).
pub struct Cli {
    pub command: Option<Commands>,
}

/// The subcommands.
#[allow(inconsistent_fields)]
pub enum Commands {
    /// Scan a folder (by default the first configured music folder) into the library.
    Scan { folder: Option<String> },
    /// List the tracks, albums or artists of the library.
    List { kind: String },
    /// Search the library.
    Search { keyword: String },
    /// Show a track's tags, by path or by search keyword.
    Info { track: String },
    /// Remove every track under a path from the library.
    RemovePath { path: String },
    /// Configuration management.
    Config { cmd: ConfigCommand },
    /// Playlist management.
    Playlist { cmd: PlaylistCommand },
}

/// The configuration subcommands.
pub enum ConfigCommand {
    /// Set the music folder.
    SetMusicDir { path: String },
    /// Show the configuration.
    Show,
}

/// The playlist subcommands.
pub enum PlaylistCommand {
    Create { name: String },
    List,
    Show { name: String },
}

/// What `list` lists.
#[derive(PartialEq, Eq, Structural, Clone, Copy, Debug)]
pub enum ListKind {
    Tracks,
    Albums,
    Artists,
}

/// The kind named by the argument of `list`: `tracks` or `songs`, `albums`, `artists`;
/// any other word is refused.
pub fn list_kind(kind: &str) -> (r: Option<ListKind>)
    ensures
        r == Some(ListKind::Tracks) <==> (kind@ == "tracks"@ || kind@ == "songs"@),
        r == Some(ListKind::Albums) <==> kind@ == "albums"@,
        r == Some(ListKind::Artists) <==> kind@ == "artists"@,
        r is None <==> !(kind@ == "tracks"@ || kind@ == "songs"@ || kind@ == "albums"@ || kind@
            == "artists"@),
{
    proof {
        reveal_strlit("tracks");
        reveal_strlit("songs");
        reveal_strlit("albums");
        reveal_strlit("artists");
        assert("tracks"@[0] != "albums"@[0] && "songs"@[0] != "albums"@[0]);
        assert("tracks"@[0] != "artists"@[0] && "songs"@[0] != "artists"@[0]);
        assert("albums"@[1] != "artists"@[1]);
    }
    let k = kind.to_owned();
    if string_eq(&k, "tracks") || string_eq(&k, "songs") {
        Some(ListKind::Tracks)
    } else if string_eq(&k, "albums") {
        Some(ListKind::Albums)
    } else if string_eq(&k, "artists") {
        Some(ListKind::Artists)
    } else {
        None
    }
}

/// The folder that `scan` scans: the one given, else the first configured music folder;
/// `None` when neither exists (nothing is configured).
pub fn scan_folder(folder: Option<String>, first_music_dir: Option<String>) -> (r: Option<String>)
    ensures
        folder is Some ==> r == folder,
        folder is None ==> r == first_music_dir,
{
    match folder {
        Some(f) => Some(f),
        None => first_music_dir,
    }
}

/// The extension of playlist files.
pub open spec fn json_ext() -> Seq<char> {
    seq!['.', 'j', 's', 'o', 'n']
}

/// The file name under which the playlist `name` is kept.
pub fn playlist_file_name(name: &str) -> (r: String)
    ensures
        r@ == name@ + json_ext(),
{
    let mut r = name.to_owned();
    push_char(&mut r, '.');
    push_char(&mut r, 'j');
    push_char(&mut r, 's');
    push_char(&mut r, 'o');
    push_char(&mut r, 'n');
    assert(r@ =~= name@ + json_ext());
    r
}

/// `s` with every occurrence of `pat` taken out, scanning from the front (what
/// `str::replace(pat, "")` gives for a non-empty `pat`).
pub open spec fn remove_all(s: Seq<char>, pat: Seq<char>) -> Seq<char>
    decreases s.len(),
{
    if s.len() == 0 {
        s
    } else if pat.len() > 0 && occurs_at(s, pat, 0) {
        remove_all(s.skip(pat.len() as int), pat)
    } else {
        seq![s[0]] + remove_all(s.skip(1), pat)
    }
}

proof fn lemma_remove_all_appended(name: Seq<char>)
    requires
        forall|i: int| !occurs_at(name, json_ext(), i),
    ensures
        remove_all(name + json_ext(), json_ext()) == name,
    decreases name.len(),
{
    let j = json_ext();
    let s = name + j;
    if name.len() == 0 {
        assert(s =~= j);
        assert(occurs_at(s, j, 0)) by {
            assert(s.subrange(0, 5) =~= j);
        }
        assert(s.skip(5) =~= Seq::<char>::empty());
        assert(remove_all(s.skip(5), j) == Seq::<char>::empty());
        assert(remove_all(s, j) == remove_all(s.skip(5), j));
        assert(name =~= Seq::<char>::empty());
    } else {
        assert(!occurs_at(s, j, 0)) by {
            if occurs_at(s, j, 0) {
                if name.len() >= 5 {
                    assert(name.subrange(0, 5) =~= s.subrange(0, 5));
                    assert(occurs_at(name, j, 0));
                } else {
                    assert(s[name.len() as int] == '.');
                    assert(s.subrange(0, 5)[name.len() as int] == s[name.len() as int]);
                }
            }
        }
        assert forall|i: int| !occurs_at(name.skip(1), j, i) by {
            if occurs_at(name.skip(1), j, i) {
                assert(name.subrange(i + 1, i + 6) =~= name.skip(1).subrange(i, i + 5));
                assert(occurs_at(name, j, i + 1));
            }
        }
        lemma_remove_all_appended(name.skip(1));
        assert(s.skip(1) =~= name.skip(1) + j);
        assert(seq![name[0]] + name.skip(1) =~= name);
        assert(s[0] == name[0]);
        assert(remove_all(s, j) == seq![s[0]] + remove_all(s.skip(1), j));
    }
}

/// The name read back from the file name under which a playlist is kept is the playlist's
/// name, for a name that does not itself hold `.json`.
pub proof fn law_playlist_name_round_trip(name: Seq<char>)
    requires
        forall|i: int| !occurs_at(name, json_ext(), i),
    ensures
        occurs_at(name + json_ext(), json_ext(), name.len() as int),
        remove_all(name + json_ext(), json_ext()) == name,
{
    let s = name + json_ext();
    assert(s.subrange(name.len() as int, name.len() + 5 as int) =~= json_ext());
    lemma_remove_all_appended(name);
}

/// Whether `pat` occurs in `v` at `i`.
fn occurs_at_exec(v: &[char], pat: &[char], i: usize) -> (r: bool)
    requires
        i <= v@.len(),
    ensures
        r == occurs_at(v@, pat@, i as int),
{
    if pat.len() > v.len() - i {
        return false;
    }
    let mut j: usize = 0;
    while j < pat.len()
        invariant
            i + pat@.len() <= v@.len(),
            v@.len() == v.len(),
            j <= pat@.len(),
            forall|k: int| 0 <= k < j ==> v@[i + k] == pat@[k],
        decreases pat@.len() - j,
    {
        if v[i + j] != pat[j] {
            assert(v@.subrange(i as int, i + pat@.len())[j as int] == v@[i + j]);
            return false;
        }
        j += 1;
    }
    assert(v@.subrange(i as int, i + pat@.len()) =~= pat@);
    true
}

/// The playlist named by a file of the playlist folder: for a file name that ends in
/// `.json`, the name with every `.json` taken out; `None` for other files.
pub fn playlist_name_of_file(file_name: &str) -> (r: Option<String>)
    ensures
        r is Some <==> file_name@.len() >= 5 && occurs_at(
            file_name@,
            json_ext(),
            file_name@.len() - 5,
        ),
        r matches Some(n) ==> n@ == remove_all(file_name@, json_ext()),
{
    let v = chars_of(file_name);
    let pat: Vec<char> = vec!['.', 'j', 's', 'o', 'n'];
    assert(pat@ =~= json_ext());
    let n = v.len();
    if n < 5 || !occurs_at_exec(v.as_slice(), pat.as_slice(), n - 5) {
        return None;
    }
    let mut out = String::new();
    let mut i: usize = 0;
    assert(v@.skip(0) =~= v@);
    while i < n
        invariant
            n == v@.len(),
            pat@ == json_ext(),
            i <= n,
            out@ + remove_all(v@.skip(i as int), json_ext()) == remove_all(v@, json_ext()),
        decreases n - i,
    {
        let ghost rest = v@.skip(i as int);
        assert(occurs_at(rest, json_ext(), 0) == occurs_at(v@, json_ext(), i as int)) by {
            if i + 5 <= n {
                assert(rest.subrange(0, 5) =~= v@.subrange(i as int, i + 5));
            }
        }
        if occurs_at_exec(v.as_slice(), pat.as_slice(), i) {
            assert(rest.skip(5) =~= v@.skip(i + 5));
            i += 5;
        } else {
            assert(rest.skip(1) =~= v@.skip(i + 1));
            assert(rest[0] == v@[i as int]);
            let ghost before = out@;
            push_char(&mut out, v[i]);
            assert(out@ + remove_all(v@.skip(i + 1), json_ext()) =~= before + (seq![v@[i as int]]
                + remove_all(v@.skip(i + 1), json_ext())));
            i += 1;
        }
    }
    assert(v@.skip(n as int) =~= Seq::<char>::empty());
    assert(out@ =~= remove_all(v@, json_ext()));
    Some(out)
}

/// The line that `list tracks` prints for the track at `i` (counting from 0): its number
/// right-aligned in four columns, then `. artist - title [album]`.
pub fn track_list_line(i: usize, artist: &str, title: &str, album: &str) -> (r: String)
    requires
        i < u64::MAX,
    ensures
        r@ == pad_left(decimal((i + 1) as nat), 4) + ". "@ + artist@ + " - "@ + title@ + " ["@
            + album@ + "]"@,
{
    let mut num = String::new();
    push_decimal(&mut num, i as u64 + 1);
    let mut r = String::new();
    push_padded_left(&mut r, num.as_str(), 4);
    push_str(&mut r, ". ");
    push_str(&mut r, artist);
    push_str(&mut r, " - ");
    push_str(&mut r, title);
    push_str(&mut r, " [");
    push_str(&mut r, album);
    push_str(&mut r, "]");
    r
}

/// The line that `search` prints for a track found: `  artist - title [album] (duration)`.
pub fn search_result_line(artist: &str, title: &str, album: &str, duration: &str) -> (r: String)
    ensures
        r@ == "  "@ + artist@ + " - "@ + title@ + " ["@ + album@ + "] ("@ + duration@ + ")"@,
{
    let mut r = String::new();
    push_str(&mut r, "  ");
    push_str(&mut r, artist);
    push_str(&mut r, " - ");
    push_str(&mut r, title);
    push_str(&mut r, " [");
    push_str(&mut r, album);
    push_str(&mut r, "] (");
    push_str(&mut r, duration);
    push_str(&mut r, ")");
    r
}

/// The line that `playlist list` prints for a playlist: `  name (n tracks)`.
pub fn playlist_summary_line(name: &str, n: usize) -> (r: String)
    ensures
        r@ == "  "@ + name@ + " ("@ + decimal(n as nat) + " tracks)"@,
{
    let mut r = String::new();
    push_str(&mut r, "  ");
    push_str(&mut r, name);
    push_str(&mut r, " (");
    push_decimal(&mut r, n as u64);
    push_str(&mut r, " tracks)");
    r
}

/// The line that `playlist show` prints for the track at `i` (counting from 0):
/// `  number. track`.
pub fn playlist_track_line(i: usize, track: &str) -> (r: String)
    requires
        i < u64::MAX,
    ensures
        r@ == "  "@ + decimal((i + 1) as nat) + ". "@ + track@,
{
    let mut r = String::new();
    push_str(&mut r, "  ");
    push_decimal(&mut r, i as u64 + 1);
    push_str(&mut r, ". ");
    push_str(&mut r, track);
    r
}

} // verus!
