use vstd::prelude::*;

use crate::catalog::TrackTags;
use crate::chars::{
    decimal, pad_left, pad_right, push_char, push_decimal, push_padded_left, push_padded_right,
    push_str, string_eq,
};
use crate::tui::nav::{Focus, InputMode};

verus! {

// ---------------------------------------------------------------------------------------------
// Lists
// ---------------------------------------------------------------------------------------------
/// Rows skipped at the top of a list `visible` rows tall, so that row `sel` shows.
pub open spec fn list_scroll(sel: int, visible: int) -> int {
    if sel >= visible {
        sel - visible + 1
    } else {
        0
    }
}

/// How far a list `visible` rows tall is scrolled to show row `sel`.
pub fn scroll_offset(sel: usize, visible: usize) -> (r: usize)
    requires
        visible > 0 || sel < usize::MAX,
    ensures
        r == list_scroll(sel as int, visible as int),
{
    if sel >= visible {
        sel - visible + 1
    } else {
        0
    }
}

/// The selected row of a list scrolled by `list_scroll` is among the rows shown.
pub proof fn law_selection_is_shown(sel: nat, visible: nat)
    requires
        visible > 0,
    ensures
        list_scroll(sel as int, visible as int) <= sel < list_scroll(sel as int, visible as int)
            + visible,
        list_scroll(sel as int, visible as int) >= 0,
{
}

/// A selection kept inside a list of `len` rows (the last row when it lies past the end).
pub open spec fn clamped(sel: int, len: int) -> int {
    if sel < len {
        sel
    } else if len == 0 {
        0
    } else {
        len - 1
    }
}

/// `sel`, kept inside a list of `len` rows.
pub fn clamp_selection(sel: usize, len: usize) -> (r: usize)
    ensures
        r == clamped(sel as int, len as int),
{
    let last = if len == 0 {
        0
    } else {
        len - 1
    };
    if sel < last {
        sel
    } else if sel < len {
        sel
    } else {
        last
    }
}

/// The mark in front of a row: an arrow for the selected one.
pub open spec fn marker(selected: bool) -> Seq<char> {
    if selected {
        seq!['\u{25b8}', ' ']
    } else {
        seq![' ', ' ']
    }
}

/// The mark behind a row that holds the track now playing.
pub open spec fn now_mark(playing: bool) -> Seq<char> {
    if playing {
        seq![' ', '\u{266a}']
    } else {
        Seq::empty()
    }
}

fn push_marker(out: &mut String, selected: bool)
    ensures
        final(out)@ == old(out)@ + marker(selected),
{
    if selected {
        push_char(out, '\u{25b8}');
    } else {
        push_char(out, ' ');
    }
    push_char(out, ' ');
    assert(final(out)@ =~= old(out)@ + marker(selected));
}

fn push_now_mark(out: &mut String, playing: bool)
    ensures
        final(out)@ == old(out)@ + now_mark(playing),
{
    if playing {
        push_char(out, ' ');
        push_char(out, '\u{266a}');
    }
    assert(final(out)@ =~= old(out)@ + now_mark(playing));
}

// ---------------------------------------------------------------------------------------------
// Album list
// ---------------------------------------------------------------------------------------------
/// How many of the tracks `ts` belong to the album `name`.
pub open spec fn album_size(ts: Seq<TrackTags>, name: Seq<char>) -> nat
    decreases ts.len(),
{
    if ts.len() == 0 {
        0
    } else {
        album_size(ts.drop_last(), name) + if ts.last().album@ == name {
            1nat
        } else {
            0nat
        }
    }
}

/// The number of tracks of the album `name`.
pub fn album_track_count(tracks: &Vec<TrackTags>, name: &str) -> (r: usize)
    ensures
        r == album_size(tracks@, name@),
{
    let mut n: usize = 0;
    let mut i: usize = 0;
    while i < tracks.len()
        invariant
            i <= tracks@.len(),
            n == album_size(tracks@.take(i as int), name@),
            n <= i,
        decreases tracks@.len() - i,
    {
        assert(tracks@.take(i + 1 as int).drop_last() =~= tracks@.take(i as int));
        if string_eq(&tracks[i].album, name) {
            n += 1;
        }
        i += 1;
    }
    assert(tracks@.take(tracks@.len() as int) =~= tracks@);
    n
}

/// Whether the track at `current_path` belongs to the album `name`.
pub fn album_is_playing(tracks: &Vec<TrackTags>, name: &str, current_path: &str) -> (r: bool)
    ensures
        r == exists|k: int|
            0 <= k < tracks@.len() && (#[trigger] tracks@[k]).album@ == name@ && tracks@[k].path@
                == current_path@,
{
    let mut i: usize = 0;
    while i < tracks.len()
        invariant
            i <= tracks@.len(),
            forall|k: int|
                0 <= k < i ==> !((#[trigger] tracks@[k]).album@ == name@ && tracks@[k].path@
                    == current_path@),
        decreases tracks@.len() - i,
    {
        if string_eq(&tracks[i].album, name) && string_eq(&tracks[i].path, current_path) {
            return true;
        }
        i += 1;
    }
    false
}

/// The row of the album list for the album `name` of `count` tracks:
/// `name  (count tracks)`, with the selection arrow and the note of the album now playing.
pub fn album_row(name: &str, count: usize, selected: bool, playing: bool) -> (r: String)
    ensures
        r@ == marker(selected) + name@ + "  ("@ + decimal(count as nat) + " tracks)"@ + now_mark(
            playing,
        ),
{
    let mut r = String::new();
    push_marker(&mut r, selected);
    push_str(&mut r, name);
    push_str(&mut r, "  (");
    push_decimal(&mut r, count as u64);
    push_str(&mut r, " tracks)");
    push_now_mark(&mut r, playing);
    r
}

// ---------------------------------------------------------------------------------------------
// Track list
// ---------------------------------------------------------------------------------------------
/// The numeral of `n` on at least two digits, zero-filled (`{:02}`).
pub open spec fn two_digit_numeral(n: nat) -> Seq<char> {
    if n < 10 {
        seq!['0'] + decimal(n)
    } else {
        decimal(n)
    }
}

/// The width left for titles in a track list `inner_w` columns wide.
pub open spec fn title_width(inner_w: u16) -> nat {
    if inner_w >= 14 {
        (inner_w - 14) as nat
    } else {
        0
    }
}

/// The row of the track list for the track at `i` (counting from 0) in a list `inner_w`
/// columns wide: its number on two digits, the title padded to the title width, the
/// duration right-aligned on five columns, with the selection arrow and the note of the
/// track now playing.
pub fn track_row(
    i: usize,
    title: &str,
    duration: &str,
    inner_w: u16,
    selected: bool,
    playing: bool,
) -> (r: String)
    requires
        i < u64::MAX,
    ensures
        r@ == marker(selected) + two_digit_numeral((i + 1) as nat) + ". "@ + pad_right(
            title@,
            title_width(inner_w),
        ) + " "@ + pad_left(duration@, 5) + now_mark(playing),
{
    let n = i as u64 + 1;
    let title_w: usize = if inner_w >= 14 {
        (inner_w - 14) as usize
    } else {
        0
    };
    let mut r = String::new();
    push_marker(&mut r, selected);
    if n < 10 {
        push_char(&mut r, '0');
    }
    push_decimal(&mut r, n);
    push_str(&mut r, ". ");
    push_padded_right(&mut r, title, title_w);
    push_str(&mut r, " ");
    push_padded_left(&mut r, duration, 5);
    push_now_mark(&mut r, playing);
    assert(r@ =~= marker(selected) + two_digit_numeral((i + 1) as nat) + ". "@ + pad_right(
        title@,
        title_width(inner_w),
    ) + " "@ + pad_left(duration@, 5) + now_mark(playing));
    r
}

/// The row of the folder browser for the entry `name`: folders end in `/`.
pub fn browser_row(name: &str, is_dir: bool, selected: bool) -> (r: String)
    ensures
        r@ == marker(selected) + name@ + if is_dir {
            seq!['/']
        } else {
            Seq::empty()
        },
{
    let mut r = String::new();
    push_marker(&mut r, selected);
    push_str(&mut r, name);
    if is_dir {
        push_char(&mut r, '/');
    }
    assert(r@ =~= marker(selected) + name@ + if is_dir {
        seq!['/']
    } else {
        Seq::<char>::empty()
    });
    r
}

/// The label of a line of the information panel, right-aligned on `width` columns after a
/// two-column margin, followed by a colon.
pub fn meta_label(label: &str, width: usize) -> (r: String)
    ensures
        r@ == "  "@ + pad_left(label@, width as nat) + ":"@,
{
    let mut r = String::new();
    push_str(&mut r, "  ");
    push_padded_left(&mut r, label, width);
    push_str(&mut r, ":");
    r
}

// ---------------------------------------------------------------------------------------------
// Bars
// ---------------------------------------------------------------------------------------------
/// The blanks of the bottom bar, `width` columns wide, that hold a left part of
/// `left_len`, a part centred in the bar of `center_len` and a right part of `right_len`
/// flush with the right edge: the blank before the centre part and the one after it.
pub open spec fn bar_gaps(width: int, left_len: int, center_len: int, right_len: int) -> (
    int,
    int,
) {
    let c_start = if width >= center_len {
        (width - center_len) / 2
    } else {
        0
    };
    let r_start = if width >= right_len {
        width - right_len
    } else {
        0
    };
    (
        if c_start > left_len {
            c_start - left_len
        } else {
            0
        },
        if r_start > c_start + center_len {
            r_start - c_start - center_len
        } else {
            0
        },
    )
}

/// The two blanks of the bottom bar.
pub fn bottom_bar_gaps(width: usize, left_len: usize, center_len: usize, right_len: usize) -> (r: (
    usize,
    usize,
))
    ensures
        (r.0 as int, r.1 as int) == bar_gaps(
            width as int,
            left_len as int,
            center_len as int,
            right_len as int,
        ),
{
    let c_start = if width >= center_len {
        (width - center_len) / 2
    } else {
        0
    };
    let r_start = if width >= right_len {
        width - right_len
    } else {
        0
    };
    let g1 = if c_start > left_len {
        c_start - left_len
    } else {
        0
    };
    let g2 = if r_start > c_start && r_start - c_start > center_len {
        r_start - c_start - center_len
    } else {
        0
    };
    (g1, g2)
}

/// When the three parts fit without overlapping, the bottom bar fills its width exactly:
/// the centre part starts at the middle and the right part ends at the right edge.
pub proof fn law_bottom_bar_fills_width(width: nat, left_len: nat, center_len: nat, right_len: nat)
    requires
        center_len <= width,
        right_len <= width,
        left_len < (width - center_len) / 2,
        (width - center_len) / 2 + center_len < width - right_len,
    ensures
        left_len + bar_gaps(width as int, left_len as int, center_len as int, right_len as int).0
            == (width - center_len) / 2,
        left_len + bar_gaps(width as int, left_len as int, center_len as int, right_len as int).0
            + center_len + bar_gaps(
            width as int,
            left_len as int,
            center_len as int,
            right_len as int,
        ).1 + right_len == width,
{
}

/// The text of the top bar.
pub fn top_bar_text(
    mode: InputMode,
    status: &str,
    repeat: bool,
    shuffle: bool,
    search_query: &str,
    browser_dir: &str,
    remove_selection: usize,
    remove_count: usize,
) -> (r: String)
    requires
        remove_selection < u64::MAX,
    ensures
        mode is Browse ==> r@ == " Select folder: "@ + browser_dir@,
        mode is RemovePath ==> r@ == " Select path to remove ("@ + decimal(
            (remove_selection + 1) as nat,
        ) + "/"@ + decimal(remove_count as nat) + ")"@,
        mode is Search ==> r@ == " Search: "@ + search_query@,
        mode is Normal && status@.len() > 0 ==> r@ == " "@ + status@,
        mode is Normal && status@.len() == 0 ==> r@ == " [/] add folder  [x] remove path  [F] search"@
            + (if repeat {
            " \u{1f501} repeat"@
        } else {
            Seq::empty()
        }) + (if shuffle {
            " \u{1f500} shuffle"@
        } else {
            Seq::empty()
        }) + " | Tab to switch | Q to quit"@,
{
    let mut r = String::new();
    match mode {
        InputMode::Browse => {
            push_str(&mut r, " Select folder: ");
            push_str(&mut r, browser_dir);
        },
        InputMode::RemovePath => {
            push_str(&mut r, " Select path to remove (");
            push_decimal(&mut r, remove_selection as u64 + 1);
            push_str(&mut r, "/");
            push_decimal(&mut r, remove_count as u64);
            push_str(&mut r, ")");
        },
        InputMode::Search => {
            push_str(&mut r, " Search: ");
            push_str(&mut r, search_query);
        },
        InputMode::Normal => {
            if status.unicode_len() > 0 {
                push_str(&mut r, " ");
                push_str(&mut r, status);
            } else {
                push_str(&mut r, " [/] add folder  [x] remove path  [F] search");
                if repeat {
                    push_str(&mut r, " \u{1f501} repeat");
                }
                if shuffle {
                    push_str(&mut r, " \u{1f500} shuffle");
                }
                push_str(&mut r, " | Tab to switch | Q to quit");
            }
        },
    }
    r
}

/// The three parts of the bottom bar: the number of tracks in the library; the track now
/// playing (`title — artist`) or a notice that none is; and the volume (or `MUTED`), the
/// codec (`--` when unknown), the elapsed and the total time.
pub fn bottom_bar_parts(
    count: usize,
    now_playing: Option<(&str, &str)>,
    muted: bool,
    volume_percent: u8,
    codec: Option<&str>,
    elapsed: &str,
    total: &str,
) -> (r: (String, String, String))
    ensures
        r.0@ == " "@ + decimal(count as nat) + " items "@,
        r.1@ == " "@ + match now_playing {
            Some((title, artist)) => title@ + " \u{2014} "@ + artist@,
            None => "No track playing"@,
        } + " "@,
        r.2@ == " "@ + (if muted {
            " MUTED "@
        } else {
            " Vol: "@ + decimal(volume_percent as nat) + "% "@
        }) + match codec {
            Some(c) => c@,
            None => "--"@,
        } + " | "@ + elapsed@ + " "@ + total@ + " "@,
{
    let mut left = String::new();
    push_str(&mut left, " ");
    push_decimal(&mut left, count as u64);
    push_str(&mut left, " items ");

    let mut center = String::new();
    push_str(&mut center, " ");
    match now_playing {
        Some((title, artist)) => {
            push_str(&mut center, title);
            push_str(&mut center, " \u{2014} ");
            push_str(&mut center, artist);
        },
        None => push_str(&mut center, "No track playing"),
    }
    push_str(&mut center, " ");

    let mut right = String::new();
    push_str(&mut right, " ");
    if muted {
        push_str(&mut right, " MUTED ");
    } else {
        push_str(&mut right, " Vol: ");
        push_decimal(&mut right, volume_percent as u64);
        push_str(&mut right, "% ");
    }
    match codec {
        Some(c) => push_str(&mut right, c),
        None => push_str(&mut right, "--"),
    }
    push_str(&mut right, " | ");
    push_str(&mut right, elapsed);
    push_str(&mut right, " ");
    push_str(&mut right, total);
    push_str(&mut right, " ");
    (left, center, right)
}

/// The title of the track list: the selected album's name.
pub fn track_list_title(album: &str) -> (r: String)
    ensures
        r@ == " Tracks \u{2014} "@ + album@,
{
    let mut r = String::new();
    push_str(&mut r, " Tracks \u{2014} ");
    push_str(&mut r, album);
    r
}

/// The `" (k skipped)"` note for files that could not be read, when there are any.
pub open spec fn skipped_note(skipped: nat) -> Seq<char> {
    if skipped > 0 {
        " ("@ + decimal(skipped) + " skipped)"@
    } else {
        Seq::empty()
    }
}

fn push_skipped_note(out: &mut String, skipped: usize)
    ensures
        final(out)@ == old(out)@ + skipped_note(skipped as nat),
{
    if skipped > 0 {
        push_str(out, " (");
        push_decimal(out, skipped as u64);
        push_str(out, " skipped)");
    }
    assert(final(out)@ =~= old(out)@ + skipped_note(skipped as nat));
}

/// The status line after scanning a folder.
pub fn scan_status(added: usize, skipped: usize, folder: &str) -> (r: String)
    ensures
        r@ == " Added "@ + decimal(added as nat) + " tracks from "@ + folder@ + skipped_note(
            skipped as nat,
        ),
{
    let mut r = String::new();
    push_str(&mut r, " Added ");
    push_decimal(&mut r, added as u64);
    push_str(&mut r, " tracks from ");
    push_str(&mut r, folder);
    push_skipped_note(&mut r, skipped);
    r
}

/// The status line after rescanning every music folder.
pub fn rescan_status(removed: usize, added: usize, skipped: usize) -> (r: String)
    ensures
        r@ == " Rescanned \u{2014} "@ + decimal(removed as nat) + " tracks refreshed, "@ + decimal(
            added as nat,
        ) + " new"@ + skipped_note(skipped as nat),
{
    let mut r = String::new();
    push_str(&mut r, " Rescanned \u{2014} ");
    push_decimal(&mut r, removed as u64);
    push_str(&mut r, " tracks refreshed, ");
    push_decimal(&mut r, added as u64);
    push_str(&mut r, " new");
    push_skipped_note(&mut r, skipped);
    r
}

/// The status line after removing tracks from the library.
pub fn removed_status(n: usize) -> (r: String)
    ensures
        r@ == " Removed "@ + decimal(n as nat) + " tracks"@,
{
    let mut r = String::new();
    push_str(&mut r, " Removed ");
    push_decimal(&mut r, n as u64);
    push_str(&mut r, " tracks");
    r
}

/// The key help shown at the bottom for each mode (and, in the normal view, each panel).
pub fn help_text(mode: InputMode, focus: Focus) -> (r: &'static str)
    ensures
        mode is Browse ==> r@
            == " [\u{2191}\u{2193}] navigate  [Enter] open folder  [s] scan this folder  [Esc] go up / cancel"@,
        mode is RemovePath ==> r@ == " [\u{2191}\u{2193}] select  [Enter] remove from library  [Esc] cancel"@,
        mode is Search ==> r@ == " [Esc] cancel search  [\u{2191}\u{2193}] results  [Enter] play  type to search"@,
        mode is Normal && focus is Albums ==> r@
            == " [/] add folder  [F] search  [D] remove album  [\u{2190}\u{2192}/Tab] switch  [\u{2191}\u{2193}] browse  [Enter] select  [k/Space] pause  [Q] quit"@,
        mode is Normal && focus is Tracks ==> r@
            == " [/] add folder  [F] search  [D] remove album  [\u{2190}\u{2192}/Tab] switch  [\u{2191}\u{2193}] tracks  [Enter] play  [j]\u{2190}5s [l]\u{2192}5s  [k/Space] pause  [N]next  [B]prev  [+/-]vol  [M]mute  [Q]quit"@,
{
    match mode {
        InputMode::Browse => " [\u{2191}\u{2193}] navigate  [Enter] open folder  [s] scan this folder  [Esc] go up / cancel",
        InputMode::RemovePath => " [\u{2191}\u{2193}] select  [Enter] remove from library  [Esc] cancel",
        InputMode::Search => " [Esc] cancel search  [\u{2191}\u{2193}] results  [Enter] play  type to search",
        InputMode::Normal => match focus {
            Focus::Albums => " [/] add folder  [F] search  [D] remove album  [\u{2190}\u{2192}/Tab] switch  [\u{2191}\u{2193}] browse  [Enter] select  [k/Space] pause  [Q] quit",
            Focus::Tracks => " [/] add folder  [F] search  [D] remove album  [\u{2190}\u{2192}/Tab] switch  [\u{2191}\u{2193}] tracks  [Enter] play  [j]\u{2190}5s [l]\u{2192}5s  [k/Space] pause  [N]next  [B]prev  [+/-]vol  [M]mute  [Q]quit",
        },
    }
}

/// The first lyrics line shown in a panel `visible` rows tall: the active line is kept in
/// the middle of the panel once it has passed the middle.
pub open spec fn lyrics_top(active: Option<usize>, visible: int) -> int {
    match active {
        Some(a) => if a >= visible / 2 {
            a - visible / 2
        } else {
            0
        },
        None => 0,
    }
}

/// The first lyrics line shown.
pub fn lyrics_scroll(active: Option<usize>, visible: usize) -> (r: usize)
    ensures
        r == lyrics_top(active, visible as int),
        active matches Some(a) ==> r <= a && (visible > 0 ==> a < r + visible),
{
    match active {
        Some(a) => if a >= visible / 2 {
            a - visible / 2
        } else {
            0
        },
        None => 0,
    }
}

} // verus!
