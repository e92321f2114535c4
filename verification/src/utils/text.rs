use unicode_segmentation::UnicodeSegmentation;
use unicode_width::UnicodeWidthChar;
use vstd::prelude::*;
use vstd::string::StringSliceAdditionalSpecFns;
use vstd::utf8::{decode_utf8, encode_utf8_decode_utf8, is_char_boundary};

use crate::chars::{push_char, push_str};

verus! {

// ---------------------------------------------------------------------------------------------
// What the Unicode crates compute
// ---------------------------------------------------------------------------------------------
/// The column width that `unicode_width::UnicodeWidthChar::width` gives `c`.
pub uninterp spec fn unicode_char_width(c: char) -> Option<usize>;

/// The extended grapheme clusters that `unicode_segmentation::UnicodeSegmentation::graphemes`
/// splits `s` into.
pub uninterp spec fn grapheme_clusters(s: Seq<char>) -> Seq<Seq<char>>;

/// Calls `UnicodeWidthChar::width` of unicode-width 0.2. Its source answers `None` exactly
/// for the C0 and C1 control characters (below U+0020, and U+007F to U+009F), `Some(1)` for
/// the printable ASCII characters, and otherwise a table entry of at most 3 columns. What the
/// table holds for each character is left to the name `unicode_char_width`.
#[verifier::external_body]
fn char_width(c: char) -> (w: Option<usize>)
    ensures
        w == unicode_char_width(c),
        w is None <==> (c < ' ' || ('\u{7f}' <= c && c < '\u{a0}')),
        (' ' <= c && c < '\u{7f}') ==> w == Some(1usize),
        w matches Some(x) ==> x <= 3,
{
    c.width()
}

pub open spec fn strs_view(s: Seq<&str>) -> Seq<Seq<char>> {
    s.map_values(|x: &str| x@)
}

/// All of `gs`, one after the other.
pub open spec fn concat(gs: Seq<Seq<char>>) -> Seq<char>
    decreases gs.len(),
{
    if gs.len() == 0 {
        Seq::empty()
    } else {
        concat(gs.drop_last()) + gs.last()
    }
}

/// Calls `UnicodeSegmentation::graphemes(s, true)` of unicode-segmentation and collects the
/// extended grapheme clusters. Its iterator hands out consecutive, non-empty slices of `s`
/// from its start to its end, so the clusters, joined, give `s` back. Where the cluster
/// boundaries fall is left to the name `grapheme_clusters`.
#[verifier::external_body]
fn graphemes_of(s: &str) -> (g: Vec<&str>)
    ensures
        strs_view(g@) == grapheme_clusters(s@),
        concat(strs_view(g@)) == s@,
        forall|i: int| 0 <= i < g@.len() ==> (#[trigger] g@[i])@.len() > 0,
{
    s.graphemes(true).collect()
}

// ---------------------------------------------------------------------------------------------
// Display width
// ---------------------------------------------------------------------------------------------
/// `c` belongs to one of the Indic script blocks U+0900 to U+0DFF (Tamil, U+0B80 to U+0BFF,
/// among them).
pub open spec fn is_indic(c: char) -> bool {
    '\u{900}' <= c && c <= '\u{dff}'
}

/// The widths of the characters of `g` added up, a control character counting 0.
pub open spec fn chars_width(g: Seq<char>) -> nat
    decreases g.len(),
{
    if g.len() == 0 {
        0
    } else {
        chars_width(g.drop_last()) + match unicode_char_width(g.last()) {
            Some(w) => w as nat,
            None => 0,
        }
    }
}

/// The terminal columns that the grapheme cluster `g` occupies: none for an empty cluster;
/// one for a cluster of an Indic script; otherwise the summed widths of its characters, and
/// where those pass 2, the width of its first character (a control character counting 1),
/// but at least 1.
pub open spec fn cluster_width(g: Seq<char>) -> nat {
    if g.len() == 0 {
        0
    } else if exists|i: int| 0 <= i < g.len() && is_indic(#[trigger] g[i]) {
        1
    } else if chars_width(g) > 2 {
        let first = match unicode_char_width(g[0]) {
            Some(w) => w as nat,
            None => 1,
        };
        if first >= 1 {
            first
        } else {
            1
        }
    } else {
        chars_width(g)
    }
}

/// The columns of the clusters `gs` added up.
pub open spec fn clusters_width(gs: Seq<Seq<char>>) -> nat
    decreases gs.len(),
{
    if gs.len() == 0 {
        0
    } else {
        clusters_width(gs.drop_last()) + cluster_width(gs.last())
    }
}

/// The terminal columns that the text `s` occupies.
pub open spec fn display_width(s: Seq<char>) -> nat {
    clusters_width(grapheme_clusters(s))
}

/// Computes the terminal display width of one grapheme cluster. In terminal emulators (GNOME
/// Terminal, VTE, Kitty, Alacritty) a Tamil or other Indic cluster occupies exactly 1 column,
/// CJK ideographs and fullwidth characters 2, and control and format marks none.
pub fn grapheme_width(g: &str) -> (w: usize)
    ensures
        w == cluster_width(g@),
        w <= 3,
        (g@.len() == 1 && ' ' <= g@[0] && g@[0] < '\u{7f}') ==> w == 1,
{
    let mut chars: Vec<char> = Vec::new();
    for c in it: g.chars()
        invariant
            chars@ == it.seq().take(it.index() as int),
    {
        chars.push(c);
    }
    let n = chars.len();
    if n == 0 {
        return 0;
    }
    let mut i: usize = 0;
    while i < n
        invariant
            n == chars@.len(),
            chars@ == g@,
            i <= n,
            forall|k: int| 0 <= k < i ==> !is_indic(#[trigger] chars@[k]),
        decreases n - i,
    {
        if '\u{900}' <= chars[i] && chars[i] <= '\u{dff}' {
            return 1;
        }
        i += 1;
    }
    // The summed width, counted up to 3 (only whether it passes 2 matters beyond that).
    let mut total: usize = 0;
    let mut j: usize = 0;
    assert(g@.take(0) =~= Seq::<char>::empty());
    while j < n
        invariant
            n == chars@.len(),
            chars@ == g@,
            j <= n,
            j > 0 ==> ((' ' <= chars@[0] && chars@[0] < '\u{7f}') ==> unicode_char_width(chars@[0])
                == Some(1usize)),
            total as nat == if chars_width(g@.take(j as int)) < 3 {
                chars_width(g@.take(j as int))
            } else {
                3
            },
        decreases n - j,
    {
        assert(g@.take(j + 1 as int).drop_last() =~= g@.take(j as int));
        match char_width(chars[j]) {
            Some(x) => {
                if total + x < 3 {
                    total = total + x;
                } else {
                    total = 3;
                }
            },
            None => {},
        }
        j += 1;
    }
    assert(g@.take(n as int) =~= g@);
    if total > 2 {
        let first = match char_width(chars[0]) {
            Some(x) => x,
            None => 1,
        };
        if first >= 1 {
            first
        } else {
            1
        }
    } else {
        total
    }
}

proof fn lemma_concat_len_bound(gs: Seq<Seq<char>>)
    requires
        forall|i: int| 0 <= i < gs.len() ==> (#[trigger] gs[i]).len() > 0,
    ensures
        gs.len() <= concat(gs).len(),
    decreases gs.len(),
{
    if gs.len() > 0 {
        lemma_concat_len_bound(gs.drop_last());
    }
}

/// Returns the total visual display width of a string in terminal columns.
pub fn str_display_width(s: &str) -> (w: usize)
    requires
        s@.len() <= usize::MAX / 3,
    ensures
        w == display_width(s@),
        concat(grapheme_clusters(s@)) == s@,
{
    let gs = graphemes_of(s);
    let ghost v = strs_view(gs@);
    proof {
        lemma_concat_len_bound(v);
    }
    let mut total: usize = 0;
    let mut i: usize = 0;
    assert(v.take(0) =~= Seq::<Seq<char>>::empty());
    while i < gs.len()
        invariant
            i <= gs@.len() <= s@.len() <= usize::MAX / 3,
            v == strs_view(gs@),
            total == clusters_width(v.take(i as int)),
            total <= 3 * i,
        decreases gs@.len() - i,
    {
        proof {
            assert(v.take(i + 1 as int).drop_last() =~= v.take(i as int));
        }
        total = total + grapheme_width(gs[i]);
        i += 1;
    }
    assert(v.take(gs@.len() as int) =~= v);
    total
}

// ---------------------------------------------------------------------------------------------
// Truncation
// ---------------------------------------------------------------------------------------------
/// How many of the leading clusters of `gs` fit in `budget` columns, taken in order until
/// one does not fit.
pub open spec fn fit_front(gs: Seq<Seq<char>>, budget: nat) -> nat
    decreases gs.len(),
{
    if gs.len() == 0 || cluster_width(gs[0]) > budget {
        0
    } else {
        1 + fit_front(gs.drop_first(), (budget - cluster_width(gs[0])) as nat)
    }
}

/// How many of the trailing clusters of `gs` fit in `budget` columns, taken from the end
/// until one does not fit.
pub open spec fn fit_back(gs: Seq<Seq<char>>, budget: nat) -> nat
    decreases gs.len(),
{
    if gs.len() == 0 || cluster_width(gs.last()) > budget {
        0
    } else {
        1 + fit_back(gs.drop_last(), (budget - cluster_width(gs.last())) as nat)
    }
}

proof fn lemma_concat_append(a: Seq<Seq<char>>, b: Seq<Seq<char>>)
    ensures
        concat(a + b) == concat(a) + concat(b),
    decreases b.len(),
{
    if b.len() == 0 {
        assert(a + b =~= a);
        assert(concat(a) + concat(b) =~= concat(a));
    } else {
        lemma_concat_append(a, b.drop_last());
        assert((a + b).drop_last() =~= a + b.drop_last());
        assert(concat(a) + concat(b) =~= concat(a) + concat(b.drop_last()) + b.last());
    }
}

proof fn lemma_clusters_width_append(a: Seq<Seq<char>>, b: Seq<Seq<char>>)
    ensures
        clusters_width(a + b) == clusters_width(a) + clusters_width(b),
    decreases b.len(),
{
    if b.len() == 0 {
        assert(a + b =~= a);
    } else {
        lemma_clusters_width_append(a, b.drop_last());
        assert((a + b).drop_last() =~= a + b.drop_last());
    }
}

proof fn lemma_clusters_width_front(gs: Seq<Seq<char>>)
    requires
        gs.len() > 0,
    ensures
        clusters_width(gs) == cluster_width(gs[0]) + clusters_width(gs.drop_first()),
{
    lemma_clusters_width_append(seq![gs[0]], gs.drop_first());
    assert(seq![gs[0]] + gs.drop_first() =~= gs);
    assert(seq![gs[0]].drop_last() =~= Seq::<Seq<char>>::empty());
    assert(clusters_width(Seq::<Seq<char>>::empty()) == 0);
    assert(clusters_width(seq![gs[0]]) == cluster_width(gs[0]));
    assert(clusters_width(gs) == clusters_width(seq![gs[0]]) + clusters_width(gs.drop_first()));
}

/// Clusters whose widths add up to at most `budget` all fit.
proof fn lemma_fit_front_all(gs: Seq<Seq<char>>, budget: nat)
    requires
        clusters_width(gs) <= budget,
    ensures
        fit_front(gs, budget) == gs.len(),
    decreases gs.len(),
{
    if gs.len() > 0 {
        lemma_clusters_width_front(gs);
        lemma_fit_front_all(gs.drop_first(), (budget - cluster_width(gs[0])) as nat);
    }
}

/// Safely truncates a string to fit within `max_w` display columns, never splitting a
/// grapheme cluster: the leading clusters are kept while they fit.
pub fn truncate_to_width(s: &str, max_w: usize) -> (r: String)
    ensures
        r@ == concat(
            grapheme_clusters(s@).take(fit_front(grapheme_clusters(s@), max_w as nat) as int),
        ),
        clusters_width(grapheme_clusters(s@).take(fit_front(grapheme_clusters(s@), max_w as nat) as int))
            <= max_w,
        r@.len() <= s@.len(),
        r@ == s@.take(r@.len() as int),
        concat(grapheme_clusters(s@)) == s@,
        display_width(s@) <= max_w ==> r@ == s@,
{
    let gs = graphemes_of(s);
    let ghost v = strs_view(gs@);
    let mut cur: usize = 0;
    let mut result = String::new();
    let mut i: usize = 0;
    assert(v.take(0) =~= Seq::<Seq<char>>::empty());
    assert(v.skip(0) =~= v);
    while i < gs.len()
        invariant_except_break
            i <= gs@.len(),
            v == strs_view(gs@),
            cur <= max_w,
            cur == clusters_width(v.take(i as int)),
            result@ == concat(v.take(i as int)),
            fit_front(v, max_w as nat) == i + fit_front(v.skip(i as int), (max_w - cur) as nat),
        ensures
            i <= gs@.len(),
            cur <= max_w,
            cur == clusters_width(v.take(i as int)),
            result@ == concat(v.take(i as int)),
            fit_front(v, max_w as nat) == i,
        decreases gs@.len() - i,
    {
        let w = grapheme_width(gs[i]);
        assert(v.skip(i as int)[0] == v[i as int]);
        if w > max_w - cur {
            break;
        }
        push_str(&mut result, gs[i]);
        assert(v.take(i + 1 as int).drop_last() =~= v.take(i as int));
        assert(v.skip(i as int).drop_first() =~= v.skip(i + 1 as int));
        cur = cur + w;
        i += 1;
    }
    proof {
        lemma_concat_append(v.take(i as int), v.skip(i as int));
        assert(v.take(i as int) + v.skip(i as int) =~= v);
        if clusters_width(v) <= max_w {
            lemma_fit_front_all(v, max_w as nat);
            assert(v.take(i as int) =~= v);
        }
    }
    result
}

proof fn lemma_fit_back_bound(gs: Seq<Seq<char>>, budget: nat)
    ensures
        fit_back(gs, budget) <= gs.len(),
    decreases gs.len(),
{
    if gs.len() > 0 && cluster_width(gs.last()) <= budget {
        lemma_fit_back_bound(gs.drop_last(), (budget - cluster_width(gs.last())) as nat);
    }
}

/// The clusters of `gs` that `truncate_path_safe` keeps from the end, for `max_w` columns.
pub open spec fn kept_tail(gs: Seq<Seq<char>>, max_w: nat) -> Seq<Seq<char>> {
    gs.skip(gs.len() - fit_back(gs, (max_w - 2) as nat))
}

/// Safely truncates a file path from the beginning, never splitting UTF-8 characters or
/// grapheme clusters: a path wider than `max_w` columns (with `max_w` at least 4) becomes
/// `".."` followed by the trailing clusters that fit in `max_w - 2` columns.
pub fn truncate_path_safe(p: &str, max_w: usize) -> (r: String)
    requires
        p@.len() <= usize::MAX / 3,
    ensures
        max_w < 4 || display_width(p@) <= max_w ==> r@ == p@,
        concat(grapheme_clusters(p@)) == p@,
        !(max_w < 4 || display_width(p@) <= max_w) ==> {
            &&& r@ == seq!['.', '.'] + concat(kept_tail(grapheme_clusters(p@), max_w as nat))
            &&& clusters_width(kept_tail(grapheme_clusters(p@), max_w as nat)) <= max_w - 2
            &&& r@.skip(2) == p@.skip(p@.len() - (r@.len() - 2))
        },
{
    let total_w = str_display_width(p);
    if max_w < 4 || total_w <= max_w {
        return p.to_owned();
    }
    let target_w = max_w - 2;
    let gs = graphemes_of(p);
    let ghost v = strs_view(gs@);
    let n = gs.len();
    let mut cur: usize = 0;
    let mut keep_idx: usize = n;
    assert(v.take(n as int) =~= v);
    assert(v.skip(n as int) =~= Seq::<Seq<char>>::empty());
    while keep_idx > 0
        invariant_except_break
            keep_idx <= n == gs@.len(),
            v == strs_view(gs@),
            cur <= target_w,
            cur == clusters_width(v.skip(keep_idx as int)),
            fit_back(v, target_w as nat) == (n - keep_idx) + fit_back(
                v.take(keep_idx as int),
                (target_w - cur) as nat,
            ),
        ensures
            keep_idx <= n,
            cur <= target_w,
            cur == clusters_width(v.skip(keep_idx as int)),
            fit_back(v, target_w as nat) == n - keep_idx,
        decreases keep_idx,
    {
        let w = grapheme_width(gs[keep_idx - 1]);
        assert(v.take(keep_idx as int).last() == v[keep_idx - 1]);
        if w > target_w - cur {
            break;
        }
        assert(v.take(keep_idx as int).drop_last() =~= v.take(keep_idx - 1 as int));
        proof {
            assert(v.skip(keep_idx - 1 as int) =~= seq![v[keep_idx - 1]] + v.skip(keep_idx as int));
            lemma_clusters_width_append(seq![v[keep_idx - 1]], v.skip(keep_idx as int));
            assert(seq![v[keep_idx - 1]].drop_last() =~= Seq::<Seq<char>>::empty());
            assert(v[keep_idx - 1] == gs@[keep_idx - 1]@);
            assert(clusters_width(Seq::<Seq<char>>::empty()) == 0);
            assert(seq![v[keep_idx - 1]].last() == v[keep_idx - 1]);
            assert(clusters_width(seq![v[keep_idx - 1]]) == cluster_width(v[keep_idx - 1]));
        }
        cur = cur + w;
        keep_idx -= 1;
    }
    if keep_idx == 0 {
        assert(fit_back(v.take(0), (target_w - cur) as nat) == 0);
    }
    let mut out = String::new();
    push_char(&mut out, '.');
    push_char(&mut out, '.');
    let mut j: usize = keep_idx;
    assert(v.subrange(keep_idx as int, keep_idx as int) =~= Seq::<Seq<char>>::empty());
    while j < n
        invariant
            keep_idx <= j <= n == gs@.len(),
            v == strs_view(gs@),
            out@ == seq!['.', '.'] + concat(v.subrange(keep_idx as int, j as int)),
        decreases n - j,
    {
        push_str(&mut out, gs[j]);
        assert(v.subrange(keep_idx as int, j + 1 as int).drop_last() =~= v.subrange(
            keep_idx as int,
            j as int,
        ));
        j += 1;
    }
    proof {
        assert(v.subrange(keep_idx as int, n as int) =~= v.skip(keep_idx as int));
        lemma_concat_append(v.take(keep_idx as int), v.skip(keep_idx as int));
        assert(v.take(keep_idx as int) + v.skip(keep_idx as int) =~= v);
        assert(out@.skip(2) =~= concat(v.skip(keep_idx as int)));
        assert(p@ == concat(v.take(keep_idx as int)) + concat(v.skip(keep_idx as int)));
        assert(p@.skip(p@.len() - (out@.len() - 2)) =~= concat(v.skip(keep_idx as int)));
    }
    out
}

/// Truncates a path from the beginning by bytes: a path longer than `max_w` bytes (with
/// `max_w` at least 3) becomes `".."` followed by its last `max_w - 2` bytes. The cut must fall
/// on a character boundary (slicing a `str` elsewhere panics).
pub fn truncate_path(p: &str, max_w: usize) -> (r: String)
    requires
        max_w < 3 || p.len() <= max_w || is_char_boundary(
            p.spec_bytes(),
            p.len() - (max_w - 2),
        ),
    ensures
        max_w < 3 || p.len() <= max_w ==> r@ == p@,
        !(max_w < 3 || p.len() <= max_w) ==> r@ == seq!['.', '.'] + decode_utf8(
            p.spec_bytes().skip(p.len() - (max_w - 2)),
        ),
{
    if max_w < 3 || p.len() <= max_w {
        return p.to_owned();
    }
    let keep = max_w - 2;
    let (_, tail) = p.split_at(p.len() - keep);
    proof {
        encode_utf8_decode_utf8(tail@);
        assert(tail.spec_bytes() =~= p.spec_bytes().skip(p.len() - keep));
    }
    let mut out = String::new();
    push_char(&mut out, '.');
    push_char(&mut out, '.');
    push_str(&mut out, tail);
    out
}

// ---------------------------------------------------------------------------------------------
// Placing text in a row of terminal cells
// ---------------------------------------------------------------------------------------------
/// The column where a line that starts at `x` and is `max_w` columns wide ends (at most the
/// last column a `u16` can name).
pub open spec fn line_end(x: u16, max_w: u16) -> int {
    if x + max_w > u16::MAX {
        u16::MAX as int
    } else {
        x + max_w
    }
}

/// Where the clusters `gs` go from column `cur` on a line that ends at column `end`: each
/// cluster that takes columns goes at the current column, clusters of no width are skipped,
/// and placing stops at the first cluster that would pass the end. Gives the (column,
/// cluster) pairs and the column after the last cluster placed.
pub open spec fn text_placement(gs: Seq<Seq<char>>, cur: int, end: int) -> (
    Seq<(int, Seq<char>)>,
    int,
)
    decreases gs.len(),
{
    if gs.len() == 0 {
        (Seq::empty(), cur)
    } else {
        let w = cluster_width(gs[0]) as int;
        if w == 0 {
            text_placement(gs.drop_first(), cur, end)
        } else if cur + w > end {
            (Seq::empty(), cur)
        } else {
            let rest = text_placement(gs.drop_first(), cur + w, end);
            (seq![(cur, gs[0])] + rest.0, rest.1)
        }
    }
}

/// Every cluster that `text_placement` places lies within the line: it starts at or after
/// `cur`, it ends no later than `end`, and each starts where the one before it ends or later;
/// the column after the last lies between `cur` and `end` when `cur` does.
pub proof fn law_text_placement_within_line(gs: Seq<Seq<char>>, cur: int, end: int)
    requires
        cur <= end,
    ensures
        forall|k: int|
            0 <= k < text_placement(gs, cur, end).0.len() ==> cur <= (#[trigger] text_placement(
                gs,
                cur,
                end,
            ).0[k]).0 && text_placement(gs, cur, end).0[k].0 + cluster_width(
                text_placement(gs, cur, end).0[k].1,
            ) <= text_placement(gs, cur, end).1,
        forall|k: int|
            0 <= k < text_placement(gs, cur, end).0.len() - 1 ==> (#[trigger] text_placement(
                gs,
                cur,
                end,
            ).0[k]).0 + cluster_width(text_placement(gs, cur, end).0[k].1) <= text_placement(
                gs,
                cur,
                end,
            ).0[k + 1].0,
        cur <= text_placement(gs, cur, end).1 <= end,
    decreases gs.len(),
{
    if gs.len() > 0 {
        let w = cluster_width(gs[0]) as int;
        if w == 0 {
            law_text_placement_within_line(gs.drop_first(), cur, end);
        } else if cur + w <= end {
            law_text_placement_within_line(gs.drop_first(), cur + w, end);
            let rest = text_placement(gs.drop_first(), cur + w, end);
            let all = text_placement(gs, cur, end);
            assert(all.0 == seq![(cur, gs[0])] + rest.0);
            assert forall|k: int| 0 <= k < all.0.len() implies cur <= (#[trigger] all.0[k]).0
                && all.0[k].0 + cluster_width(all.0[k].1) <= all.1 by {
                if k > 0 {
                    assert(all.0[k] == rest.0[k - 1]);
                }
            }
            assert forall|k: int| 0 <= k < all.0.len() - 1 implies (#[trigger] all.0[k]).0
                + cluster_width(all.0[k].1) <= all.0[k + 1].0 by {
                assert(all.0[k + 1] == rest.0[k]);
                if k > 0 {
                    assert(all.0[k] == rest.0[k - 1]);
                }
            }
        }
    }
}

pub open spec fn cells_view(s: Seq<(u16, String)>) -> Seq<(int, Seq<char>)> {
    s.map_values(|c: (u16, String)| (c.0 as int, c.1@))
}

/// The cells that drawing `text` from column `x` in a line `max_w` columns wide fills: one
/// (column, cluster) pair per grapheme cluster drawn, and the number of columns used.
pub fn text_cells(text: &str, x: u16, max_w: u16) -> (r: (Vec<(u16, String)>, usize))
    ensures
        cells_view(r.0@) == text_placement(grapheme_clusters(text@), x as int, line_end(x, max_w)).0,
        r.1 == text_placement(grapheme_clusters(text@), x as int, line_end(x, max_w)).1 - x,
{
    let gs = graphemes_of(text);
    let ghost v = strs_view(gs@);
    let end: u32 = if x as u32 + max_w as u32 > 0xffff {
        0xffff
    } else {
        x as u32 + max_w as u32
    };
    let ghost whole = text_placement(v, x as int, end as int);
    let mut out: Vec<(u16, String)> = Vec::new();
    let mut cur: u32 = x as u32;
    let mut stopped = false;
    let mut i: usize = 0;
    assert(v.skip(0) =~= v);
    while i < gs.len() && !stopped
        invariant
            i <= gs@.len(),
            v == strs_view(gs@),
            end <= 0xffff,
            x <= cur <= end,
            whole == text_placement(v, x as int, end as int),
            !stopped ==> cells_view(out@) + text_placement(v.skip(i as int), cur as int, end as int).0
                == whole.0 && text_placement(v.skip(i as int), cur as int, end as int).1 == whole.1,
            stopped ==> cells_view(out@) == whole.0 && cur == whole.1,
        decreases gs@.len() - i + if stopped {
            0int
        } else {
            1int
        },
    {
        let w = grapheme_width(gs[i]);
        let ghost rest = v.skip(i as int);
        assert(rest[0] == v[i as int]);
        assert(rest.drop_first() =~= v.skip(i + 1 as int));
        if w == 0 {
            i += 1;
        } else if cur + w as u32 > end {
            stopped = true;
        } else {
            let ghost before = cells_view(out@);
            out.push((cur as u16, gs[i].to_owned()));
            assert(cells_view(out@) =~= before + seq![(cur as int, v[i as int])]);
            cur = cur + w as u32;
            i += 1;
            assert(cells_view(out@) + text_placement(v.skip(i as int), cur as int, end as int).0
                =~= before + (seq![(cur - w as int, v[i - 1 as int])] + text_placement(
                v.skip(i as int),
                cur as int,
                end as int,
            ).0));
        }
    }
    if !stopped {
        assert(v.skip(i as int) =~= Seq::<Seq<char>>::empty());
        assert(cells_view(out@) =~= whole.0);
    }
    (out, (cur - x as u32) as usize)
}

/// Where the spans `spans` go from column `cur` on a line that ends at column `end`, the
/// first of them being span number `base`: empty spans, and spans that start at or past the
/// end, are skipped; a span that fits goes whole at the current column, taking its display
/// width (as a `u16`); the first span that does not fit is cut to its leading clusters that
/// fit in the columns left, goes at the current column, and ends the placing. Gives the
/// (column, text, columns, span number) of each span placed and the column after the last.
pub open spec fn spans_placement(spans: Seq<Seq<char>>, base: int, cur: int, end: int) -> (
    Seq<(int, Seq<char>, int, int)>,
    int,
)
    decreases spans.len(),
{
    if spans.len() == 0 {
        (Seq::empty(), cur)
    } else {
        let s = spans[0];
        if cur >= end || s.len() == 0 {
            spans_placement(spans.drop_first(), base + 1, cur, end)
        } else {
            let total = (display_width(s) as u16) as int;
            if cur + total > end {
                let gs = grapheme_clusters(s);
                let cut = concat(gs.take(fit_front(gs, (end - cur) as nat) as int));
                let tw = (display_width(cut) as u16) as int;
                (seq![(cur, cut, tw, base)], cur + tw)
            } else {
                let rest = spans_placement(spans.drop_first(), base + 1, cur + total, end);
                (seq![(cur, s, total, base)] + rest.0, rest.1)
            }
        }
    }
}

pub open spec fn span_cells_view(s: Seq<(u16, String, u16, usize)>) -> Seq<
    (int, Seq<char>, int, int),
> {
    s.map_values(|c: (u16, String, u16, usize)| (c.0 as int, c.1@, c.2 as int, c.3 as int))
}

pub open spec fn strings_chars(s: Seq<String>) -> Seq<Seq<char>> {
    s.map_values(|x: String| x@)
}

/// The cells that drawing the spans `spans` (their texts, in order) from column `x` in a line
/// `max_w` columns wide fills: for each span drawn, its column, the text drawn there (the
/// span, or its cut for the last one), the columns it takes and the span's number; and the
/// number of columns used.
pub fn span_cells(spans: &Vec<String>, x: u16, max_w: u16) -> (r: (
    Vec<(u16, String, u16, usize)>,
    usize,
))
    requires
        forall|k: int| 0 <= k < spans@.len() ==> (#[trigger] spans@[k])@.len() <= usize::MAX / 3,
    ensures
        span_cells_view(r.0@) == spans_placement(
            strings_chars(spans@),
            0,
            x as int,
            line_end(x, max_w),
        ).0,
        r.1 == spans_placement(strings_chars(spans@), 0, x as int, line_end(x, max_w)).1 - x,
{
    let ghost v = strings_chars(spans@);
    let end: u32 = if x as u32 + max_w as u32 > 0xffff {
        0xffff
    } else {
        x as u32 + max_w as u32
    };
    let ghost whole = spans_placement(v, 0, x as int, end as int);
    let mut out: Vec<(u16, String, u16, usize)> = Vec::new();
    let mut cur: u32 = x as u32;
    let mut stopped = false;
    let mut i: usize = 0;
    assert(v.skip(0) =~= v);
    while i < spans.len() && !stopped
        invariant
            i <= spans@.len(),
            v == strings_chars(spans@),
            forall|k: int| 0 <= k < spans@.len() ==> (#[trigger] spans@[k])@.len() <= usize::MAX / 3,
            end <= 0xffff,
            x <= cur,
            cur <= end || stopped,
            cur <= 0x1fffe,
            whole == spans_placement(v, 0, x as int, end as int),
            !stopped ==> span_cells_view(out@) + spans_placement(
                v.skip(i as int),
                i as int,
                cur as int,
                end as int,
            ).0 == whole.0 && spans_placement(v.skip(i as int), i as int, cur as int, end as int).1
                == whole.1,
            stopped ==> span_cells_view(out@) == whole.0 && cur == whole.1,
        decreases spans@.len() - i + if stopped {
            0int
        } else {
            1int
        },
    {
        let ghost rest = v.skip(i as int);
        assert(rest[0] == v[i as int]);
        assert(rest.drop_first() =~= v.skip(i + 1 as int));
        let s = spans[i].as_str();
        if cur >= end || s.unicode_len() == 0 {
            i += 1;
        } else {
            let total_w = str_display_width(s) as u16;
            if cur + total_w as u32 > end {
                let available = (end - cur) as usize;
                let cut = truncate_to_width(s, available);
                let cut_w = str_display_width(cut.as_str()) as u16;
                let ghost before = span_cells_view(out@);
                out.push((cur as u16, cut, cut_w, i));
                assert(span_cells_view(out@) =~= before + seq![
                    (cur as int, out@[out@.len() - 1].1@, cut_w as int, i as int),
                ]);
                cur = cur + cut_w as u32;
                stopped = true;
            } else {
                let ghost before = span_cells_view(out@);
                out.push((cur as u16, spans[i].clone(), total_w, i));
                assert(span_cells_view(out@) =~= before + seq![
                    (cur as int, v[i as int], total_w as int, i as int),
                ]);
                cur = cur + total_w as u32;
                i += 1;
                assert(span_cells_view(out@) + spans_placement(
                    v.skip(i as int),
                    i as int,
                    cur as int,
                    end as int,
                ).0 =~= before + (seq![(cur - total_w as int, v[i - 1 as int], total_w as int, i - 1 as int)]
                    + spans_placement(v.skip(i as int), i as int, cur as int, end as int).0));
            }
        }
    }
    if !stopped {
        assert(v.skip(i as int) =~= Seq::<Seq<char>>::empty());
        assert(span_cells_view(out@) =~= whole.0);
    }
    (out, (cur - x as u32) as usize)
}

} // verus!
