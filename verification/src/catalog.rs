use vstd::prelude::*;

use crate::chars::{
    chars_eq, chars_of, contains, contains_text, is_whitespace, is_ws, lemma_text_lt_irreflexive,
    lemma_text_lt_total, lemma_text_lt_transitive, push_str, starts_with, starts_with_text,
    string_of, text_less, text_lt, to_lowercase, unicode_lowercase,
};

verus! {

/// What the library's catalog logic reads of a track: its location and the tags by which it
/// is found, grouped and ordered.
pub struct TrackTags {
    pub path: String,
    pub title: String,
    pub artist: String,
    pub album: String,
    pub track_number: Option<u32>,
    pub disc_number: Option<u32>,
}

// ---------------------------------------------------------------------------------------------
// Album index keys
// ---------------------------------------------------------------------------------------------
/// The key under which a track is listed in the album index: `"<album>::<path>"`.
pub fn album_key(album: &str, path: &str) -> (k: String)
    ensures
        k@ == album@ + "::"@ + path@,
{
    let mut k = String::new();
    push_str(&mut k, album);
    push_str(&mut k, "::");
    push_str(&mut k, path);
    assert(k@ =~= album@ + "::"@ + path@);
    k
}

/// `s` holds `"::"` at `k`.
pub open spec fn colons_at(s: Seq<char>, k: int) -> bool {
    s[k] == ':' && s[k + 1] == ':'
}

/// Index of the first `"::"` in `s`.
pub open spec fn find_double_colon(s: Seq<char>) -> Option<int>
    decreases s.len(),
{
    if s.len() < 2 {
        None
    } else if s[0] == ':' && s[1] == ':' {
        Some(0)
    } else {
        match find_double_colon(s.drop_first()) {
            Some(i) => Some(i + 1),
            None => None,
        }
    }
}

/// The album and the path of an album index key, split at its first `"::"` (what
/// `split_once("::")` gives).
pub open spec fn split_key(s: Seq<char>) -> Option<(Seq<char>, Seq<char>)> {
    match find_double_colon(s) {
        Some(i) => Some((s.take(i), s.skip(i + 2))),
        None => None,
    }
}

proof fn lemma_find_double_colon(s: Seq<char>)
    ensures
        match find_double_colon(s) {
            Some(i) => 0 <= i && i + 2 <= s.len() && s[i] == ':' && s[i + 1] == ':' && forall|k: int|
                0 <= k < i ==> !#[trigger] colons_at(s, k),
            None => forall|k: int| 0 <= k && k + 2 <= s.len() ==> !#[trigger] colons_at(s, k),
        },
    decreases s.len(),
{
    if s.len() >= 2 && !(s[0] == ':' && s[1] == ':') {
        lemma_find_double_colon(s.drop_first());
        assert forall|k: int| 0 < k && k + 1 < s.len() implies colons_at(s, k) == colons_at(
            s.drop_first(),
            k - 1,
        ) by {
            assert(s[k] == s.drop_first()[k - 1]);
            assert(s[k + 1] == s.drop_first()[k]);
        }
    }
}

/// Splits an album index key into album and path at its first `"::"`.
pub fn split_album_key(key: &str) -> (r: Option<(String, String)>)
    ensures
        r matches Some((a, p)) ==> split_key(key@) == Some((a@, p@)),
        r is None ==> split_key(key@) is None,
{
    let v = chars_of(key);
    let n = v.len();
    let mut i: usize = 0;
    while n - i > 1
        invariant
            n == v@.len(),
            v@ == key@,
            i <= n,
            forall|k: int| 0 <= k < i && k + 2 <= n ==> !#[trigger] colons_at(v@, k),
        decreases n - i,
    {
        if v[i] == ':' && v[i + 1] == ':' {
            proof {
                lemma_find_double_colon(v@);
                match find_double_colon(v@) {
                    Some(j) => {
                        assert(colons_at(v@, j));
                        assert(colons_at(v@, i as int));
                        assert(!(j < i));
                        assert(!(i < j));
                    },
                    None => {
                        assert(colons_at(v@, i as int));
                    },
                }
                assert(find_double_colon(v@) == Some(i as int));
            }
            let a = string_of(crate::chars::subvec(v.as_slice(), 0, i).as_slice());
            let p = string_of(crate::chars::subvec(v.as_slice(), i + 2, n).as_slice());
            assert(v@.subrange(0, i as int) =~= v@.take(i as int));
            assert(v@.subrange(i + 2 as int, n as int) =~= v@.skip(i + 2 as int));
            return Some((a, p));
        }
        i += 1;
    }
    proof {
        lemma_find_double_colon(v@);
        match find_double_colon(v@) {
            Some(j) => {
                assert(colons_at(v@, j));
            },
            None => {},
        }
    }
    None
}

proof fn lemma_first_colons_after(a: Seq<char>, p: Seq<char>)
    requires
        find_double_colon(a) is None,
        a.len() == 0 || a.last() != ':',
    ensures
        find_double_colon(a + seq![':', ':'] + p) == Some(a.len() as int),
    decreases a.len(),
{
    let s = a + seq![':', ':'] + p;
    if a.len() > 0 {
        assert(s[0] == a[0]);
        if a.len() >= 2 {
            assert(s[1] == a[1]);
            lemma_find_double_colon(a);
            assert(!colons_at(a, 0));
            assert(a.drop_first().last() == a.last());
        } else {
            assert(s[1] == ':');
        }
        assert(s.drop_first() =~= a.drop_first() + seq![':', ':'] + p);
        lemma_first_colons_after(a.drop_first(), p);
    }
}

/// Splitting the album index key of a track gives back its album and path, for an album
/// name without `"::"` that does not end in `':'` (from another album name the split at
/// the first `"::"` would cut elsewhere).
pub proof fn law_album_key_round_trip(album: Seq<char>, path: Seq<char>)
    requires
        find_double_colon(album) is None,
        album.len() == 0 || album.last() != ':',
    ensures
        split_key(album + "::"@ + path) == Some((album, path)),
{
    reveal_strlit("::");
    assert("::"@ =~= seq![':', ':']);
    lemma_first_colons_after(album, path);
    let s = album + seq![':', ':'] + path;
    assert(s.take(album.len() as int) =~= album);
    assert(s.skip(album.len() + 2 as int) =~= path);
}

// ---------------------------------------------------------------------------------------------
// Search
// ---------------------------------------------------------------------------------------------
/// `s` split at every white-space character.
pub open spec fn ws_pieces(s: Seq<char>) -> Seq<Seq<char>>
    decreases s.len(),
{
    if s.len() == 0 {
        seq![Seq::<char>::empty()]
    } else {
        let r = ws_pieces(s.drop_last());
        if is_ws(s.last()) {
            r.push(Seq::<char>::empty())
        } else {
            r.update(r.len() - 1, r.last().push(s.last()))
        }
    }
}

/// The non-empty pieces of `ls`, in order.
pub open spec fn nonempty_pieces(ls: Seq<Seq<char>>) -> Seq<Seq<char>>
    decreases ls.len(),
{
    if ls.len() == 0 {
        Seq::empty()
    } else if ls.last().len() > 0 {
        nonempty_pieces(ls.drop_last()).push(ls.last())
    } else {
        nonempty_pieces(ls.drop_last())
    }
}

/// The words of `s`: its runs of characters other than white space (what
/// `str::split_whitespace` yields).
pub open spec fn words(s: Seq<char>) -> Seq<Seq<char>> {
    nonempty_pieces(ws_pieces(s))
}

proof fn lemma_ws_pieces_nonempty(s: Seq<char>)
    ensures
        ws_pieces(s).len() >= 1,
    decreases s.len(),
{
    if s.len() > 0 {
        lemma_ws_pieces_nonempty(s.drop_last());
    }
}

pub open spec fn vecs_view(s: Seq<Vec<char>>) -> Seq<Seq<char>> {
    s.map_values(|v: Vec<char>| v@)
}

/// The words of `v`.
fn words_of(v: &[char]) -> (r: Vec<Vec<char>>)
    ensures
        vecs_view(r@) == words(v@),
{
    let mut done: Vec<Vec<char>> = Vec::new();
    let mut cur: Vec<char> = Vec::new();
    let mut i: usize = 0;
    assert(v@.take(0) =~= Seq::<char>::empty());
    while i < v.len()
        invariant
            i <= v@.len(),
            ws_pieces(v@.take(i as int)).len() >= 1,
            cur@ == ws_pieces(v@.take(i as int)).last(),
            vecs_view(done@) == nonempty_pieces(ws_pieces(v@.take(i as int)).drop_last()),
        decreases v@.len() - i,
    {
        let ghost ls = ws_pieces(v@.take(i as int));
        let c = v[i];
        assert(v@.take(i + 1 as int).drop_last() =~= v@.take(i as int));
        assert(v@.take(i + 1 as int).last() == c);
        if is_whitespace(c) {
            assert(ws_pieces(v@.take(i + 1 as int)) == ls.push(Seq::<char>::empty()));
            assert(ls.push(Seq::<char>::empty()).drop_last() =~= ls);
            assert(ls.drop_last().push(ls.last()) =~= ls);
            if cur.len() > 0 {
                done.push(cur);
                assert(vecs_view(done@) =~= nonempty_pieces(ls));
            } else {
                assert(nonempty_pieces(ls) == nonempty_pieces(ls.drop_last()));
            }
            cur = Vec::new();
        } else {
            cur.push(c);
            assert(ws_pieces(v@.take(i + 1 as int)) == ls.update(ls.len() - 1, ls.last().push(c)));
            assert(ls.update(ls.len() - 1, ls.last().push(c)).drop_last() =~= ls.drop_last());
        }
        i += 1;
    }
    assert(v@.take(v@.len() as int) =~= v@);
    let ghost ls = ws_pieces(v@);
    assert(ls.drop_last().push(ls.last()) =~= ls);
    if cur.len() > 0 {
        done.push(cur);
        assert(vecs_view(done@) =~= nonempty_pieces(ls));
    } else {
        assert(nonempty_pieces(ls) == nonempty_pieces(ls.drop_last()));
    }
    done
}

/// The word `w` occurs in the lower-cased title, artist or album of `t`.
pub open spec fn tags_hold(t: TrackTags, w: Seq<char>) -> bool {
    ||| contains_text(unicode_lowercase(t.title@), w)
    ||| contains_text(unicode_lowercase(t.artist@), w)
    ||| contains_text(unicode_lowercase(t.album@), w)
}

/// Every word of the lower-cased query `ws` occurs in the title, artist or album of `t`.
pub open spec fn track_matches(t: TrackTags, ws: Seq<Seq<char>>) -> bool {
    forall|i: int| 0 <= i < ws.len() ==> tags_hold(t, #[trigger] ws[i])
}

/// The positions, in order, of the tracks among `ts` that match the words `ws`.
pub open spec fn matching(ts: Seq<TrackTags>, ws: Seq<Seq<char>>) -> Seq<int>
    decreases ts.len(),
{
    if ts.len() == 0 {
        Seq::empty()
    } else if track_matches(ts.last(), ws) {
        matching(ts.drop_last(), ws).push(ts.len() - 1)
    } else {
        matching(ts.drop_last(), ws)
    }
}

pub open spec fn indices_view(s: Seq<usize>) -> Seq<int> {
    s.map_values(|i: usize| i as int)
}

fn lowered(s: &String) -> (v: Vec<char>)
    ensures
        v@ == unicode_lowercase(s@),
{
    let l = to_lowercase(s.as_str());
    chars_of(l.as_str())
}

fn matches_words(t: &TrackTags, ws: &Vec<Vec<char>>) -> (b: bool)
    ensures
        b == track_matches(*t, vecs_view(ws@)),
{
    let title = lowered(&t.title);
    let artist = lowered(&t.artist);
    let album = lowered(&t.album);
    let mut i: usize = 0;
    while i < ws.len()
        invariant
            i <= ws@.len(),
            title@ == unicode_lowercase(t.title@),
            artist@ == unicode_lowercase(t.artist@),
            album@ == unicode_lowercase(t.album@),
            forall|k: int| 0 <= k < i ==> tags_hold(*t, #[trigger] vecs_view(ws@)[k]),
        decreases ws@.len() - i,
    {
        let w = ws[i].as_slice();
        if !(contains(title.as_slice(), w) || contains(artist.as_slice(), w) || contains(
            album.as_slice(),
            w,
        )) {
            assert(!tags_hold(*t, vecs_view(ws@)[i as int]));
            return false;
        }
        i += 1;
    }
    true
}

/// The positions of the tracks that match `keyword`: every white-space separated word of the
/// lower-cased keyword occurs in the lower-cased title, artist or album (a word may match a
/// different field than the next one). An empty keyword matches every track.
pub fn search_tracks(tracks: &Vec<TrackTags>, keyword: &str) -> (r: Vec<usize>)
    ensures
        indices_view(r@) == matching(tracks@, words(unicode_lowercase(keyword@))),
{
    let lower = to_lowercase(keyword);
    let lv = chars_of(lower.as_str());
    let ws = words_of(lv.as_slice());
    let ghost wv = vecs_view(ws@);
    let mut r: Vec<usize> = Vec::new();
    let mut i: usize = 0;
    assert(tracks@.take(0) =~= Seq::<TrackTags>::empty());
    while i < tracks.len()
        invariant
            i <= tracks@.len(),
            wv == vecs_view(ws@),
            wv == words(unicode_lowercase(keyword@)),
            indices_view(r@) == matching(tracks@.take(i as int), wv),
        decreases tracks@.len() - i,
    {
        assert(tracks@.take(i + 1 as int).drop_last() =~= tracks@.take(i as int));
        assert(tracks@.take(i + 1 as int).last() == tracks@[i as int]);
        if matches_words(&tracks[i], &ws) {
            r.push(i);
            assert(indices_view(r@) =~= matching(tracks@.take(i as int), wv).push(i as int));
        }
        i += 1;
    }
    assert(tracks@.take(tracks@.len() as int) =~= tracks@);
    r
}

// ---------------------------------------------------------------------------------------------
// Stable sorting
// ---------------------------------------------------------------------------------------------
/// `s` with `x` inserted after the last element `a` with `le(a, x)`, scanning from the end
/// (the step of a stable insertion sort).
pub open spec fn insert_stable<A>(s: Seq<A>, x: A, le: spec_fn(A, A) -> bool) -> Seq<A>
    decreases s.len(),
{
    if s.len() == 0 || le(s.last(), x) {
        s.push(x)
    } else {
        insert_stable(s.drop_last(), x, le).push(s.last())
    }
}

/// `s` sorted by `le`, equal elements kept in their order (what `slice::sort_by` does).
pub open spec fn sort_stable<A>(s: Seq<A>, le: spec_fn(A, A) -> bool) -> Seq<A>
    decreases s.len(),
{
    if s.len() == 0 {
        s
    } else {
        insert_stable(sort_stable(s.drop_last(), le), s.last(), le)
    }
}

/// Where `insert_stable` puts `x`.
pub open spec fn insert_point<A>(s: Seq<A>, x: A, le: spec_fn(A, A) -> bool) -> nat
    decreases s.len(),
{
    if s.len() == 0 || le(s.last(), x) {
        s.len()
    } else {
        insert_point(s.drop_last(), x, le)
    }
}

pub(crate) proof fn lemma_insert_point<A>(s: Seq<A>, x: A, le: spec_fn(A, A) -> bool)
    ensures
        insert_point(s, x, le) <= s.len(),
        insert_stable(s, x, le) == s.insert(insert_point(s, x, le) as int, x),
        forall|k: int| insert_point(s, x, le) <= k < s.len() ==> !le(#[trigger] s[k], x),
        insert_point(s, x, le) > 0 ==> le(s[insert_point(s, x, le) - 1], x),
    decreases s.len(),
{
    if s.len() == 0 || le(s.last(), x) {
        assert(s.insert(s.len() as int, x) =~= s.push(x));
    } else {
        lemma_insert_point(s.drop_last(), x, le);
        let p = insert_point(s, x, le);
        assert(insert_stable(s, x, le) =~= s.insert(p as int, x));
        assert forall|k: int| p <= k < s.len() implies !le(#[trigger] s[k], x) by {
            if k < s.len() - 1 {
                assert(s.drop_last()[k] == s[k]);
            }
        }
        if p > 0 {
            assert(s.drop_last()[p - 1] == s[p - 1]);
        }
    }
}

/// `le` is a total preorder on the elements of `s`.
pub open spec fn total_preorder_on<A>(s: Seq<A>, le: spec_fn(A, A) -> bool) -> bool {
    &&& forall|a: A, b: A| s.contains(a) && s.contains(b) ==> le(a, b) || le(b, a)
    &&& forall|a: A, b: A, c: A|
        s.contains(a) && s.contains(b) && s.contains(c) && le(a, b) && le(b, c) ==> le(a, c)
}

/// Each element of `s` may stay before each later one.
pub open spec fn sorted_by<A>(s: Seq<A>, le: spec_fn(A, A) -> bool) -> bool {
    forall|i: int, j: int| 0 <= i < j < s.len() ==> le(#[trigger] s[i], #[trigger] s[j])
}

proof fn lemma_sort_stable_elems<A>(s: Seq<A>, le: spec_fn(A, A) -> bool)
    ensures
        sort_stable(s, le).len() == s.len(),
        forall|k: int| 0 <= k < s.len() ==> s.contains(#[trigger] sort_stable(s, le)[k]),
    decreases s.len(),
{
    if s.len() > 0 {
        let r = sort_stable(s.drop_last(), le);
        lemma_sort_stable_elems(s.drop_last(), le);
        lemma_insert_point(r, s.last(), le);
        let p = insert_point(r, s.last(), le) as int;
        assert forall|k: int| 0 <= k < s.len() implies s.contains(#[trigger] sort_stable(s, le)[k]) by {
            let w = r.insert(p, s.last());
            if k < p {
                assert(w[k] == r[k]);
                assert(s.drop_last().contains(r[k]));
                let j = choose|j: int| 0 <= j < s.drop_last().len() && s.drop_last()[j] == r[k];
                assert(s[j] == r[k]);
            } else if k == p {
                assert(s[s.len() - 1] == s.last());
            } else {
                assert(w[k] == r[k - 1]);
                assert(s.drop_last().contains(r[k - 1]));
                let j = choose|j: int| 0 <= j < s.drop_last().len() && s.drop_last()[j] == r[k - 1];
                assert(s[j] == r[k - 1]);
            }
        }
    }
}

proof fn lemma_contains_drop_last<A>(s: Seq<A>, a: A)
    requires
        s.len() > 0,
        s.drop_last().contains(a),
    ensures
        s.contains(a),
{
    let j = choose|j: int| 0 <= j < s.drop_last().len() && s.drop_last()[j] == a;
    assert(s[j] == a);
}

proof fn lemma_sort_stable_sorted<A>(s: Seq<A>, le: spec_fn(A, A) -> bool)
    requires
        total_preorder_on(s, le),
    ensures
        sorted_by(sort_stable(s, le), le),
    decreases s.len(),
{
    if s.len() > 0 {
        let t = s.drop_last();
        assert(total_preorder_on(t, le)) by {
            assert forall|a: A| t.contains(a) implies s.contains(a) by {
                lemma_contains_drop_last(s, a);
            }
        }
        lemma_sort_stable_sorted(t, le);
        lemma_sort_stable_elems(t, le);
        let r = sort_stable(t, le);
        let x = s.last();
        lemma_insert_point(r, x, le);
        let p = insert_point(r, x, le) as int;
        let w = r.insert(p, x);
        assert(s.contains(x)) by {
            assert(s[s.len() - 1] == x);
        }
        assert forall|k: int| 0 <= k < r.len() implies s.contains(#[trigger] r[k]) by {
            lemma_contains_drop_last(s, r[k]);
        }
        assert forall|i: int, j: int| 0 <= i < j < w.len() implies le(#[trigger] w[i], #[trigger] w[j]) by {
            if i < p && j == p {
                assert(w[i] == r[i]);
                if i < p - 1 {
                    assert(le(r[i], r[p - 1]));
                    assert(s.contains(r[i]) && s.contains(r[p - 1]));
                }
            } else if i < p && j > p {
                assert(w[i] == r[i] && w[j] == r[j - 1]);
            } else if i == p && j > p {
                assert(w[j] == r[j - 1]);
                assert(!le(r[j - 1], x));
                assert(s.contains(r[j - 1]));
            } else if i > p {
                assert(w[i] == r[i - 1] && w[j] == r[j - 1]);
            } else {
                assert(w[i] == r[i] && w[j] == r[j]);
            }
        }
    }
}

// ---------------------------------------------------------------------------------------------
// Album track order
// ---------------------------------------------------------------------------------------------
/// `a` comes no later than `b` in `Option`'s order (`None` first).
pub open spec fn opt_le(a: Option<u32>, b: Option<u32>) -> bool {
    match (a, b) {
        (None, _) => true,
        (Some(_), None) => false,
        (Some(x), Some(y)) => x <= y,
    }
}

/// Track `a` comes no later than `b` on an album: by disc number, then by track number.
pub open spec fn track_le(a: TrackTags, b: TrackTags) -> bool {
    ||| (opt_le(a.disc_number, b.disc_number) && a.disc_number != b.disc_number)
    ||| (a.disc_number == b.disc_number && opt_le(a.track_number, b.track_number))
}

/// The positions of `ts` in album order: by disc number and track number, tracks with the
/// same numbers kept in their order.
pub open spec fn album_order(ts: Seq<TrackTags>) -> Seq<int> {
    sort_stable(Seq::new(ts.len(), |i: int| i), |i: int, j: int| track_le(ts[i], ts[j]))
}

fn opt_le_exec(a: Option<u32>, b: Option<u32>) -> (r: bool)
    ensures
        r == opt_le(a, b),
{
    match (a, b) {
        (None, _) => true,
        (Some(_), None) => false,
        (Some(x), Some(y)) => x <= y,
    }
}

fn track_le_exec(a: &TrackTags, b: &TrackTags) -> (r: bool)
    ensures
        r == track_le(*a, *b),
{
    let same_disc = match (a.disc_number, b.disc_number) {
        (None, None) => true,
        (Some(x), Some(y)) => x == y,
        _ => false,
    };
    (opt_le_exec(a.disc_number, b.disc_number) && !same_disc) || (same_disc && opt_le_exec(
        a.track_number,
        b.track_number,
    ))
}

/// The order in which an album's tracks are listed: by disc number, then track number
/// (untagged first), tracks with equal numbers keeping their order.
pub fn album_track_order(tracks: &Vec<TrackTags>) -> (r: Vec<usize>)
    ensures
        indices_view(r@) == album_order(tracks@),
{
    let ghost ts = tracks@;
    let ghost le = |i: int, j: int| track_le(ts[i], ts[j]);
    let ghost all = Seq::new(ts.len(), |i: int| i);
    let mut sorted: Vec<usize> = Vec::new();
    let mut i: usize = 0;
    assert(all.take(0) =~= Seq::<int>::empty());
    while i < tracks.len()
        invariant
            i <= tracks@.len(),
            ts == tracks@,
            all == Seq::new(ts.len(), |i: int| i),
            le == (|i: int, j: int| track_le(ts[i], ts[j])),
            indices_view(sorted@) == sort_stable(all.take(i as int), le),
            forall|k: int| 0 <= k < sorted@.len() ==> sorted@[k] < i,
        decreases tracks@.len() - i,
    {
        let ghost s = indices_view(sorted@);
        let mut p: usize = sorted.len();
        assert(s.take(p as int) =~= s);
        while p > 0 && !track_le_exec(&tracks[sorted[p - 1]], &tracks[i])
            invariant
                p <= sorted@.len(),
                s == indices_view(sorted@),
                i < ts.len(),
                ts == tracks@,
                le == (|i: int, j: int| track_le(ts[i], ts[j])),
                forall|k: int| 0 <= k < sorted@.len() ==> sorted@[k] < i,
                insert_point(s, i as int, le) == insert_point(s.take(p as int), i as int, le),
            decreases p,
        {
            assert(s.take(p as int).drop_last() =~= s.take(p - 1 as int));
            assert(s.take(p as int).last() == sorted@[p - 1] as int);
            p -= 1;
        }
        proof {
            if p > 0 {
                assert(s.take(p as int).last() == sorted@[p - 1] as int);
            }
            lemma_insert_point(s, i as int, le);
        }
        sorted.insert(p, i);
        assert(indices_view(sorted@) =~= s.insert(p as int, i as int));
        assert(all.take(i + 1 as int).drop_last() =~= all.take(i as int));
        assert(all.take(i + 1 as int).last() == i as int);
        i += 1;
    }
    assert(all.take(tracks@.len() as int) =~= all);
    sorted
}

proof fn lemma_sort_stable_multiset<A>(s: Seq<A>, le: spec_fn(A, A) -> bool)
    ensures
        sort_stable(s, le).to_multiset() == s.to_multiset(),
    decreases s.len(),
{
    if s.len() > 0 {
        let r = sort_stable(s.drop_last(), le);
        lemma_sort_stable_multiset(s.drop_last(), le);
        lemma_insert_point(r, s.last(), le);
        let p = insert_point(r, s.last(), le) as int;
        vstd::seq_lib::to_multiset_insert(r, p, s.last());
        vstd::seq_lib::to_multiset_build(s.drop_last(), s.last());
        assert(s.drop_last().push(s.last()) =~= s);
    }
}

/// An album's tracks come out ordered by disc number and then track number, each track of
/// the album once: the order is a permutation of the positions.
pub proof fn law_album_order_sorted(ts: Seq<TrackTags>)
    ensures
        album_order(ts).len() == ts.len(),
        album_order(ts).to_multiset() == Seq::new(ts.len(), |i: int| i).to_multiset(),
        album_order(ts).no_duplicates(),
        forall|k: int| 0 <= k < ts.len() ==> 0 <= #[trigger] album_order(ts)[k] < ts.len(),
        forall|i: int, j: int|
            0 <= i < j < ts.len() ==> track_le(
                ts[#[trigger] album_order(ts)[i]],
                ts[#[trigger] album_order(ts)[j]],
            ),
{
    let all = Seq::new(ts.len(), |i: int| i);
    let le = |i: int, j: int| track_le(ts[i], ts[j]);
    assert(total_preorder_on(all, le));
    lemma_sort_stable_sorted(all, le);
    lemma_sort_stable_elems(all, le);
    lemma_sort_stable_multiset(all, le);
    assert(all.no_duplicates());
    all.lemma_multiset_has_no_duplicates();
    album_order(ts).lemma_multiset_has_no_duplicates_conv();
    assert forall|k: int| 0 <= k < ts.len() implies 0 <= #[trigger] album_order(ts)[k] < ts.len() by {
        assert(all.contains(album_order(ts)[k]));
    }
}

// ---------------------------------------------------------------------------------------------
// Tracks under a folder
// ---------------------------------------------------------------------------------------------
/// The positions, in order, of the tracks whose path starts with `prefix`.
pub open spec fn under_prefix(ts: Seq<TrackTags>, prefix: Seq<char>) -> Seq<int>
    decreases ts.len(),
{
    if ts.len() == 0 {
        Seq::empty()
    } else if starts_with_text(ts.last().path@, prefix) {
        under_prefix(ts.drop_last(), prefix).push(ts.len() - 1)
    } else {
        under_prefix(ts.drop_last(), prefix)
    }
}

/// The positions of the tracks whose path starts with `prefix` (the tracks that removing a
/// folder from the library drops).
pub fn tracks_under(tracks: &Vec<TrackTags>, prefix: &str) -> (r: Vec<usize>)
    ensures
        indices_view(r@) == under_prefix(tracks@, prefix@),
{
    let pv = chars_of(prefix);
    let mut r: Vec<usize> = Vec::new();
    let mut i: usize = 0;
    assert(tracks@.take(0) =~= Seq::<TrackTags>::empty());
    while i < tracks.len()
        invariant
            i <= tracks@.len(),
            pv@ == prefix@,
            indices_view(r@) == under_prefix(tracks@.take(i as int), prefix@),
        decreases tracks@.len() - i,
    {
        assert(tracks@.take(i + 1 as int).drop_last() =~= tracks@.take(i as int));
        assert(tracks@.take(i + 1 as int).last() == tracks@[i as int]);
        let path = chars_of(tracks[i].path.as_str());
        if starts_with(path.as_slice(), pv.as_slice()) {
            r.push(i);
            assert(indices_view(r@) =~= under_prefix(tracks@.take(i as int), prefix@).push(
                i as int,
            ));
        }
        i += 1;
    }
    assert(tracks@.take(tracks@.len() as int) =~= tracks@);
    r
}

// ---------------------------------------------------------------------------------------------
// Distinct artists and albums
// ---------------------------------------------------------------------------------------------
/// Each text of `s` comes before the next one: sorted, without repeats.
pub open spec fn strictly_ascending(s: Seq<Seq<char>>) -> bool {
    forall|i: int, j: int| 0 <= i < j < s.len() ==> text_lt(#[trigger] s[i], #[trigger] s[j])
}

pub open spec fn strings_view(s: Seq<String>) -> Seq<Seq<char>> {
    s.map_values(|x: String| x@)
}

/// `a` is the non-empty artist of one of the tracks `ts`.
pub open spec fn is_artist_of(ts: Seq<TrackTags>, a: Seq<char>) -> bool {
    a.len() > 0 && exists|i: int| 0 <= i < ts.len() && (#[trigger] ts[i]).artist@ == a
}

/// Inserts `x` into the strictly ascending `s` unless it is there already.
fn insert_unique(s: &mut Vec<Vec<char>>, x: Vec<char>)
    requires
        strictly_ascending(vecs_view(old(s)@)),
    ensures
        strictly_ascending(vecs_view(final(s)@)),
        forall|y: Seq<char>|
            vecs_view(final(s)@).contains(y) <==> (vecs_view(old(s)@).contains(y) || y == x@),
{
    let ghost v = vecs_view(s@);
    let mut p: usize = 0;
    while p < s.len() && text_less(s[p].as_slice(), x.as_slice())
        invariant
            p <= s@.len(),
            v == vecs_view(s@),
            forall|k: int| 0 <= k < p ==> text_lt(#[trigger] v[k], x@),
        decreases s@.len() - p,
    {
        p += 1;
    }
    if p < s.len() && !text_less(x.as_slice(), s[p].as_slice()) {
        proof {
            lemma_text_lt_total(v[p as int], x@);
        }
        return ;
    }
    proof {
        if p < v.len() {
            lemma_text_lt_total(v[p as int], x@);
        }
        assert forall|i: int, j: int| 0 <= i < j < v.len() + 1 implies text_lt(
            #[trigger] v.insert(p as int, x@)[i],
            #[trigger] v.insert(p as int, x@)[j],
        ) by {
            let w = v.insert(p as int, x@);
            if i < p && j == p {
            } else if i < p && j > p {
                assert(w[j] == v[j - 1]);
                assert(w[i] == v[i]);
                if j - 1 > p {
                    lemma_text_lt_transitive(x@, v[p as int], v[j - 1]);
                }
                lemma_text_lt_transitive(v[i], x@, v[j - 1]);
            } else if i == p {
                assert(w[j] == v[j - 1]);
                if j - 1 > p {
                    lemma_text_lt_transitive(x@, v[p as int], v[j - 1]);
                }
            } else if i > p {
                assert(w[i] == v[i - 1] && w[j] == v[j - 1]);
            } else {
                assert(w[i] == v[i] && w[j] == v[j]);
            }
        }
    }
    s.insert(p, x);
    assert(vecs_view(s@) =~= v.insert(p as int, x@));
    proof {
        let w = v.insert(p as int, x@);
        assert forall|y: Seq<char>| w.contains(y) <==> (v.contains(y) || y == x@) by {
            if w.contains(y) {
                let k = choose|k: int| 0 <= k < w.len() && w[k] == y;
                if k < p {
                    assert(v[k] == y);
                } else if k > p {
                    assert(v[k - 1] == y);
                }
            }
            if v.contains(y) {
                let k = choose|k: int| 0 <= k < v.len() && v[k] == y;
                if k < p {
                    assert(w[k] == y);
                } else {
                    assert(w[k + 1] == y);
                }
            }
            if y == x@ {
                assert(w[p as int] == y);
            }
        }
    }
}

/// The artists of the library, sorted and without repeats, leaving out empty ones.
pub fn distinct_artists(tracks: &Vec<TrackTags>) -> (r: Vec<String>)
    ensures
        strictly_ascending(strings_view(r@)),
        forall|a: Seq<char>| strings_view(r@).contains(a) <==> is_artist_of(tracks@, a),
{
    let mut acc: Vec<Vec<char>> = Vec::new();
    let mut i: usize = 0;
    while i < tracks.len()
        invariant
            i <= tracks@.len(),
            strictly_ascending(vecs_view(acc@)),
            forall|a: Seq<char>|
                vecs_view(acc@).contains(a) <==> is_artist_of(tracks@.take(i as int), a),
        decreases tracks@.len() - i,
    {
        let a = chars_of(tracks[i].artist.as_str());
        let ghost before = vecs_view(acc@);
        if a.len() > 0 {
            insert_unique(&mut acc, a);
        }
        proof {
            let t = tracks@.take(i + 1 as int);
            assert forall|y: Seq<char>| vecs_view(acc@).contains(y) <==> is_artist_of(t, y) by {
                if is_artist_of(t, y) {
                    let k = choose|k: int| 0 <= k < t.len() && (#[trigger] t[k]).artist@ == y;
                    if k < i {
                        assert(tracks@.take(i as int)[k] == t[k]);
                    }
                }
                if is_artist_of(tracks@.take(i as int), y) {
                    let k = choose|k: int|
                        0 <= k < i && (#[trigger] tracks@.take(i as int)[k]).artist@ == y;
                    assert(t[k] == tracks@.take(i as int)[k]);
                }
                if y == tracks@[i as int].artist@ && y.len() > 0 {
                    assert(t[i as int] == tracks@[i as int]);
                }
            }
        }
        i += 1;
    }
    assert(tracks@.take(tracks@.len() as int) =~= tracks@);
    let mut r: Vec<String> = Vec::new();
    let mut j: usize = 0;
    while j < acc.len()
        invariant
            j <= acc@.len(),
            strings_view(r@) == vecs_view(acc@).take(j as int),
        decreases acc@.len() - j,
    {
        let ghost prev = strings_view(r@);
        let x = string_of(acc[j].as_slice());
        assert(vecs_view(acc@)[j as int] == acc@[j as int]@);
        r.push(x);
        assert(strings_view(r@) =~= prev.push(x@));
        assert(vecs_view(acc@).take(j + 1 as int) =~= vecs_view(acc@).take(j as int).push(
            vecs_view(acc@)[j as int],
        ));
        j += 1;
    }
    assert(vecs_view(acc@).take(acc@.len() as int) =~= vecs_view(acc@));
    r
}

/// `a` comes before `b`, comparing the first texts and then the second ones (the order of
/// `(String, String)`).
pub open spec fn pair_lt(a: (Seq<char>, Seq<char>), b: (Seq<char>, Seq<char>)) -> bool {
    text_lt(a.0, b.0) || (a.0 == b.0 && text_lt(a.1, b.1))
}

proof fn lemma_pair_lt_total(a: (Seq<char>, Seq<char>), b: (Seq<char>, Seq<char>))
    ensures
        a != b ==> pair_lt(a, b) || pair_lt(b, a),
        !(pair_lt(a, b) && pair_lt(b, a)),
{
    lemma_text_lt_total(a.0, b.0);
    lemma_text_lt_total(a.1, b.1);
    lemma_text_lt_irreflexive(a.0);
}

proof fn lemma_pair_lt_transitive(
    a: (Seq<char>, Seq<char>),
    b: (Seq<char>, Seq<char>),
    c: (Seq<char>, Seq<char>),
)
    requires
        pair_lt(a, b),
        pair_lt(b, c),
    ensures
        pair_lt(a, c),
{
    if text_lt(a.0, b.0) && text_lt(b.0, c.0) {
        lemma_text_lt_transitive(a.0, b.0, c.0);
    } else if a.0 == b.0 && b.0 == c.0 {
        lemma_text_lt_transitive(a.1, b.1, c.1);
    }
}

/// Each pair of `s` comes before the next one: sorted, without repeats.
pub open spec fn pairs_ascending(s: Seq<(Seq<char>, Seq<char>)>) -> bool {
    forall|i: int, j: int| 0 <= i < j < s.len() ==> pair_lt(#[trigger] s[i], #[trigger] s[j])
}

pub open spec fn pair_vecs_view(s: Seq<(Vec<char>, Vec<char>)>) -> Seq<(Seq<char>, Seq<char>)> {
    s.map_values(|x: (Vec<char>, Vec<char>)| (x.0@, x.1@))
}

pub open spec fn pair_strings_view(s: Seq<(String, String)>) -> Seq<(Seq<char>, Seq<char>)> {
    s.map_values(|x: (String, String)| (x.0@, x.1@))
}

/// `p` is the (album, artist) pair of one of the tracks `ts` with a non-empty album.
pub open spec fn is_album_of(ts: Seq<TrackTags>, p: (Seq<char>, Seq<char>)) -> bool {
    p.0.len() > 0 && exists|i: int|
        0 <= i < ts.len() && ((#[trigger] ts[i]).album@, ts[i].artist@) == p
}

fn pair_less(a: &(Vec<char>, Vec<char>), b: &(Vec<char>, Vec<char>)) -> (r: bool)
    ensures
        r == pair_lt((a.0@, a.1@), (b.0@, b.1@)),
{
    proof {
        lemma_text_lt_total(a.0@, b.0@);
    }
    if text_less(a.0.as_slice(), b.0.as_slice()) {
        true
    } else if text_less(b.0.as_slice(), a.0.as_slice()) {
        false
    } else {
        text_less(a.1.as_slice(), b.1.as_slice())
    }
}

/// Inserts `x` into the strictly ascending `s` unless it is there already.
fn insert_unique_pair(s: &mut Vec<(Vec<char>, Vec<char>)>, x: (Vec<char>, Vec<char>))
    requires
        pairs_ascending(pair_vecs_view(old(s)@)),
    ensures
        pairs_ascending(pair_vecs_view(final(s)@)),
        forall|y: (Seq<char>, Seq<char>)|
            pair_vecs_view(final(s)@).contains(y) <==> (pair_vecs_view(old(s)@).contains(y) || y
                == (x.0@, x.1@)),
{
    let ghost v = pair_vecs_view(s@);
    let ghost xv = (x.0@, x.1@);
    let mut p: usize = 0;
    while p < s.len() && pair_less(&s[p], &x)
        invariant
            p <= s@.len(),
            v == pair_vecs_view(s@),
            xv == (x.0@, x.1@),
            forall|k: int| 0 <= k < p ==> pair_lt(#[trigger] v[k], xv),
        decreases s@.len() - p,
    {
        p += 1;
    }
    if p < s.len() && !pair_less(&x, &s[p]) {
        proof {
            lemma_pair_lt_total(v[p as int], xv);
        }
        return ;
    }
    proof {
        if p < v.len() {
            lemma_pair_lt_total(v[p as int], xv);
        }
        assert forall|i: int, j: int| 0 <= i < j < v.len() + 1 implies pair_lt(
            #[trigger] v.insert(p as int, xv)[i],
            #[trigger] v.insert(p as int, xv)[j],
        ) by {
            let w = v.insert(p as int, xv);
            if i < p && j == p {
            } else if i < p && j > p {
                assert(w[j] == v[j - 1]);
                assert(w[i] == v[i]);
                if j - 1 > p {
                    lemma_pair_lt_transitive(xv, v[p as int], v[j - 1]);
                }
                lemma_pair_lt_transitive(v[i], xv, v[j - 1]);
            } else if i == p {
                assert(w[j] == v[j - 1]);
                if j - 1 > p {
                    lemma_pair_lt_transitive(xv, v[p as int], v[j - 1]);
                }
            } else if i > p {
                assert(w[i] == v[i - 1] && w[j] == v[j - 1]);
            } else {
                assert(w[i] == v[i] && w[j] == v[j]);
            }
        }
    }
    s.insert(p, x);
    assert(pair_vecs_view(s@) =~= v.insert(p as int, xv));
    proof {
        let w = v.insert(p as int, xv);
        assert forall|y: (Seq<char>, Seq<char>)| w.contains(y) <==> (v.contains(y) || y == xv) by {
            if w.contains(y) {
                let k = choose|k: int| 0 <= k < w.len() && w[k] == y;
                if k < p {
                    assert(v[k] == y);
                } else if k > p {
                    assert(v[k - 1] == y);
                }
            }
            if v.contains(y) {
                let k = choose|k: int| 0 <= k < v.len() && v[k] == y;
                if k < p {
                    assert(w[k] == y);
                } else {
                    assert(w[k + 1] == y);
                }
            }
            if y == xv {
                assert(w[p as int] == y);
            }
        }
    }
}

/// The (album, artist) pairs of the library, sorted and without repeats, leaving out tracks
/// without an album.
pub fn distinct_albums(tracks: &Vec<TrackTags>) -> (r: Vec<(String, String)>)
    ensures
        pairs_ascending(pair_strings_view(r@)),
        forall|p: (Seq<char>, Seq<char>)|
            pair_strings_view(r@).contains(p) <==> is_album_of(tracks@, p),
{
    let mut acc: Vec<(Vec<char>, Vec<char>)> = Vec::new();
    let mut i: usize = 0;
    while i < tracks.len()
        invariant
            i <= tracks@.len(),
            pairs_ascending(pair_vecs_view(acc@)),
            forall|p: (Seq<char>, Seq<char>)|
                pair_vecs_view(acc@).contains(p) <==> is_album_of(tracks@.take(i as int), p),
        decreases tracks@.len() - i,
    {
        let al = chars_of(tracks[i].album.as_str());
        let ar = chars_of(tracks[i].artist.as_str());
        if al.len() > 0 {
            insert_unique_pair(&mut acc, (al, ar));
        }
        proof {
            let t = tracks@.take(i + 1 as int);
            assert forall|y: (Seq<char>, Seq<char>)|
                pair_vecs_view(acc@).contains(y) <==> is_album_of(t, y) by {
                if is_album_of(t, y) {
                    let k = choose|k: int|
                        0 <= k < t.len() && ((#[trigger] t[k]).album@, t[k].artist@) == y;
                    if k < i {
                        assert(tracks@.take(i as int)[k] == t[k]);
                    }
                }
                if is_album_of(tracks@.take(i as int), y) {
                    let k = choose|k: int|
                        0 <= k < i && ((#[trigger] tracks@.take(i as int)[k]).album@, tracks@.take(
                            i as int,
                        )[k].artist@) == y;
                    assert(t[k] == tracks@.take(i as int)[k]);
                }
                if y == (tracks@[i as int].album@, tracks@[i as int].artist@) && y.0.len() > 0 {
                    assert(t[i as int] == tracks@[i as int]);
                }
            }
        }
        i += 1;
    }
    assert(tracks@.take(tracks@.len() as int) =~= tracks@);
    let mut r: Vec<(String, String)> = Vec::new();
    let mut j: usize = 0;
    while j < acc.len()
        invariant
            j <= acc@.len(),
            pair_strings_view(r@) == pair_vecs_view(acc@).take(j as int),
        decreases acc@.len() - j,
    {
        let ghost prev = pair_strings_view(r@);
        let a = string_of(acc[j].0.as_slice());
        let b = string_of(acc[j].1.as_slice());
        assert(pair_vecs_view(acc@)[j as int] == (acc@[j as int].0@, acc@[j as int].1@));
        let ghost pv = (a@, b@);
        r.push((a, b));
        assert(pair_strings_view(r@) =~= prev.push(pv));
        assert(pair_vecs_view(acc@).take(j + 1 as int) =~= pair_vecs_view(acc@).take(
            j as int,
        ).push(pair_vecs_view(acc@)[j as int]));
        j += 1;
    }
    assert(pair_vecs_view(acc@).take(acc@.len() as int) =~= pair_vecs_view(acc@));
    r
}

// ---------------------------------------------------------------------------------------------
// Album summary
// ---------------------------------------------------------------------------------------------
/// The album parts of album index keys, in key order: the text before the first `"::"` of
/// each key that has one, leaving out empty album names.
pub open spec fn key_albums(keys: Seq<Seq<char>>) -> Seq<Seq<char>>
    decreases keys.len(),
{
    if keys.len() == 0 {
        Seq::empty()
    } else {
        let r = key_albums(keys.drop_last());
        match split_key(keys.last()) {
            Some(parts) => if parts.0.len() > 0 {
                r.push(parts.0)
            } else {
                r
            },
            None => r,
        }
    }
}

/// The last entry of `acc` that counts the album `a`.
pub open spec fn find_album(acc: Seq<(Seq<char>, nat)>, a: Seq<char>) -> Option<int>
    decreases acc.len(),
{
    if acc.len() == 0 {
        None
    } else if acc.last().0 == a {
        Some(acc.len() - 1)
    } else {
        find_album(acc.drop_last(), a)
    }
}

/// Each album of `names` with the number of times it occurs, albums in order of first
/// occurrence.
pub open spec fn tally(names: Seq<Seq<char>>) -> Seq<(Seq<char>, nat)>
    decreases names.len(),
{
    if names.len() == 0 {
        Seq::empty()
    } else {
        let acc = tally(names.drop_last());
        let a = names.last();
        match find_album(acc, a) {
            Some(i) => acc.update(i, (a, acc[i].1 + 1)),
            None => acc.push((a, 1)),
        }
    }
}

/// `x` may stay before `y` when ordering by lower-cased album name.
pub open spec fn lower_le(x: (Seq<char>, nat), y: (Seq<char>, nat)) -> bool {
    !text_lt(unicode_lowercase(y.0), unicode_lowercase(x.0))
}

/// The album summary: each album named in the album index with its number of tracks,
/// ordered by lower-cased name (a stable sort, so albums whose names differ only in case
/// keep the order of the index).
pub open spec fn album_summary(keys: Seq<Seq<char>>) -> Seq<(Seq<char>, nat)> {
    sort_stable(tally(key_albums(keys)), |x: (Seq<char>, nat), y: (Seq<char>, nat)| lower_le(x, y))
}

pub open spec fn counts_view(s: Seq<(Vec<char>, usize)>) -> Seq<(Seq<char>, nat)> {
    s.map_values(|x: (Vec<char>, usize)| (x.0@, x.1 as nat))
}

pub open spec fn lowered_view(s: Seq<(Vec<char>, Vec<char>, usize)>) -> Seq<(Seq<char>, nat)> {
    s.map_values(|x: (Vec<char>, Vec<char>, usize)| (x.1@, x.2 as nat))
}

pub open spec fn counted_view(s: Seq<(String, usize)>) -> Seq<(Seq<char>, nat)> {
    s.map_values(|x: (String, usize)| (x.0@, x.1 as nat))
}

/// The album parts of the keys.
fn albums_of_keys(keys: &Vec<String>) -> (r: Vec<Vec<char>>)
    ensures
        vecs_view(r@) == key_albums(strings_view(keys@)),
{
    let ghost kv = strings_view(keys@);
    let mut r: Vec<Vec<char>> = Vec::new();
    let mut i: usize = 0;
    assert(kv.take(0) =~= Seq::<Seq<char>>::empty());
    while i < keys.len()
        invariant
            i <= keys@.len(),
            kv == strings_view(keys@),
            vecs_view(r@) == key_albums(kv.take(i as int)),
        decreases keys@.len() - i,
    {
        assert(kv.take(i + 1 as int).drop_last() =~= kv.take(i as int));
        assert(kv.take(i + 1 as int).last() == keys@[i as int]@);
        match split_album_key(keys[i].as_str()) {
            Some((a, _)) => {
                let av = chars_of(a.as_str());
                if av.len() > 0 {
                    r.push(av);
                    assert(vecs_view(r@) =~= key_albums(kv.take(i as int)).push(a@));
                }
            },
            None => {},
        }
        i += 1;
    }
    assert(kv.take(keys@.len() as int) =~= kv);
    r
}

/// Counts each album of `names`.
fn tally_of(names: &Vec<Vec<char>>) -> (r: Vec<(Vec<char>, usize)>)
    ensures
        counts_view(r@) == tally(vecs_view(names@)),
{
    let ghost nv = vecs_view(names@);
    let mut acc: Vec<(Vec<char>, usize)> = Vec::new();
    let mut i: usize = 0;
    assert(nv.take(0) =~= Seq::<Seq<char>>::empty());
    while i < names.len()
        invariant
            i <= names@.len(),
            nv == vecs_view(names@),
            counts_view(acc@) == tally(nv.take(i as int)),
            forall|k: int| 0 <= k < acc@.len() ==> (#[trigger] acc@[k]).1 <= i,
        decreases names@.len() - i,
    {
        let ghost cv = counts_view(acc@);
        let a = names[i].as_slice();
        assert(nv.take(i + 1 as int).drop_last() =~= nv.take(i as int));
        assert(nv.take(i + 1 as int).last() == names@[i as int]@);
        let mut k: usize = acc.len();
        assert(cv.take(k as int) =~= cv);
        while k > 0 && !chars_eq(acc[k - 1].0.as_slice(), a)
            invariant
                k <= acc@.len(),
                cv == counts_view(acc@),
                find_album(cv, a@) == find_album(cv.take(k as int), a@),
            decreases k,
        {
            assert(cv.take(k as int).drop_last() =~= cv.take(k - 1 as int));
            assert(cv.take(k as int).last() == cv[k - 1]);
            k -= 1;
        }
        if k > 0 {
            assert(cv.take(k as int).last() == cv[k - 1]);
            assert(find_album(cv, a@) == Some(k - 1 as int));
            let c = acc[k - 1].1;
            let item = (chars_of(string_of(a).as_str()), c + 1);
            acc.set(k - 1, item);
            assert(counts_view(acc@) =~= cv.update(k - 1, (a@, cv[k - 1].1 + 1)));
        } else {
            assert(find_album(cv, a@) is None);
            let item = (chars_of(string_of(a).as_str()), 1usize);
            acc.push(item);
            assert(counts_view(acc@) =~= cv.push((a@, 1)));
        }
        i += 1;
    }
    assert(nv.take(names@.len() as int) =~= nv);
    acc
}

/// How many of `names` are `a`.
pub open spec fn count_of(names: Seq<Seq<char>>, a: Seq<char>) -> nat
    decreases names.len(),
{
    if names.len() == 0 {
        0
    } else {
        count_of(names.drop_last(), a) + if names.last() == a {
            1nat
        } else {
            0nat
        }
    }
}

proof fn lemma_find_album(acc: Seq<(Seq<char>, nat)>, a: Seq<char>)
    ensures
        match find_album(acc, a) {
            Some(i) => 0 <= i < acc.len() && acc[i].0 == a,
            None => forall|k: int| 0 <= k < acc.len() ==> (#[trigger] acc[k]).0 != a,
        },
    decreases acc.len(),
{
    if acc.len() > 0 && acc.last().0 != a {
        lemma_find_album(acc.drop_last(), a);
        assert forall|k: int| 0 <= k < acc.len() - 1 implies (#[trigger] acc[k]) == acc.drop_last()[k] by {}
    }
}

proof fn lemma_tally(names: Seq<Seq<char>>)
    ensures
        forall|k: int| 0 <= k < tally(names).len() ==> (#[trigger] tally(names)[k]).1 == count_of(names, tally(names)[k].0),
        forall|a: Seq<char>| count_of(names, a) > 0 ==> exists|k: int| 0 <= k < tally(names).len() && (#[trigger] tally(names)[k]).0 == a,
        forall|i: int, j: int| 0 <= i < j < tally(names).len() ==> (#[trigger] tally(names)[i]).0 != (#[trigger] tally(names)[j]).0,
    decreases names.len(),
{
    if names.len() > 0 {
        let rest = names.drop_last();
        let acc = tally(rest);
        let a = names.last();
        lemma_tally(rest);
        lemma_find_album(acc, a);
        let t = tally(names);
        match find_album(acc, a) {
            Some(i) => {
                assert(t == acc.update(i, (a, acc[i].1 + 1)));
                assert forall|k: int| 0 <= k < t.len() implies (#[trigger] t[k]).1 == count_of(names, t[k].0) by {
                    if k != i {
                        assert(t[k] == acc[k]);
                        assert(acc[k].0 != acc[i].0 || k == i);
                    }
                }
                assert forall|b: Seq<char>| count_of(names, b) > 0 implies exists|k: int| 0 <= k < t.len() && (#[trigger] t[k]).0 == b by {
                    if b == a {
                        assert(t[i].0 == b);
                    } else {
                        assert(count_of(rest, b) == count_of(names, b));
                        let k = choose|k: int| 0 <= k < acc.len() && (#[trigger] acc[k]).0 == b;
                        assert(t[k] == acc[k]);
                        assert(t[k].0 == b);
                    }
                }
                assert forall|p: int, q: int| 0 <= p < q < t.len() implies (#[trigger] t[p]).0 != (#[trigger] t[q]).0 by {
                    assert(acc[p].0 != acc[q].0);
                }
            },
            None => {
                assert(t == acc.push((a, 1)));
                assert(count_of(rest, a) == 0) by {
                    if count_of(rest, a) > 0 {
                        let k = choose|k: int| 0 <= k < acc.len() && (#[trigger] acc[k]).0 == a;
                    }
                }
                assert forall|k: int| 0 <= k < t.len() implies (#[trigger] t[k]).1 == count_of(names, t[k].0) by {
                    if k < acc.len() {
                        assert(t[k] == acc[k]);
                    }
                }
                assert forall|b: Seq<char>| count_of(names, b) > 0 implies exists|k: int| 0 <= k < t.len() && (#[trigger] t[k]).0 == b by {
                    if b == a {
                        assert(t[acc.len() as int].0 == b);
                    } else {
                        assert(count_of(rest, b) == count_of(names, b));
                        let k = choose|k: int| 0 <= k < acc.len() && (#[trigger] acc[k]).0 == b;
                        assert(t[k] == acc[k]);
                        assert(t[k].0 == b);
                    }
                }
                assert forall|p: int, q: int| 0 <= p < q < t.len() implies (#[trigger] t[p]).0 != (#[trigger] t[q]).0 by {
                    if q < acc.len() {
                        assert(acc[p].0 != acc[q].0);
                    } else {
                        assert(t[p] == acc[p]);
                    }
                }
            },
        }
    }
}

proof fn lemma_sort_stable_covers<A>(s: Seq<A>, le: spec_fn(A, A) -> bool)
    ensures
        forall|k: int| 0 <= k < s.len() ==> sort_stable(s, le).contains(#[trigger] s[k]),
    decreases s.len(),
{
    if s.len() > 0 {
        let r = sort_stable(s.drop_last(), le);
        lemma_sort_stable_covers(s.drop_last(), le);
        lemma_insert_point(r, s.last(), le);
        let p = insert_point(r, s.last(), le) as int;
        let w = r.insert(p, s.last());
        assert forall|k: int| 0 <= k < s.len() implies sort_stable(s, le).contains(#[trigger] s[k]) by {
            if k == s.len() - 1 {
                assert(w[p] == s[k]);
            } else {
                assert(s[k] == s.drop_last()[k]);
                assert(r.contains(s.drop_last()[k]));
                let j = choose|j: int| 0 <= j < r.len() && r[j] == s.drop_last()[k];
                if j < p {
                    assert(w[j] == r[j]);
                } else {
                    assert(w[j + 1] == r[j]);
                }
            }
        }
    }
}

/// The album summary lists albums ordered by lower-cased name; each album it lists carries
/// the number of index keys that name it, and every album that some key names is listed.
pub proof fn law_album_summary(keys: Seq<Seq<char>>)
    ensures
        sorted_by(album_summary(keys), |x: (Seq<char>, nat), y: (Seq<char>, nat)| lower_le(x, y)),
        forall|k: int| 0 <= k < album_summary(keys).len() ==> (#[trigger] album_summary(keys)[k]).1 == count_of(key_albums(keys), album_summary(keys)[k].0),
        forall|a: Seq<char>| count_of(key_albums(keys), a) > 0 ==> exists|k: int| 0 <= k < album_summary(keys).len() && (#[trigger] album_summary(keys)[k]).0 == a,
{
    let t = tally(key_albums(keys));
    let le = |x: (Seq<char>, nat), y: (Seq<char>, nat)| lower_le(x, y);
    lemma_tally(key_albums(keys));
    assert(total_preorder_on(t, le)) by {
        assert forall|a: (Seq<char>, nat), b: (Seq<char>, nat)| t.contains(a) && t.contains(b) implies le(a, b) || le(b, a) by {
            lemma_text_lt_total(unicode_lowercase(a.0), unicode_lowercase(b.0));
        }
        assert forall|a: (Seq<char>, nat), b: (Seq<char>, nat), c: (Seq<char>, nat)| t.contains(a) && t.contains(b) && t.contains(c) && le(a, b) && le(b, c) implies le(a, c) by {
            let (la, lb, lc) = (unicode_lowercase(a.0), unicode_lowercase(b.0), unicode_lowercase(c.0));
            lemma_text_lt_total(la, lb);
            lemma_text_lt_total(lb, lc);
            lemma_text_lt_total(la, lc);
            if text_lt(lc, la) {
                if la != lb {
                    lemma_text_lt_transitive(lc, la, lb);
                }
            }
        }
    }
    lemma_sort_stable_sorted(t, le);
    lemma_sort_stable_elems(t, le);
    lemma_sort_stable_covers(t, le);
    let r = album_summary(keys);
    assert forall|k: int| 0 <= k < r.len() implies (#[trigger] r[k]).1 == count_of(key_albums(keys), r[k].0) by {
        assert(t.contains(r[k]));
        let j = choose|j: int| 0 <= j < t.len() && t[j] == r[k];
    }
    assert forall|a: Seq<char>| count_of(key_albums(keys), a) > 0 implies exists|k: int| 0 <= k < r.len() && (#[trigger] r[k]).0 == a by {
        let j = choose|j: int| 0 <= j < t.len() && (#[trigger] t[j]).0 == a;
        assert(r.contains(t[j]));
        let k = choose|k: int| 0 <= k < r.len() && r[k] == t[j];
        assert(r[k].0 == a);
    }
}

/// Each album named in the album index keys `keys` (`"<album>::<path>"`, in index order)
/// with its number of tracks, ordered by lower-cased album name.
pub fn album_counts(keys: &Vec<String>) -> (r: Vec<(String, usize)>)
    ensures
        counted_view(r@) == album_summary(strings_view(keys@)),
{
    let names = albums_of_keys(keys);
    let counts = tally_of(&names);
    let ghost le = |x: (Seq<char>, nat), y: (Seq<char>, nat)| lower_le(x, y);
    let ghost cv = counts_view(counts@);
    let mut sorted: Vec<(Vec<char>, Vec<char>, usize)> = Vec::new();
    let mut i: usize = 0;
    assert(cv.take(0) =~= Seq::<(Seq<char>, nat)>::empty());
    while i < counts.len()
        invariant
            i <= counts@.len(),
            cv == counts_view(counts@),
            le == (|x: (Seq<char>, nat), y: (Seq<char>, nat)| lower_le(x, y)),
            lowered_view(sorted@) == sort_stable(cv.take(i as int), le),
            forall|k: int|
                0 <= k < sorted@.len() ==> (#[trigger] sorted@[k]).0@ == unicode_lowercase(
                    sorted@[k].1@,
                ),
        decreases counts@.len() - i,
    {
        let name = string_of(counts[i].0.as_slice());
        let lower = chars_of(to_lowercase(name.as_str()).as_str());
        let x = (lower, chars_of(name.as_str()), counts[i].1);
        let ghost xv = (x.1@, x.2 as nat);
        assert(xv == cv[i as int]);
        let ghost s = lowered_view(sorted@);
        let mut p: usize = sorted.len();
        assert(s.take(p as int) =~= s);
        while p > 0 && text_less(x.0.as_slice(), sorted[p - 1].0.as_slice())
            invariant
                p <= sorted@.len(),
                s == lowered_view(sorted@),
                le == (|x: (Seq<char>, nat), y: (Seq<char>, nat)| lower_le(x, y)),
                xv == (x.1@, x.2 as nat),
                x.0@ == unicode_lowercase(x.1@),
                forall|k: int|
                    0 <= k < sorted@.len() ==> (#[trigger] sorted@[k]).0@ == unicode_lowercase(
                        sorted@[k].1@,
                    ),
                insert_point(s, xv, le) == insert_point(s.take(p as int), xv, le),
            decreases p,
        {
            assert(s.take(p as int).drop_last() =~= s.take(p - 1 as int));
            assert(s.take(p as int).last() == s[p - 1]);
            p -= 1;
        }
        proof {
            if p > 0 {
                assert(s.take(p as int).last() == s[p - 1]);
            }
            lemma_insert_point(s, xv, le);
        }
        sorted.insert(p, x);
        assert(lowered_view(sorted@) =~= s.insert(p as int, xv));
        assert(cv.take(i + 1 as int).drop_last() =~= cv.take(i as int));
        assert(cv.take(i + 1 as int).last() == xv);
        i += 1;
    }
    assert(cv.take(counts@.len() as int) =~= cv);
    let mut r: Vec<(String, usize)> = Vec::new();
    let mut j: usize = 0;
    while j < sorted.len()
        invariant
            j <= sorted@.len(),
            counted_view(r@) == lowered_view(sorted@).take(j as int),
        decreases sorted@.len() - j,
    {
        let ghost prev = counted_view(r@);
        let a = string_of(sorted[j].1.as_slice());
        let ghost pv = (a@, sorted@[j as int].2 as nat);
        assert(lowered_view(sorted@)[j as int] == pv);
        r.push((a, sorted[j].2));
        assert(counted_view(r@) =~= prev.push(pv));
        assert(lowered_view(sorted@).take(j + 1 as int) =~= lowered_view(sorted@).take(
            j as int,
        ).push(pv));
        j += 1;
    }
    assert(lowered_view(sorted@).take(sorted@.len() as int) =~= lowered_view(sorted@));
    r
}

proof fn lemma_matching(ts: Seq<TrackTags>, ws: Seq<Seq<char>>)
    ensures
        forall|k: int|
            matching(ts, ws).contains(k) <==> (0 <= k < ts.len() && forall|i: int|
                0 <= i < ws.len() ==> #[trigger] tags_hold(ts[k], ws[i])),
        forall|a: int, b: int|
            0 <= a < b < matching(ts, ws).len() ==> #[trigger] matching(ts, ws)[a]
                < #[trigger] matching(ts, ws)[b],
        forall|a: int| 0 <= a < matching(ts, ws).len() ==> 0 <= #[trigger] matching(ts, ws)[a] < ts.len(),
    decreases ts.len(),
{
    if ts.len() > 0 {
        let rest = ts.drop_last();
        lemma_matching(rest, ws);
        let r = matching(ts, ws);
        let q = matching(rest, ws);
        assert forall|k: int|
            r.contains(k) <==> (0 <= k < ts.len() && forall|i: int|
                0 <= i < ws.len() ==> #[trigger] tags_hold(ts[k], ws[i])) by {
            if 0 <= k < ts.len() - 1 {
                assert(ts[k] == rest[k]);
            }
            if r.contains(k) {
                let j = choose|j: int| 0 <= j < r.len() && r[j] == k;
                if j < q.len() {
                    assert(q[j] == k);
                    assert(q.contains(k));
                }
            }
            if 0 <= k < ts.len() && (forall|i: int| 0 <= i < ws.len() ==> #[trigger] tags_hold(ts[k], ws[i])) {
                if k < ts.len() - 1 {
                    assert(q.contains(k));
                    let j = choose|j: int| 0 <= j < q.len() && q[j] == k;
                    assert(r[j] == k);
                } else {
                    assert(ts.last() == ts[k]);
                    assert(r[q.len() as int] == k);
                }
            }
        }
    }
}

/// A track is found exactly when every word of the lower-cased keyword occurs in its
/// lower-cased title, artist or album (a word may match another field than the next word);
/// the tracks come out in library order, each once.
pub proof fn law_search_every_word(ts: Seq<TrackTags>, keyword: Seq<char>)
    ensures
        forall|k: int|
            matching(ts, words(unicode_lowercase(keyword))).contains(k) <==> (0 <= k < ts.len()
                && forall|i: int|
                0 <= i < words(unicode_lowercase(keyword)).len() ==> #[trigger] tags_hold(
                    ts[k],
                    words(unicode_lowercase(keyword))[i],
                )),
        forall|a: int, b: int|
            0 <= a < b < matching(ts, words(unicode_lowercase(keyword))).len() ==> #[trigger] matching(
                ts,
                words(unicode_lowercase(keyword)),
            )[a] < #[trigger] matching(ts, words(unicode_lowercase(keyword)))[b],
{
    lemma_matching(ts, words(unicode_lowercase(keyword)));
}

/// `a` comes strictly before `b` in `Option`'s order (no number before any number).
pub open spec fn number_before(a: Option<u32>, b: Option<u32>) -> bool {
    match (a, b) {
        (None, Some(_)) => true,
        (Some(x), Some(y)) => x < y,
        _ => false,
    }
}

/// In an album's track order no track comes after one with a higher disc number, and among
/// tracks of the same disc (or both without one) none comes after one with a higher track
/// number (untagged first).
pub proof fn law_album_order_by_numbers(ts: Seq<TrackTags>)
    ensures
        forall|i: int, j: int|
            0 <= i < j < ts.len() ==> !number_before(
                ts[#[trigger] album_order(ts)[j]].disc_number,
                ts[#[trigger] album_order(ts)[i]].disc_number,
            ),
        forall|i: int, j: int|
            0 <= i < j < ts.len() && ts[#[trigger] album_order(ts)[i]].disc_number
                == ts[#[trigger] album_order(ts)[j]].disc_number ==> !number_before(
                ts[album_order(ts)[j]].track_number,
                ts[album_order(ts)[i]].track_number,
            ),
{
    law_album_order_sorted(ts);
    assert forall|i: int, j: int| 0 <= i < j < ts.len() implies !number_before(
        ts[#[trigger] album_order(ts)[j]].disc_number,
        ts[#[trigger] album_order(ts)[i]].disc_number,
    ) by {
        assert(track_le(ts[album_order(ts)[i]], ts[album_order(ts)[j]]));
    }
    assert forall|i: int, j: int|
        0 <= i < j < ts.len() && ts[#[trigger] album_order(ts)[i]].disc_number
            == ts[#[trigger] album_order(ts)[j]].disc_number implies !number_before(
        ts[album_order(ts)[j]].track_number,
        ts[album_order(ts)[i]].track_number,
    ) by {
        assert(track_le(ts[album_order(ts)[i]], ts[album_order(ts)[j]]));
    }
}

} // verus!
