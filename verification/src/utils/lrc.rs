use vstd::prelude::*;

use crate::chars::{
    contains, contains_text, to_lowercase, unicode_lowercase,
    chars_of, find_char, lemma_find_char, position_of, string_of, subvec, trim, trimmed,
};

verus! {

// ---------------------------------------------------------------------------------------------
// The model of an LRC lyrics text
// ---------------------------------------------------------------------------------------------
/// `s` split at every `'\n'` (an empty text gives one empty piece).
pub open spec fn split_lines(s: Seq<char>) -> Seq<Seq<char>>
    decreases s.len(),
{
    if s.len() == 0 {
        seq![Seq::<char>::empty()]
    } else {
        let r = split_lines(s.drop_last());
        if s.last() == '\n' {
            r.push(Seq::<char>::empty())
        } else {
            r.update(r.len() - 1, r.last().push(s.last()))
        }
    }
}

/// The trimmed pieces of `ls` that are not empty once trimmed, in order.
pub open spec fn nonblank(ls: Seq<Seq<char>>) -> Seq<Seq<char>>
    decreases ls.len(),
{
    if ls.len() == 0 {
        Seq::empty()
    } else {
        let r = nonblank(ls.drop_last());
        let t = trim(ls.last());
        if t.len() > 0 {
            r.push(t)
        } else {
            r
        }
    }
}

/// The lines of a lyrics text that carry anything: each line trimmed, blank ones dropped
/// (what `content.lines().map(str::trim).filter(|l| !l.is_empty())` yields).
pub open spec fn lyric_lines(s: Seq<char>) -> Seq<Seq<char>> {
    nonblank(split_lines(s))
}

pub open spec fn is_digit(c: char) -> bool {
    '0' <= c && c <= '9'
}

/// `s` is a non-empty string of ASCII decimal digits.
pub open spec fn all_digits(s: Seq<char>) -> bool {
    s.len() > 0 && forall|i: int| 0 <= i < s.len() ==> is_digit(#[trigger] s[i])
}

/// The value of a decimal digit character (0 for any other character).
pub open spec fn digit_value(c: char) -> nat {
    if is_digit(c) {
        ((c as int) - ('0' as int)) as nat
    } else {
        0
    }
}

/// The number that the decimal digits `s` spell.
pub open spec fn digits_value(s: Seq<char>) -> nat
    decreases s.len(),
{
    if s.len() == 0 {
        0
    } else {
        digits_value(s.drop_last()) * 10 + digit_value(s.last())
    }
}

/// The milliseconds that a fraction-of-a-second field spells (digits past the third
/// are dropped).
pub open spec fn frac_ms(f: Seq<char>) -> nat {
    if f.len() >= 3 {
        digits_value(f.take(3))
    } else if f.len() == 2 {
        digits_value(f) * 10
    } else {
        digits_value(f) * 100
    }
}

/// Index of the first `'.'` or `','` in `s`.
pub open spec fn find_sep(s: Seq<char>) -> Option<int>
    decreases s.len(),
{
    if s.len() == 0 {
        None
    } else if s[0] == '.' || s[0] == ',' {
        Some(0)
    } else {
        match find_sep(s.drop_first()) {
            Some(i) => Some(i + 1),
            None => None,
        }
    }
}

/// `s` up to its first `'.'` or `','`.
pub open spec fn until_sep(s: Seq<char>) -> Seq<char> {
    match find_sep(s) {
        Some(k) => s.take(k),
        None => s,
    }
}

/// The time, in milliseconds, that an LRC time tag `mm:ss`, `mm:ss.xx` or `mm:ss,xx`
/// stands for: exactly one `':'`, minutes and seconds of decimal digits, and, after the first
/// `'.'` or `','`, a fraction field of decimal digits that ends at the next separator.
/// Tags of any other form, and times past `u64::MAX` milliseconds, stand for no time.
pub open spec fn timestamp_ms(ts: Seq<char>) -> Option<nat> {
    match find_char(ts, ':') {
        None => None,
        Some(i) => {
            let mins = ts.take(i);
            let rest = ts.skip(i + 1);
            if find_char(rest, ':') is Some {
                None
            } else {
                let secs = match find_sep(rest) {
                    Some(j) => rest.take(j),
                    None => rest,
                };
                let frac_ok = match find_sep(rest) {
                    Some(j) => all_digits(until_sep(rest.skip(j + 1))),
                    None => true,
                };
                let frac = match find_sep(rest) {
                    Some(j) => frac_ms(until_sep(rest.skip(j + 1))),
                    None => 0,
                };
                if all_digits(mins) && all_digits(secs) && frac_ok {
                    let t = digits_value(mins) * 60000 + digits_value(secs) * 1000 + frac;
                    if t <= u64::MAX {
                        Some(t)
                    } else {
                        None
                    }
                } else {
                    None
                }
            }
        },
    }
}

/// The leading `[...]` tags of a lyrics line: the times of those that are time tags, in
/// order, and what follows the last tag. A `'['` without a closing `']'` ends the tags.
pub open spec fn line_tags(l: Seq<char>) -> (Seq<nat>, Seq<char>)
    decreases l.len(),
{
    if l.len() > 0 && l[0] == '[' {
        match find_char(l, ']') {
            Some(c) => {
                proof {
                    lemma_find_char(l, ']');
                }
                let r = line_tags(l.skip(c + 1));
                match timestamp_ms(l.subrange(1, c)) {
                    Some(t) => (seq![t] + r.0, r.1),
                    None => r,
                }
            },
            None => (Seq::empty(), l),
        }
    } else {
        (Seq::empty(), l)
    }
}

/// The timed entries of lyrics lines: one per time tag, with the line's trimmed text.
pub open spec fn timed_entries(lines: Seq<Seq<char>>) -> Seq<(nat, Seq<char>)>
    decreases lines.len(),
{
    if lines.len() == 0 {
        Seq::empty()
    } else {
        let tags = line_tags(lines.last());
        let text = trim(tags.1);
        timed_entries(lines.drop_last()) + tags.0.map_values(|t: nat| (t, text))
    }
}

/// `s` with `x` inserted after every entry whose time is at most `x`'s, scanning from the
/// end (the step of a stable insertion sort).
pub open spec fn insert_by_time(s: Seq<(nat, Seq<char>)>, x: (nat, Seq<char>)) -> Seq<
    (nat, Seq<char>),
>
    decreases s.len(),
{
    if s.len() == 0 || s.last().0 <= x.0 {
        s.push(x)
    } else {
        insert_by_time(s.drop_last(), x).push(s.last())
    }
}

/// `s` sorted by time, entries with equal times kept in their order (a stable sort, as
/// `slice::sort_by` is).
pub open spec fn sort_by_time(s: Seq<(nat, Seq<char>)>) -> Seq<(nat, Seq<char>)>
    decreases s.len(),
{
    if s.len() == 0 {
        s
    } else {
        insert_by_time(sort_by_time(s.drop_last()), s.last())
    }
}

/// Entries ordered by time.
pub open spec fn time_sorted(s: Seq<(nat, Seq<char>)>) -> bool {
    forall|i: int, j: int| 0 <= i <= j < s.len() ==> s[i].0 <= s[j].0
}

/// Plain lyrics: line `i` is shown from second `3 * i`.
pub open spec fn unsynced_entries(lines: Seq<Seq<char>>) -> Seq<(nat, Seq<char>)> {
    Seq::new(lines.len(), |i: int| ((3000 * i) as nat, lines[i]))
}

/// What parsing a lyrics text gives: the timed entries sorted by time when the text holds
/// any time tag (synced lyrics), else every non-blank line three seconds after the one before.
pub open spec fn lrc_model(content: Seq<char>) -> (Seq<(nat, Seq<char>)>, bool) {
    let lines = lyric_lines(content);
    let es = timed_entries(lines);
    if es.len() > 0 {
        (sort_by_time(es), true)
    } else {
        (unsynced_entries(lines), false)
    }
}

/// The number of leading entries whose time is at most `pos`.
pub open spec fn reached(s: Seq<(nat, Seq<char>)>, pos: nat) -> nat
    decreases s.len(),
{
    if s.len() == 0 {
        0
    } else if s[0].0 <= pos {
        1 + reached(s.drop_first(), pos)
    } else {
        0
    }
}

// ---------------------------------------------------------------------------------------------
// Types
// ---------------------------------------------------------------------------------------------
/// One lyrics line and the time (milliseconds into the track) from which it is shown.
pub struct LrcLine {
    pub time_ms: u64,
    pub text: String,
}

impl View for LrcLine {
    type V = (nat, Seq<char>);

    open spec fn view(&self) -> (nat, Seq<char>) {
        (self.time_ms as nat, self.text@)
    }
}

pub open spec fn lines_view(s: Seq<LrcLine>) -> Seq<(nat, Seq<char>)> {
    s.map_values(|l: LrcLine| l@)
}

/// Parsed lyrics: lines ordered by time, and whether the text carried time tags.
pub struct LrcFile {
    pub lines: Vec<LrcLine>,
    pub is_synced: bool,
}

impl View for LrcFile {
    type V = (Seq<(nat, Seq<char>)>, bool);

    open spec fn view(&self) -> (Seq<(nat, Seq<char>)>, bool) {
        (lines_view(self.lines@), self.is_synced)
    }
}

// ---------------------------------------------------------------------------------------------
// Splitting into lines
// ---------------------------------------------------------------------------------------------
proof fn lemma_split_lines_nonempty(s: Seq<char>)
    ensures
        split_lines(s).len() >= 1,
    decreases s.len(),
{
    if s.len() > 0 {
        lemma_split_lines_nonempty(s.drop_last());
    }
}

/// The character sequences held by a vector of character vectors.
pub open spec fn vecs_view(s: Seq<Vec<char>>) -> Seq<Seq<char>> {
    s.map_values(|v: Vec<char>| v@)
}

/// The non-blank, trimmed lines of `v`.
fn lyric_lines_of(v: &[char]) -> (r: Vec<Vec<char>>)
    ensures
        vecs_view(r@) == lyric_lines(v@),
{
    let mut done: Vec<Vec<char>> = Vec::new();
    let mut cur: Vec<char> = Vec::new();
    let mut i: usize = 0;
    assert(v@.take(0) =~= Seq::<char>::empty());
    while i < v.len()
        invariant
            i <= v@.len(),
            split_lines(v@.take(i as int)).len() >= 1,
            cur@ == split_lines(v@.take(i as int)).last(),
            vecs_view(done@) == nonblank(split_lines(v@.take(i as int)).drop_last()),
        decreases v@.len() - i,
    {
        let ghost ls = split_lines(v@.take(i as int));
        let c = v[i];
        assert(v@.take(i + 1 as int).drop_last() =~= v@.take(i as int));
        assert(v@.take(i + 1 as int).last() == c);
        if c == '\n' {
            let t = trimmed(cur.as_slice());
            assert(split_lines(v@.take(i + 1 as int)) == ls.push(Seq::<char>::empty()));
            assert(ls.push(Seq::<char>::empty()).drop_last() =~= ls);
            assert(ls.drop_last().push(ls.last()) =~= ls);
            if t.len() > 0 {
                done.push(t);
                assert(vecs_view(done@) =~= nonblank(ls));
            } else {
                assert(trim(ls.last()).len() == 0);
                assert(nonblank(ls) == nonblank(ls.drop_last()));
            }
            cur = Vec::new();
        } else {
            cur.push(c);
            assert(split_lines(v@.take(i + 1 as int)) == ls.update(ls.len() - 1, ls.last().push(c)));
            assert(ls.update(ls.len() - 1, ls.last().push(c)).drop_last() =~= ls.drop_last());
        }
        i += 1;
    }
    assert(v@.take(v@.len() as int) =~= v@);
    let ghost ls = split_lines(v@);
    let t = trimmed(cur.as_slice());
    assert(ls.drop_last().push(ls.last()) =~= ls);
    if t.len() > 0 {
        done.push(t);
        assert(vecs_view(done@) =~= nonblank(ls));
    } else {
        assert(trim(ls.last()).len() == 0);
        assert(nonblank(ls) == nonblank(ls.drop_last()));
    }
    done
}

// ---------------------------------------------------------------------------------------------
// Time tags
// ---------------------------------------------------------------------------------------------
proof fn lemma_digits_value_mono(s: Seq<char>, k: int)
    requires
        0 <= k <= s.len(),
    ensures
        digits_value(s.take(k)) <= digits_value(s),
    decreases s.len() - k,
{
    if k < s.len() {
        lemma_digits_value_mono(s, k + 1);
        assert(s.take(k + 1).drop_last() =~= s.take(k));
    } else {
        assert(s.take(k) =~= s);
    }
}

fn all_digits_of(v: &[char]) -> (b: bool)
    ensures
        b == all_digits(v@),
{
    if v.len() == 0 {
        return false;
    }
    let mut i: usize = 0;
    while i < v.len()
        invariant
            i <= v@.len(),
            forall|k: int| 0 <= k < i ==> is_digit(#[trigger] v@[k]),
        decreases v@.len() - i,
    {
        if !('0' <= v[i] && v[i] <= '9') {
            return false;
        }
        i += 1;
    }
    true
}

/// The number spelled by the digits `v`, unless it is not all digits or exceeds `u64`.
fn parse_digits(v: &[char]) -> (r: Option<u64>)
    ensures
        r matches Some(x) ==> all_digits(v@) && x as nat == digits_value(v@),
        r is None ==> !(all_digits(v@) && digits_value(v@) <= u64::MAX),
{
    if !all_digits_of(v) {
        return None;
    }
    let mut acc: u64 = 0;
    let mut i: usize = 0;
    assert(v@.take(0) =~= Seq::<char>::empty());
    while i < v.len()
        invariant
            i <= v@.len(),
            all_digits(v@),
            acc as nat == digits_value(v@.take(i as int)),
        decreases v@.len() - i,
    {
        let c = v[i];
        assert(is_digit(v@[i as int]));
        let d: u64 = (c as u64) - ('0' as u64);
        assert(v@.take(i + 1 as int).drop_last() =~= v@.take(i as int));
        if acc > (u64::MAX - d) / 10 {
            proof {
                lemma_digits_value_mono(v@, i + 1);
                assert(digits_value(v@.take(i + 1 as int)) == acc * 10 + d);
                assert(acc * 10 + d > u64::MAX) by (nonlinear_arith)
                    requires
                        acc > (u64::MAX - d) / 10,
                        d < 10,
                ;
            }
            return None;
        }
        assert(acc * 10 + d <= u64::MAX) by (nonlinear_arith)
            requires
                acc <= (u64::MAX - d) / 10,
                d < 10,
        ;
        acc = acc * 10 + d;
        i += 1;
    }
    assert(v@.take(v@.len() as int) =~= v@);
    Some(acc)
}

proof fn lemma_find_sep(s: Seq<char>)
    ensures
        match find_sep(s) {
            Some(i) => 0 <= i < s.len() && (s[i] == '.' || s[i] == ',') && forall|k: int|
                0 <= k < i ==> s[k] != '.' && s[k] != ',',
            None => forall|k: int| 0 <= k < s.len() ==> s[k] != '.' && s[k] != ',',
        },
    decreases s.len(),
{
    if s.len() > 0 && s[0] != '.' && s[0] != ',' {
        lemma_find_sep(s.drop_first());
        assert forall|k: int| 0 < k < s.len() implies s[k] == s.drop_first()[k - 1] by {}
    }
}

fn position_of_sep(v: &[char]) -> (r: Option<usize>)
    ensures
        r matches Some(i) ==> find_sep(v@) == Some(i as int),
        r is None ==> find_sep(v@) is None,
{
    let mut i: usize = 0;
    while i < v.len()
        invariant
            i <= v@.len(),
            forall|k: int| 0 <= k < i ==> v@[k] != '.' && v@[k] != ',',
        decreases v@.len() - i,
    {
        if v[i] == '.' || v[i] == ',' {
            proof {
                lemma_find_sep(v@);
                match find_sep(v@) {
                    Some(j) => {
                        assert(!(j < i));
                        assert(!(i < j));
                    },
                    None => {},
                }
            }
            return Some(i);
        }
        i += 1;
    }
    proof {
        lemma_find_sep(v@);
        match find_sep(v@) {
            Some(j) => {
                assert(v@[j] != '.');
            },
            None => {},
        }
    }
    None
}

/// The milliseconds of a fraction field, if it is all digits.
fn frac_ms_of(f: &[char]) -> (r: Option<u64>)
    ensures
        r matches Some(x) ==> all_digits(f@) && x as nat == frac_ms(f@) && x < 1000,
        r is None ==> !all_digits(f@),
{
    if !all_digits_of(f) {
        return None;
    }
    let n = if f.len() >= 3 {
        3
    } else {
        f.len()
    };
    let head = subvec(f, 0, n);
    assert forall|k: int| 0 <= k < head@.len() implies is_digit(#[trigger] head@[k]) by {
        assert(head@[k] == f@[k]);
    }
    let v = match parse_digits(head.as_slice()) {
        Some(x) => x,
        None => {
            proof {
                lemma_digits_below(head@);
            }
            return None;
        },
    };
    proof {
        lemma_digits_below(head@);
        if f@.len() >= 3 {
            assert(head@ =~= f@.take(3));
        } else {
            assert(head@ =~= f@);
        }
    }
    if n == 3 {
        Some(v)
    } else if n == 2 {
        Some(v * 10)
    } else {
        Some(v * 100)
    }
}

/// A string of `n` decimal digits spells a number below `10^n` (here for `n` up to 3).
proof fn lemma_digits_below(s: Seq<char>)
    requires
        s.len() <= 3,
    ensures
        s.len() == 0 ==> digits_value(s) == 0,
        s.len() <= 1 ==> digits_value(s) < 10,
        s.len() <= 2 ==> digits_value(s) < 100,
        digits_value(s) < 1000,
    decreases s.len(),
{
    if s.len() > 0 {
        lemma_digits_below(s.drop_last());
    }
}

/// The time, in milliseconds, that an LRC time tag stands for.
fn timestamp_of(ts: &[char]) -> (r: Option<u64>)
    ensures
        r matches Some(t) ==> timestamp_ms(ts@) == Some(t as nat),
        r is None ==> timestamp_ms(ts@) is None,
{
    let n = ts.len();
    let i = match position_of(ts, ':') {
        Some(i) => i,
        None => return None,
    };
    proof {
        lemma_find_char(ts@, ':');
    }
    let mins = subvec(ts, 0, i);
    let rest = subvec(ts, i + 1, n);
    assert(mins@ =~= ts@.take(i as int));
    assert(rest@ =~= ts@.skip(i + 1 as int));
    if position_of(rest.as_slice(), ':').is_some() {
        return None;
    }
    let rn = rest.len();
    let (secs, frac) = match position_of_sep(rest.as_slice()) {
        Some(j) => {
            proof {
                lemma_find_sep(rest@);
            }
            let after = subvec(rest.as_slice(), j + 1, rn);
            assert(after@ =~= rest@.skip(j + 1 as int));
            let f = match position_of_sep(after.as_slice()) {
                Some(k) => {
                    proof {
                        lemma_find_sep(after@);
                    }
                    let f = subvec(after.as_slice(), 0, k);
                    assert(f@ =~= after@.take(k as int));
                    f
                },
                None => after,
            };
            let fm = match frac_ms_of(f.as_slice()) {
                Some(x) => x,
                None => return None,
            };
            let s = subvec(rest.as_slice(), 0, j);
            assert(s@ =~= rest@.take(j as int));
            (s, fm)
        },
        None => (rest, 0u64),
    };
    let m = match parse_digits(mins.as_slice()) {
        Some(m) => m,
        None => return None,
    };
    let s = match parse_digits(secs.as_slice()) {
        Some(s) => s,
        None => return None,
    };
    let t: u128 = m as u128 * 60000 + s as u128 * 1000 + frac as u128;
    if t > u64::MAX as u128 {
        return None;
    }
    Some(t as u64)
}

// ---------------------------------------------------------------------------------------------
// Lines, entries and their order
// ---------------------------------------------------------------------------------------------
pub open spec fn times_view(s: Seq<u64>) -> Seq<nat> {
    s.map_values(|t: u64| t as nat)
}

/// The time tags at the start of a line, and what follows them.
fn line_tags_of(l: &[char]) -> (r: (Vec<u64>, Vec<char>))
    ensures
        times_view(r.0@) == line_tags(l@).0,
        r.1@ == line_tags(l@).1,
{
    let n = l.len();
    let mut times: Vec<u64> = Vec::new();
    let mut k: usize = 0;
    assert(l@.skip(0) =~= l@);
    loop
        invariant
            k <= n == l@.len(),
            line_tags(l@).0 == times_view(times@) + line_tags(l@.skip(k as int)).0,
            line_tags(l@).1 == line_tags(l@.skip(k as int)).1,
        ensures
            k <= n,
            line_tags(l@).0 == times_view(times@),
            line_tags(l@).1 == l@.skip(k as int),
        decreases n - k,
    {
        if k >= n || l[k] != '[' {
            assert(times_view(times@) + Seq::<nat>::empty() =~= times_view(times@));
            break;
        }
        let rest = subvec(l, k, n);
        assert(rest@ =~= l@.skip(k as int));
        let c = match position_of(rest.as_slice(), ']') {
            Some(c) => c,
            None => {
                assert(times_view(times@) + Seq::<nat>::empty() =~= times_view(times@));
                break;
            },
        };
        proof {
            lemma_find_char(rest@, ']');
        }
        let ts = subvec(rest.as_slice(), 1, c);
        assert(rest@.skip(c + 1 as int) =~= l@.skip(k + c + 1 as int));
        let ghost before = times@;
        assert(ts@ =~= l@.skip(k as int).subrange(1, c as int));
        match timestamp_of(ts.as_slice()) {
            Some(t) => {
                times.push(t);
                assert(times_view(times@) =~= times_view(before).push(t as nat));
                assert(times_view(before).push(t as nat) + line_tags(l@.skip(k + c + 1 as int)).0
                    =~= times_view(before) + (seq![t as nat] + line_tags(
                    l@.skip(k + c + 1 as int),
                ).0));
            },
            None => {},
        }
        k = k + c + 1;
    }
    (times, subvec(l, k, n))
}

fn copy_line(l: &LrcLine) -> (r: LrcLine)
    ensures
        r@ == l@,
{
    LrcLine { time_ms: l.time_ms, text: l.text.clone() }
}

/// The timed entries of the lines `lines`.
fn timed_entries_of(lines: &Vec<Vec<char>>) -> (r: Vec<LrcLine>)
    ensures
        lines_view(r@) == timed_entries(vecs_view(lines@)),
{
    let mut entries: Vec<LrcLine> = Vec::new();
    let mut i: usize = 0;
    assert(vecs_view(lines@).take(0) =~= Seq::<Seq<char>>::empty());
    while i < lines.len()
        invariant
            i <= lines@.len(),
            lines_view(entries@) == timed_entries(vecs_view(lines@).take(i as int)),
        decreases lines@.len() - i,
    {
        let (times, rest) = line_tags_of(lines[i].as_slice());
        let text = string_of(trimmed(rest.as_slice()).as_slice());
        let ghost ls = vecs_view(lines@).take(i + 1 as int);
        let ghost base = lines_view(entries@);
        let ghost tags = line_tags(lines@[i as int]@);
        assert(ls.drop_last() =~= vecs_view(lines@).take(i as int));
        assert(ls.last() == lines@[i as int]@);
        assert(timed_entries(ls) == base + tags.0.map_values(|t: nat| (t, trim(tags.1))));
        let mut j: usize = 0;
        while j < times.len()
            invariant
                j <= times@.len(),
                times_view(times@) == tags.0,
                text@ == trim(tags.1),
                lines_view(entries@) == base + tags.0.take(j as int).map_values(
                    |t: nat| (t, trim(tags.1)),
                ),
            decreases times@.len() - j,
        {
            let ghost prev = lines_view(entries@);
            entries.push(LrcLine { time_ms: times[j], text: text.clone() });
            assert(tags.0[j as int] == times@[j as int] as nat);
            assert(lines_view(entries@) =~= prev.push((times@[j as int] as nat, text@)));
            assert(tags.0.take(j + 1 as int).map_values(|t: nat| (t, trim(tags.1))) =~= tags.0.take(
                j as int,
            ).map_values(|t: nat| (t, trim(tags.1))).push((tags.0[j as int], trim(tags.1))));
            j += 1;
        }
        assert(tags.0.take(times@.len() as int) =~= tags.0);
        i += 1;
    }
    assert(vecs_view(lines@).take(lines@.len() as int) =~= vecs_view(lines@));
    entries
}

/// Where `insert_by_time` puts `x` into `s`.
pub open spec fn insert_pos(s: Seq<(nat, Seq<char>)>, x: (nat, Seq<char>)) -> nat
    decreases s.len(),
{
    if s.len() == 0 || s.last().0 <= x.0 {
        s.len()
    } else {
        insert_pos(s.drop_last(), x)
    }
}

proof fn lemma_insert_pos(s: Seq<(nat, Seq<char>)>, x: (nat, Seq<char>))
    ensures
        insert_pos(s, x) <= s.len(),
        insert_by_time(s, x) == s.insert(insert_pos(s, x) as int, x),
        forall|k: int| insert_pos(s, x) <= k < s.len() ==> s[k].0 > x.0,
        insert_pos(s, x) > 0 ==> s[insert_pos(s, x) - 1].0 <= x.0,
    decreases s.len(),
{
    if s.len() == 0 || s.last().0 <= x.0 {
        assert(s.insert(s.len() as int, x) =~= s.push(x));
    } else {
        lemma_insert_pos(s.drop_last(), x);
        let p = insert_pos(s, x);
        assert(insert_by_time(s, x) =~= s.insert(p as int, x));
        assert forall|k: int| p <= k < s.len() implies s[k].0 > x.0 by {
            if k < s.len() - 1 {
                assert(s.drop_last()[k] == s[k]);
            }
        }
        if p > 0 {
            assert(s.drop_last()[p - 1] == s[p - 1]);
        }
    }
}

proof fn lemma_insert_sorted(s: Seq<(nat, Seq<char>)>, x: (nat, Seq<char>))
    requires
        time_sorted(s),
    ensures
        time_sorted(insert_by_time(s, x)),
        insert_by_time(s, x).len() == s.len() + 1,
{
    lemma_insert_pos(s, x);
    let p = insert_pos(s, x) as int;
    let r = insert_by_time(s, x);
    assert forall|i: int, j: int| 0 <= i <= j < r.len() implies r[i].0 <= r[j].0 by {
        if i < p && j > p {
            assert(s[i].0 <= s[p - 1].0);
        } else if i < p && j == p {
            assert(s[i].0 <= s[p - 1].0);
        } else if i == p && j > p {
            assert(s[j - 1].0 > x.0);
        }
    }
}

proof fn lemma_sort_by_time(s: Seq<(nat, Seq<char>)>)
    ensures
        time_sorted(sort_by_time(s)),
        sort_by_time(s).len() == s.len(),
    decreases s.len(),
{
    if s.len() > 0 {
        lemma_sort_by_time(s.drop_last());
        lemma_insert_sorted(sort_by_time(s.drop_last()), s.last());
    }
}

/// Inserts `x` after the last line of `sorted` whose time is at most `x`'s.
fn insert_line(sorted: &mut Vec<LrcLine>, x: LrcLine)
    ensures
        lines_view(final(sorted)@) == insert_by_time(lines_view(old(sorted)@), x@),
{
    let ghost s = lines_view(sorted@);
    let mut p: usize = sorted.len();
    assert(s.take(p as int) =~= s);
    while p > 0 && sorted[p - 1].time_ms > x.time_ms
        invariant
            p <= sorted@.len(),
            s == lines_view(sorted@),
            insert_pos(s, x@) == insert_pos(s.take(p as int), x@),
        decreases p,
    {
        assert(s.take(p as int).drop_last() =~= s.take(p - 1 as int));
        p -= 1;
    }
    proof {
        lemma_insert_pos(s, x@);
        assert(s.take(p as int).len() == p);
    }
    let ghost xv = x@;
    sorted.insert(p, x);
    assert(lines_view(sorted@) =~= s.insert(p as int, xv));
}

/// `v` sorted by time, lines of equal time kept in order.
fn sorted_by_time(v: &Vec<LrcLine>) -> (r: Vec<LrcLine>)
    ensures
        lines_view(r@) == sort_by_time(lines_view(v@)),
{
    let mut sorted: Vec<LrcLine> = Vec::new();
    let mut i: usize = 0;
    assert(lines_view(v@).take(0) =~= Seq::<(nat, Seq<char>)>::empty());
    while i < v.len()
        invariant
            i <= v@.len(),
            lines_view(sorted@) == sort_by_time(lines_view(v@).take(i as int)),
        decreases v@.len() - i,
    {
        let x = copy_line(&v[i]);
        insert_line(&mut sorted, x);
        assert(lines_view(v@).take(i + 1 as int).drop_last() =~= lines_view(v@).take(i as int));
        i += 1;
    }
    assert(lines_view(v@).take(v@.len() as int) =~= lines_view(v@));
    sorted
}

impl LrcFile {
    /// Parses lyrics: `[mm:ss.xx]`-tagged lines become one line per tag, sorted by time
    /// (synced lyrics); a text without any time tag becomes its non-blank lines, shown three
    /// seconds apart (plain lyrics). Tags that are not time tags are skipped.
    pub fn parse(content: &str) -> (f: LrcFile)
        requires
            content@.len() < 0x10_0000_0000_0000,
        ensures
            f@ == lrc_model(content@),
    {
        let chars = chars_of(content);
        let lines = lyric_lines_of(chars.as_slice());
        let entries = timed_entries_of(&lines);
        if entries.len() > 0 {
            let sorted = sorted_by_time(&entries);
            LrcFile { lines: sorted, is_synced: true }
        } else {
            let ghost ls = vecs_view(lines@);
            proof {
                lemma_lyric_lines_len(content@);
            }
            let mut out: Vec<LrcLine> = Vec::new();
            let mut i: usize = 0;
            while i < lines.len()
                invariant
                    i <= lines@.len(),
                    ls == vecs_view(lines@),
                    ls.len() <= content@.len() + 1,
                    content@.len() < 0x10_0000_0000_0000,
                    lines_view(out@) =~= unsynced_entries(ls).take(i as int),
                decreases lines@.len() - i,
            {
                let text = string_of(lines[i].as_slice());
                let ghost prev = lines_view(out@);
                out.push(LrcLine { time_ms: i as u64 * 3000, text });
                assert(lines_view(out@) =~= prev.push(((3000 * i) as nat, ls[i as int])));
                assert(unsynced_entries(ls).take(i + 1 as int) =~= unsynced_entries(ls).take(
                    i as int,
                ).push(((3000 * i) as nat, ls[i as int])));
                i += 1;
            }
            LrcFile { lines: out, is_synced: false }
        }
    }

    /// The index of the line being sung at `pos_ms` milliseconds: the last of the leading
    /// lines whose time has come, or `None` when there are no lines or the first one is
    /// still ahead.
    pub fn current_line_index(&self, pos_ms: u64) -> (r: Option<usize>)
        ensures
            r == (if reached(self@.0, pos_ms as nat) == 0 {
                None::<usize>
            } else {
                Some((reached(self@.0, pos_ms as nat) - 1) as usize)
            }),
    {
        let ghost s = self@.0;
        let mut i: usize = 0;
        assert(s.skip(0) =~= s);
        while i < self.lines.len() && self.lines[i].time_ms <= pos_ms
            invariant
                i <= self.lines@.len(),
                s == lines_view(self.lines@),
                reached(s, pos_ms as nat) == i + reached(s.skip(i as int), pos_ms as nat),
            decreases self.lines@.len() - i,
        {
            assert(s.skip(i as int).drop_first() =~= s.skip(i + 1 as int));
            i += 1;
        }
        if i == 0 {
            None
        } else {
            Some(i - 1)
        }
    }
}

proof fn lemma_nonblank_len(ls: Seq<Seq<char>>)
    ensures
        nonblank(ls).len() <= ls.len(),
    decreases ls.len(),
{
    if ls.len() > 0 {
        lemma_nonblank_len(ls.drop_last());
    }
}

proof fn lemma_split_lines_len(s: Seq<char>)
    ensures
        split_lines(s).len() <= s.len() + 1,
    decreases s.len(),
{
    if s.len() > 0 {
        lemma_split_lines_len(s.drop_last());
        let r = split_lines(s.drop_last());
        lemma_split_lines_nonempty(s.drop_last());
        assert(r.len() <= s.len());
        if s.last() == '\n' {
            assert(split_lines(s).len() == r.len() + 1);
        } else {
            assert(split_lines(s).len() == r.len());
        }
    }
}

proof fn lemma_lyric_lines_len(s: Seq<char>)
    ensures
        lyric_lines(s).len() <= s.len() + 1,
{
    lemma_split_lines_len(s);
    lemma_nonblank_len(split_lines(s));
}

/// Lyrics found in a text (an embedded tag or a `.lrc` file): the parsed lyrics, when the
/// text is not blank and yields at least one line.
pub open spec fn lyrics_in(text: Seq<char>) -> Option<(Seq<(nat, Seq<char>)>, bool)> {
    if trim(text).len() > 0 && lrc_model(text).0.len() > 0 {
        Some(lrc_model(text))
    } else {
        None
    }
}

/// Parses lyrics found in a text, unless the text is blank or yields no line.
pub fn lyrics_from_text(text: &str) -> (r: Option<LrcFile>)
    requires
        text@.len() < 0x10_0000_0000_0000,
    ensures
        r matches Some(f) ==> lyrics_in(text@) == Some(f@),
        r is None ==> lyrics_in(text@) is None,
{
    let v = chars_of(text);
    let t = trimmed(v.as_slice());
    if t.len() == 0 {
        return None;
    }
    let parsed = LrcFile::parse(text);
    if parsed.lines.len() == 0 {
        return None;
    }
    Some(parsed)
}

/// The lyrics of the first candidate text (in order of preference) that holds any, each
/// candidate being a text found for the track or nothing.
pub open spec fn first_lyrics_in(cs: Seq<Option<Seq<char>>>) -> Option<
    (Seq<(nat, Seq<char>)>, bool),
>
    decreases cs.len(),
{
    if cs.len() == 0 {
        None
    } else {
        match cs[0] {
            Some(t) => match lyrics_in(t) {
                Some(f) => Some(f),
                None => first_lyrics_in(cs.drop_first()),
            },
            None => first_lyrics_in(cs.drop_first()),
        }
    }
}

pub open spec fn candidates_view(cs: Seq<Option<String>>) -> Seq<Option<Seq<char>>> {
    cs.map_values(
        |c: Option<String>|
            match c {
                Some(s) => Some(s@),
                None => None,
            },
    )
}

/// Picks a track's lyrics among the texts found for it, tried in order (the embedded tags
/// before a `.lrc` file): the first that is not blank and yields a line.
pub fn first_lyrics(candidates: &Vec<Option<String>>) -> (r: Option<LrcFile>)
    requires
        forall|k: int|
            0 <= k < candidates@.len() ==> ((#[trigger] candidates@[k]) matches Some(t) ==> t@.len()
                < 0x10_0000_0000_0000),
    ensures
        r matches Some(f) ==> first_lyrics_in(candidates_view(candidates@)) == Some(f@),
        r is None ==> first_lyrics_in(candidates_view(candidates@)) is None,
{
    let ghost cv = candidates_view(candidates@);
    let mut i: usize = 0;
    assert(cv.skip(0) =~= cv);
    while i < candidates.len()
        invariant
            i <= candidates@.len(),
            cv == candidates_view(candidates@),
            first_lyrics_in(cv) == first_lyrics_in(cv.skip(i as int)),
            forall|k: int|
                0 <= k < candidates@.len() ==> ((#[trigger] candidates@[k]) matches Some(t)
                    ==> t@.len() < 0x10_0000_0000_0000),
        decreases candidates@.len() - i,
    {
        assert(cv.skip(i as int)[0] == cv[i as int]);
        assert(cv.skip(i as int).drop_first() =~= cv.skip(i + 1 as int));
        match &candidates[i] {
            Some(t) => {
                match lyrics_from_text(t.as_str()) {
                    Some(f) => {
                        return Some(f);
                    },
                    None => {},
                }
            },
            None => {},
        }
        i += 1;
    }
    assert(cv.skip(i as int) =~= Seq::<Option<Seq<char>>>::empty());
    None
}

/// A tag item key (as its debug name) that may hold lyrics: its lower-cased name mentions
/// lyrics, `uslt` or `sylt` (the ID3 unsynchronised and synchronised lyrics frames).
pub open spec fn lyrics_key(name: Seq<char>) -> bool {
    ||| contains_text(unicode_lowercase(name), "lyric"@)
    ||| contains_text(unicode_lowercase(name), "uslt"@)
    ||| contains_text(unicode_lowercase(name), "sylt"@)
}

/// Whether a tag item key, given by its debug name, may hold lyrics.
pub fn is_lyrics_key(name: &str) -> (b: bool)
    ensures
        b == lyrics_key(name@),
{
    let l = chars_of(to_lowercase(name).as_str());
    let a = chars_of("lyric");
    let b = chars_of("uslt");
    let c = chars_of("sylt");
    contains(l.as_slice(), a.as_slice()) || contains(l.as_slice(), b.as_slice()) || contains(
        l.as_slice(),
        c.as_slice(),
    )
}

// ---------------------------------------------------------------------------------------------
// Laws
// ---------------------------------------------------------------------------------------------
/// Synced lyrics come out ordered by time, one line per time tag.
pub proof fn law_synced_lines_sorted(content: Seq<char>)
    requires
        lrc_model(content).1,
    ensures
        time_sorted(lrc_model(content).0),
        lrc_model(content).0.len() == timed_entries(lyric_lines(content)).len(),
{
    lemma_sort_by_time(timed_entries(lyric_lines(content)));
}

/// The number of time tags on the lines `lines`, counted line by line.
pub open spec fn tag_count(lines: Seq<Seq<char>>) -> nat
    decreases lines.len(),
{
    if lines.len() == 0 {
        0
    } else {
        tag_count(lines.drop_last()) + line_tags(lines.last()).0.len()
    }
}

proof fn lemma_sort_by_time_multiset(s: Seq<(nat, Seq<char>)>)
    ensures
        sort_by_time(s).to_multiset() == s.to_multiset(),
    decreases s.len(),
{
    if s.len() > 0 {
        let r = sort_by_time(s.drop_last());
        lemma_sort_by_time_multiset(s.drop_last());
        lemma_insert_pos(r, s.last());
        vstd::seq_lib::to_multiset_insert(r, insert_pos(r, s.last()) as int, s.last());
        vstd::seq_lib::to_multiset_build(s.drop_last(), s.last());
        assert(s.drop_last().push(s.last()) =~= s);
    }
}

proof fn lemma_timed_entries_tags(lines: Seq<Seq<char>>)
    ensures
        timed_entries(lines).len() == tag_count(lines),
        forall|k: int, j: int|
            0 <= k < lines.len() && 0 <= j < line_tags(lines[k]).0.len() ==> timed_entries(
                lines,
            ).contains((#[trigger] line_tags(lines[k]).0[j], trim(line_tags(lines[k]).1))),
    decreases lines.len(),
{
    if lines.len() > 0 {
        let rest = lines.drop_last();
        lemma_timed_entries_tags(rest);
        let tags = line_tags(lines.last());
        let text = trim(tags.1);
        let tail = tags.0.map_values(|t: nat| (t, text));
        let all = timed_entries(lines);
        assert(all == timed_entries(rest) + tail);
        assert forall|k: int, j: int|
            0 <= k < lines.len() && 0 <= j < line_tags(lines[k]).0.len() implies all.contains(
            (#[trigger] line_tags(lines[k]).0[j], trim(line_tags(lines[k]).1)),
        ) by {
            if k < lines.len() - 1 {
                assert(rest[k] == lines[k]);
                let e = (line_tags(rest[k]).0[j], trim(line_tags(rest[k]).1));
                assert(timed_entries(rest).contains(e));
                let i = choose|i: int| 0 <= i < timed_entries(rest).len() && timed_entries(rest)[i] == e;
                assert(all[i] == e);
            } else {
                assert(all[timed_entries(rest).len() + j] == tail[j]);
            }
        }
    }
}

/// Parsing keeps every time tag: a text is synced exactly when its lines carry a time tag;
/// then it gives one line per time tag of its non-blank lines (as many lines as there are
/// tags), each tag with the text that follows the tags on its line, trimmed, and empty when
/// nothing follows them.
pub proof fn law_synced_keeps_every_tag(content: Seq<char>)
    ensures
        lrc_model(content).1 <==> tag_count(lyric_lines(content)) > 0,
        lrc_model(content).1 ==> lrc_model(content).0.len() == tag_count(lyric_lines(content)),
        lrc_model(content).1 ==> forall|k: int, j: int|
            0 <= k < lyric_lines(content).len() && 0 <= j < line_tags(lyric_lines(content)[k]).0.len()
                ==> lrc_model(content).0.contains(
                (
                    #[trigger] line_tags(lyric_lines(content)[k]).0[j],
                    trim(line_tags(lyric_lines(content)[k]).1),
                ),
            ),
{
    let lines = lyric_lines(content);
    let es = timed_entries(lines);
    lemma_timed_entries_tags(lines);
    if lrc_model(content).1 {
        lemma_sort_by_time(es);
        lemma_sort_by_time_multiset(es);
        let r = sort_by_time(es);
        assert forall|k: int, j: int|
            0 <= k < lines.len() && 0 <= j < line_tags(lines[k]).0.len() implies r.contains(
            (#[trigger] line_tags(lines[k]).0[j], trim(line_tags(lines[k]).1)),
        ) by {
            let e = (line_tags(lines[k]).0[j], trim(line_tags(lines[k]).1));
            assert(es.contains(e));
            vstd::seq_lib::to_multiset_contains(es, e);
            vstd::seq_lib::to_multiset_contains(r, e);
        }
    }
}

/// Plain lyrics keep every non-blank line, trimmed and in order, line `i` from second `3 * i`.
pub proof fn law_plain_lines_three_seconds_apart(content: Seq<char>)
    requires
        !lrc_model(content).1,
    ensures
        lrc_model(content).0.len() == lyric_lines(content).len(),
        forall|i: int|
            0 <= i < lrc_model(content).0.len() ==> #[trigger] lrc_model(content).0[i] == (
            (3000 * i) as nat,
            lyric_lines(content)[i],
        ),
{
}

proof fn lemma_reached(s: Seq<(nat, Seq<char>)>, pos: nat)
    ensures
        reached(s, pos) <= s.len(),
        forall|j: int| 0 <= j < reached(s, pos) ==> s[j].0 <= pos,
        reached(s, pos) < s.len() ==> s[reached(s, pos) as int].0 > pos,
    decreases s.len(),
{
    if s.len() > 0 && s[0].0 <= pos {
        lemma_reached(s.drop_first(), pos);
        assert forall|j: int| 0 <= j < reached(s, pos) implies s[j].0 <= pos by {
            if j > 0 {
                assert(s[j] == s.drop_first()[j - 1]);
            }
        }
        if reached(s, pos) < s.len() {
            assert(s[reached(s, pos) as int] == s.drop_first()[reached(s, pos) - 1]);
        }
    }
}

/// On lines ordered by time, the lines up to the reported current line are exactly those
/// whose time is at most the position: the current line is the last one that has begun.
pub proof fn law_current_line_is_last_begun(s: Seq<(nat, Seq<char>)>, pos: nat)
    requires
        time_sorted(s),
    ensures
        forall|j: int| 0 <= j < s.len() ==> (j < reached(s, pos) <==> s[j].0 <= pos),
{
    lemma_reached(s, pos);
    assert forall|j: int| 0 <= j < s.len() implies (j < reached(s, pos) <==> s[j].0 <= pos) by {
        if j >= reached(s, pos) {
            assert(s[reached(s, pos) as int].0 <= s[j].0);
        }
    }
}

} // verus!
