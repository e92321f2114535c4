use vstd::prelude::*;

use crate::chars::{
    ascii_lower, chars_of, push_str, string_eq, to_lowercase, unicode_lowercase,
};
use crate::utils::lrc::{all_digits, digits_value};

verus! {

// ---------------------------------------------------------------------------------------------
// File extensions
// ---------------------------------------------------------------------------------------------
/// The extension that `std::path::Path::extension` finds in the path `p`.
pub uninterp spec fn path_extension(p: Seq<char>) -> Option<Seq<char>>;

/// Calls `Path::new(p).extension()` and takes the extension as text (it is a piece of `p`,
/// so it is valid UTF-8). Its documentation gives the extension as the part of the file
/// name after its last `.`, with none for a name without a `.` or with only a leading one;
/// which part of `p` the file name is follows `Path`'s component rules, left to the name
/// `path_extension`.
#[verifier::external_body]
pub(crate) fn extension_of(p: &str) -> (r: Option<String>)
    ensures
        r matches Some(e) ==> path_extension(p@) == Some(e@),
        r is None ==> path_extension(p@) is None,
{
    std::path::Path::new(p).extension().and_then(|e| e.to_str()).map(|e| e.to_owned())
}

/// The (lower-case) extensions of the audio files that the library takes in.
pub open spec fn supported_extension(e: Seq<char>) -> bool {
    ||| e == "mp3"@
    ||| e == "flac"@
    ||| e == "wav"@
    ||| e == "ogg"@
    ||| e == "m4a"@
    ||| e == "aac"@
    ||| e == "opus"@
    ||| e == "dsf"@
    ||| e == "aiff"@
    ||| e == "alac"@
}

/// The path names an audio file of a supported kind: its extension, lower-cased, is one of
/// the supported ones.
pub open spec fn supported_path(p: Seq<char>) -> bool {
    match path_extension(p) {
        Some(e) => supported_extension(unicode_lowercase(e)),
        None => false,
    }
}

/// Whether `path` names an audio file that the library takes in (by its extension,
/// whatever its case).
pub fn is_supported(path: &str) -> (b: bool)
    ensures
        b == supported_path(path@),
{
    match extension_of(path) {
        Some(e) => {
            let l = to_lowercase(e.as_str());
            string_eq(&l, "mp3") || string_eq(&l, "flac") || string_eq(&l, "wav") || string_eq(
                &l,
                "ogg",
            ) || string_eq(&l, "m4a") || string_eq(&l, "aac") || string_eq(&l, "opus")
                || string_eq(&l, "dsf") || string_eq(&l, "aiff") || string_eq(&l, "alac")
        },
        None => false,
    }
}

/// The path names a DSD stream file: its extension is `dsf` in any ASCII case.
pub open spec fn dsf_path(p: Seq<char>) -> bool {
    match path_extension(p) {
        Some(e) => ascii_lower(e) == "dsf"@,
        None => false,
    }
}

fn ascii_lower_char_exec(c: char) -> (r: char)
    ensures
        r == crate::chars::ascii_lower_char(c),
{
    if 'A' <= c && c <= 'Z' {
        ((c as u8) + 32) as char
    } else {
        c
    }
}

/// Whether `path` names a DSD stream file (which is decoded through a converter).
pub fn is_dsf(path: &str) -> (b: bool)
    ensures
        b == dsf_path(path@),
{
    match extension_of(path) {
        Some(e) => {
            let v = chars_of(e.as_str());
            proof {
                reveal_strlit("dsf");
            }
            if v.len() != 3 {
                assert(ascii_lower(v@).len() != "dsf"@.len());
                return false;
            }
            let a = ascii_lower_char_exec(v[0]);
            let b = ascii_lower_char_exec(v[1]);
            let c = ascii_lower_char_exec(v[2]);
            let r = a == 'd' && b == 's' && c == 'f';
            if r {
                assert(ascii_lower(v@) =~= "dsf"@);
            } else {
                assert(ascii_lower(v@)[0] == a && ascii_lower(v@)[1] == b && ascii_lower(v@)[2]
                    == c);
            }
            r
        },
        None => false,
    }
}

// ---------------------------------------------------------------------------------------------
// Codec names
// ---------------------------------------------------------------------------------------------
/// The container kinds that the tag reader tells apart.
pub enum AudioFormat {
    Aac,
    Aiff,
    Ape,
    Flac,
    Mpeg,
    Mp4,
    Mpc,
    Opus,
    Vorbis,
    Speex,
    Wav,
    WavPack,
    Custom(String),
}

/// What the `Debug` formatting of a `str` writes for `s`: the text in double quotes, with the
/// characters that `char::escape_debug` escapes written as escapes.
pub uninterp spec fn debug_quoted(s: Seq<char>) -> Seq<char>;

/// Formats `s` with `{:?}` (the `Debug` formatting of `str`). What it escapes is left to the
/// name `debug_quoted`.
#[verifier::external_body]
fn debug_text(s: &str) -> (r: String)
    ensures
        r@ == debug_quoted(s@),
{
    format!("{s:?}")
}

/// The codec name shown for a container kind; kinds without a name of their own are shown
/// by their variant name, as the `Debug` formatting of the kind writes it.
pub open spec fn codec_label(f: AudioFormat) -> Seq<char> {
    match f {
        AudioFormat::Flac => "FLAC"@,
        AudioFormat::Mpeg => "MP3"@,
        AudioFormat::Wav => "WAV"@,
        AudioFormat::Vorbis => "OGG Vorbis"@,
        AudioFormat::Opus => "Opus"@,
        AudioFormat::Aiff => "AIFF"@,
        AudioFormat::Aac => "AAC"@,
        AudioFormat::Mp4 => "AAC (M4A)"@,
        AudioFormat::Ape => "Ape"@,
        AudioFormat::Mpc => "Mpc"@,
        AudioFormat::Speex => "Speex"@,
        AudioFormat::WavPack => "WavPack"@,
        AudioFormat::Custom(n) => "Custom("@ + debug_quoted(n@) + ")"@,
    }
}

/// The codec name shown for a container kind.
pub fn format_codec(ft: &AudioFormat) -> (r: String)
    ensures
        r@ == codec_label(*ft),
{
    let mut out = String::new();
    match ft {
        AudioFormat::Flac => push_str(&mut out, "FLAC"),
        AudioFormat::Mpeg => push_str(&mut out, "MP3"),
        AudioFormat::Wav => push_str(&mut out, "WAV"),
        AudioFormat::Vorbis => push_str(&mut out, "OGG Vorbis"),
        AudioFormat::Opus => push_str(&mut out, "Opus"),
        AudioFormat::Aiff => push_str(&mut out, "AIFF"),
        AudioFormat::Aac => push_str(&mut out, "AAC"),
        AudioFormat::Mp4 => push_str(&mut out, "AAC (M4A)"),
        AudioFormat::Ape => push_str(&mut out, "Ape"),
        AudioFormat::Mpc => push_str(&mut out, "Mpc"),
        AudioFormat::Speex => push_str(&mut out, "Speex"),
        AudioFormat::WavPack => push_str(&mut out, "WavPack"),
        AudioFormat::Custom(n) => {
            push_str(&mut out, "Custom(");
            let quoted = debug_text(n.as_str());
            push_str(&mut out, quoted.as_str());
            push_str(&mut out, ")");
        },
    }
    assert(out@ =~= codec_label(*ft));
    out
}

/// What `str::to_uppercase` makes of `s` (Unicode's upper-case mapping).
pub uninterp spec fn unicode_uppercase(s: Seq<char>) -> Seq<char>;

/// Calls `str::to_uppercase`, whose result its documentation defines by Unicode's upper-case
/// mapping; that mapping is left to the name `unicode_uppercase`.
#[verifier::external_body]
fn to_uppercase(s: &str) -> (r: String)
    ensures
        r@ == unicode_uppercase(s@),
{
    s.to_uppercase()
}

/// The codec name shown for a stream that the external prober describes: DSD for its four
/// DSD codec names, else its codec name upper-cased (`"unknown"` when it gives none).
pub open spec fn probe_codec_label(name: Option<Seq<char>>) -> Seq<char> {
    let n = match name {
        Some(n) => n,
        None => "unknown"@,
    };
    if n == "dsd_lsbf_planar"@ || n == "dsd_lsbf"@ || n == "dsd_msbf_planar"@ || n == "dsd_msbf"@ {
        "DSD"@
    } else {
        unicode_uppercase(n)
    }
}

pub open spec fn opt_str_view(o: Option<&str>) -> Option<Seq<char>> {
    match o {
        Some(s) => Some(s@),
        None => None,
    }
}

/// The codec name shown for a stream that the external prober describes.
pub fn probe_codec(codec_name: Option<&str>) -> (r: String)
    ensures
        r@ == probe_codec_label(opt_str_view(codec_name)),
{
    let n = match codec_name {
        Some(n) => n,
        None => "unknown",
    };
    let ns = n.to_owned();
    if string_eq(&ns, "dsd_lsbf_planar") || string_eq(&ns, "dsd_lsbf") || string_eq(
        &ns,
        "dsd_msbf_planar",
    ) || string_eq(&ns, "dsd_msbf") {
        let mut out = String::new();
        push_str(&mut out, "DSD");
        assert(out@ =~= "DSD"@);
        out
    } else {
        to_uppercase(n)
    }
}

// ---------------------------------------------------------------------------------------------
// Numbers in the prober's text fields
// ---------------------------------------------------------------------------------------------
/// The value that `u32::from_str` reads from `s`: an optional `+` and decimal digits, within
/// `u32`.
pub open spec fn u32_text(s: Seq<char>) -> Option<nat> {
    let d = if s.len() > 0 && s[0] == '+' {
        s.drop_first()
    } else {
        s
    };
    if all_digits(d) && digits_value(d) <= u32::MAX {
        Some(digits_value(d))
    } else {
        None
    }
}

/// The value that `i32::from_str` reads from `s`: an optional sign and decimal digits,
/// within `i32`.
pub open spec fn i32_text(s: Seq<char>) -> Option<int> {
    let neg = s.len() > 0 && s[0] == '-';
    let d = if s.len() > 0 && (s[0] == '+' || s[0] == '-') {
        s.drop_first()
    } else {
        s
    };
    if !all_digits(d) {
        None
    } else {
        let v: int = if neg {
            -digits_value(d)
        } else {
            digits_value(d) as int
        };
        if i32::MIN <= v <= i32::MAX {
            Some(v)
        } else {
            None
        }
    }
}

/// The digits of `v` from `start` on, as a number, unless it passes `limit` or `v` holds
/// anything but digits there (or nothing).
fn digits_upto(v: &[char], start: usize, limit: u64) -> (r: Option<u64>)
    requires
        start <= v@.len(),
        limit <= u64::MAX / 10 - 10,
    ensures
        r matches Some(x) ==> all_digits(v@.skip(start as int)) && x as nat == digits_value(
            v@.skip(start as int),
        ) && x <= limit,
        r is None ==> !(all_digits(v@.skip(start as int)) && digits_value(v@.skip(start as int))
            <= limit),
{
    let ghost d = v@.skip(start as int);
    if start == v.len() {
        return None;
    }
    let mut acc: u64 = 0;
    let mut i: usize = start;
    assert(d.take(0) =~= Seq::<char>::empty());
    while i < v.len()
        invariant
            start <= i <= v@.len(),
            d == v@.skip(start as int),
            acc <= limit,
            limit <= u64::MAX / 10 - 10,
            forall|k: int| 0 <= k < i - start ==> crate::utils::lrc::is_digit(#[trigger] d[k]),
            acc as nat == digits_value(d.take(i - start)),
        decreases v@.len() - i,
    {
        let c = v[i];
        assert(d[i - start] == c);
        if !('0' <= c && c <= '9') {
            assert(!crate::utils::lrc::is_digit(d[i - start]));
            return None;
        }
        assert(d.take(i - start + 1).drop_last() =~= d.take(i - start));
        let next = acc * 10 + ((c as u64) - ('0' as u64));
        if next > limit {
            proof {
                lemma_digits_mono(d, i - start + 1);
            }
            return None;
        }
        acc = next;
        i += 1;
    }
    assert(d.take(i - start) =~= d);
    Some(acc)
}

proof fn lemma_digits_mono(s: Seq<char>, k: int)
    requires
        0 <= k <= s.len(),
    ensures
        digits_value(s.take(k)) <= digits_value(s),
    decreases s.len() - k,
{
    if k < s.len() {
        lemma_digits_mono(s, k + 1);
        assert(s.take(k + 1).drop_last() =~= s.take(k));
    } else {
        assert(s.take(k) =~= s);
    }
}

/// The number that `s` holds as `u32::from_str` reads it, or 0 where it reads none.
pub fn parse_u32_or_zero(s: &str) -> (r: u32)
    ensures
        r == match u32_text(s@) {
            Some(x) => x,
            None => 0,
        },
{
    let v = chars_of(s);
    let start: usize = if v.len() > 0 && v[0] == '+' {
        1
    } else {
        0
    };
    assert(start == 1 ==> v@.skip(1) =~= v@.drop_first());
    assert(v@.skip(0) =~= v@);
    match digits_upto(v.as_slice(), start, u32::MAX as u64) {
        Some(x) => x as u32,
        None => 0,
    }
}

/// The number that `s` holds as `i32::from_str` reads it, or 0 where it reads none.
pub fn parse_i32_or_zero(s: &str) -> (r: i32)
    ensures
        r == match i32_text(s@) {
            Some(x) => x,
            None => 0,
        },
{
    let v = chars_of(s);
    let neg = v.len() > 0 && v[0] == '-';
    let start: usize = if v.len() > 0 && (v[0] == '+' || v[0] == '-') {
        1
    } else {
        0
    };
    assert(start == 1 ==> v@.skip(1) =~= v@.drop_first());
    assert(v@.skip(0) =~= v@);
    let limit: u64 = if neg {
        0x8000_0000
    } else {
        0x7fff_ffff
    };
    match digits_upto(v.as_slice(), start, limit) {
        Some(x) => {
            if neg {
                if x == 0x8000_0000 {
                    i32::MIN
                } else {
                    -(x as i32)
                }
            } else {
                x as i32
            }
        },
        None => 0,
    }
}

/// The extensions of the documented formats.
pub open spec fn documented_extension(e: Seq<char>) -> bool {
    e == "mp3"@ || e == "flac"@ || e == "wav"@ || e == "ogg"@ || e == "m4a"@ || e == "aac"@
        || e == "opus"@ || e == "dsf"@ || e == "aiff"@ || e == "alac"@
}

/// A path is taken in by the scan exactly when its extension, lower-cased, is one of the
/// documented formats' extensions: mp3, flac, wav, ogg, m4a, aac, opus, dsf, aiff and alac.
pub proof fn law_documented_formats_supported(p: Seq<char>)
    ensures
        supported_path(p) <==> (path_extension(p) matches Some(e) && documented_extension(
            unicode_lowercase(e),
        )),
{
}

} // verus!
