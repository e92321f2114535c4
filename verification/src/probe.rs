use vstd::prelude::*;

use crate::chars::push_str;
use crate::metadata::{
    i32_text, parse_i32_or_zero, parse_u32_or_zero, probe_codec, probe_codec_label, u32_text,
};

verus! {

// ---------------------------------------------------------------------------------------------
// Reading the JSON that the external prober (ffprobe) prints
// ---------------------------------------------------------------------------------------------
/// What `serde_json` reads from the bytes `json` at the JSON Pointer `pointer`: `None` when
/// the bytes are not a JSON document, `Some(None)` when nothing or no string stands at the
/// pointer, `Some(Some(text))` when the string `text` does.
pub uninterp spec fn probe_json_text(json: Seq<u8>, pointer: Seq<char>) -> Option<
    Option<Seq<char>>,
>;

/// Calls `serde_json::from_slice` into a `serde_json::Value`, then `Value::pointer` and
/// `Value::as_str`, and copies the string. The contract only ties the result to the name
/// `probe_json_text`: what JSON the bytes hold and what stands at the pointer is left to it.
#[verifier::external_body]
fn probe_text(json: &[u8], pointer: &str) -> (r: Option<Option<String>>)
    ensures
        r is None <==> probe_json_text(json@, pointer@) is None,
        r matches Some(Some(s)) ==> probe_json_text(json@, pointer@) == Some(Some(s@)),
        r matches Some(None) ==> probe_json_text(json@, pointer@) == Some(None::<Seq<char>>),
{
    match serde_json::from_slice::<serde_json::Value>(json) {
        Ok(v) => Some(v.pointer(pointer).and_then(|x| x.as_str()).map(|s| s.to_owned())),
        Err(_) => None,
    }
}

/// Whether the bytes `json` are a JSON document in which an array stands at `pointer`.
pub uninterp spec fn probe_json_array(json: Seq<u8>, pointer: Seq<char>) -> bool;

/// Calls `serde_json::from_slice` into a `serde_json::Value`, then `Value::pointer` and
/// `Value::is_array`. The contract only ties the result to the name `probe_json_array`.
#[verifier::external_body]
fn probe_is_array(json: &[u8], pointer: &str) -> (r: bool)
    ensures
        r == probe_json_array(json@, pointer@),
{
    match serde_json::from_slice::<serde_json::Value>(json) {
        Ok(v) => v.pointer(pointer).is_some_and(|x| x.is_array()),
        Err(_) => false,
    }
}

/// The string at `pointer`, if the bytes are JSON and one stands there.
pub open spec fn text_at(json: Seq<u8>, pointer: Seq<char>) -> Option<Seq<char>> {
    match probe_json_text(json, pointer) {
        Some(Some(t)) => Some(t),
        _ => None,
    }
}

/// The string at `rest` within the report's first stream: `streams` must be an array (an
/// object under that name has no first stream), and `rest` is read in its first element.
pub open spec fn stream_text(json: Seq<u8>, rest: Seq<char>) -> Option<Seq<char>> {
    if probe_json_array(json, "/streams"@) {
        text_at(json, "/streams/0"@ + rest)
    } else {
        None
    }
}

/// A tag of the prober's report: the value in the container's tags (`/format/tags`), else
/// the one in the first stream's tags, else empty.
pub open spec fn tag_text(json: Seq<u8>, key: Seq<char>) -> Seq<char> {
    match text_at(json, "/format/tags/"@ + key) {
        Some(t) => t,
        None => match stream_text(json, "/tags/"@ + key) {
            Some(t) => t,
            None => Seq::empty(),
        },
    }
}

/// A number field of the report read as `u32::from_str` reads it, 0 when it is missing or
/// does not read.
pub open spec fn u32_field(t: Option<Seq<char>>) -> nat {
    match t {
        Some(s) => match u32_text(s) {
            Some(x) => x,
            None => 0,
        },
        None => 0,
    }
}

/// What the library takes from the prober's report on an audio file. The duration is kept
/// as the text the prober wrote (it is a decimal fraction of seconds).
pub struct ProbeTrack {
    pub title: String,
    pub artist: String,
    pub album: String,
    pub genre: String,
    pub year: i32,
    pub bitrate: u32,
    pub sample_rate: u32,
    pub codec: String,
    pub duration_text: Option<String>,
}

/// The prober's output is not a JSON document.
#[derive(Debug, Clone, Copy, PartialEq, Eq, Structural)]
pub enum ProbeError {
    Unparsable,
}

fn text_value(json: &[u8], pointer: &str) -> (r: Option<String>)
    ensures
        r matches Some(s) ==> text_at(json@, pointer@) == Some(s@),
        r is None ==> text_at(json@, pointer@) is None,
{
    match probe_text(json, pointer) {
        Some(Some(s)) => Some(s),
        _ => None,
    }
}

fn stream_value(json: &[u8], rest: &str) -> (r: Option<String>)
    ensures
        r matches Some(s) ==> stream_text(json@, rest@) == Some(s@),
        r is None ==> stream_text(json@, rest@) is None,
{
    if probe_is_array(json, "/streams") {
        let mut p = String::new();
        push_str(&mut p, "/streams/0");
        push_str(&mut p, rest);
        text_value(json, p.as_str())
    } else {
        None
    }
}

fn tag_value(json: &[u8], key: &str) -> (r: String)
    ensures
        r@ == tag_text(json@, key@),
{
    let mut fp = String::new();
    push_str(&mut fp, "/format/tags/");
    push_str(&mut fp, key);
    match text_value(json, fp.as_str()) {
        Some(t) => t,
        None => {
            let mut sp = String::new();
            push_str(&mut sp, "/tags/");
            push_str(&mut sp, key);
            match stream_value(json, sp.as_str()) {
                Some(t) => t,
                None => String::new(),
            }
        },
    }
}

fn u32_value(json: &[u8], pointer: &str) -> (r: u32)
    ensures
        r == u32_field(text_at(json@, pointer@)),
{
    match text_value(json, pointer) {
        Some(t) => parse_u32_or_zero(t.as_str()),
        None => 0,
    }
}

/// Reads the prober's JSON report (`ffprobe -print_format json -show_format -show_streams`):
/// title, artist, album and genre from the tags (the container's first, then the first
/// stream's, else empty); the year from the `date` tag as `i32::from_str` reads it (0 where it
/// does not); the bit rate from `/format/bit_rate` and the sample rate from
/// the first stream's `sample_rate` (0 where missing or unreadable); the codec from the first
/// stream's `codec_name`; the duration's text from `/format/duration`. Fails when the output is not
/// JSON.
pub fn read_probe_output(stdout: &[u8]) -> (r: Result<ProbeTrack, ProbeError>)
    ensures
        r is Err <==> probe_json_text(stdout@, "/format/duration"@) is None,
        r matches Ok(t) ==> {
            &&& t.title@ == tag_text(stdout@, "title"@)
            &&& t.artist@ == tag_text(stdout@, "artist"@)
            &&& t.album@ == tag_text(stdout@, "album"@)
            &&& t.genre@ == tag_text(stdout@, "genre"@)
            &&& t.year == match i32_text(tag_text(stdout@, "date"@)) {
                Some(y) => y,
                None => 0,
            }
            &&& t.bitrate == u32_field(text_at(stdout@, "/format/bit_rate"@))
            &&& t.sample_rate == u32_field(stream_text(stdout@, "/sample_rate"@))
            &&& t.codec@ == probe_codec_label(stream_text(stdout@, "/codec_name"@))
            &&& match t.duration_text {
                Some(d) => text_at(stdout@, "/format/duration"@) == Some(d@),
                None => text_at(stdout@, "/format/duration"@) is None,
            }
        },
{
    let duration_text = match probe_text(stdout, "/format/duration") {
        None => return Err(ProbeError::Unparsable),
        Some(d) => d,
    };
    let title = tag_value(stdout, "title");
    let artist = tag_value(stdout, "artist");
    let album = tag_value(stdout, "album");
    let genre = tag_value(stdout, "genre");
    let date = tag_value(stdout, "date");
    let year = parse_i32_or_zero(date.as_str());
    let bitrate = u32_value(stdout, "/format/bit_rate");
    let sample_rate = match stream_value(stdout, "/sample_rate") {
        Some(t) => parse_u32_or_zero(t.as_str()),
        None => 0,
    };
    let codec_name = stream_value(stdout, "/codec_name");
    let codec = match codec_name {
        Some(n) => probe_codec(Some(n.as_str())),
        None => probe_codec(None),
    };
    Ok(
        ProbeTrack {
            title,
            artist,
            album,
            genre,
            year,
            bitrate,
            sample_rate,
            codec,
            duration_text,
        },
    )
}

} // verus!
