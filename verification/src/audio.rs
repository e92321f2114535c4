use vstd::prelude::*;

verus! {

/// Whether playing a track of `source_rate` Hz reopens the output stream at that rate: only
/// for a PCM (not DSD) track of a known rate that differs from the rate of the stream that
/// is open (0 meaning none is known).
pub fn reopen_stream_for(is_dsf: bool, source_rate: u32, open_rate: u32) -> (b: bool)
    ensures
        b == (!is_dsf && source_rate > 0 && open_rate != 0 && open_rate != source_rate),
{
    !is_dsf && source_rate > 0 && open_rate != 0 && open_rate != source_rate
}

/// Whether a track of `source_rate` Hz cannot be queued behind the playing one for gapless
/// playback: both rates are known and they differ.
pub fn queue_rate_mismatch(source_rate: u32, current_rate: u32) -> (b: bool)
    ensures
        b == (source_rate != 0 && current_rate != 0 && source_rate != current_rate),
{
    source_rate != 0 && current_rate != 0 && source_rate != current_rate
}

/// The unsigned 32-bit little-endian number stored at `d[i..i + 4]`.
pub open spec fn le_u32(d: Seq<u8>, i: int) -> nat {
    (d[i] + d[i + 1] * 0x100 + d[i + 2] * 0x1_0000 + d[i + 3] * 0x100_0000) as nat
}

/// `d` with `v` written as a 32-bit little-endian number at `d[i..i + 4]`.
pub open spec fn put_le_u32(d: Seq<u8>, i: int, v: nat) -> Seq<u8> {
    d.update(i, (v % 0x100) as u8)
        .update(i + 1, ((v / 0x100) % 0x100) as u8)
        .update(i + 2, ((v / 0x1_0000) % 0x100) as u8)
        .update(i + 3, ((v / 0x100_0000) % 0x100) as u8)
}

/// Four bytes of `d` starting at `i` spell the ASCII tag `t`.
pub open spec fn has_tag(d: Seq<u8>, i: int, t: Seq<u8>) -> bool {
    &&& t.len() == 4
    &&& 0 <= i
    &&& i + 4 <= d.len()
    &&& d[i] == t[0] && d[i + 1] == t[1] && d[i + 2] == t[2] && d[i + 3] == t[3]
}

pub open spec fn tag_riff() -> Seq<u8> {
    seq![0x52u8, 0x49u8, 0x46u8, 0x46u8]
}

pub open spec fn tag_wave() -> Seq<u8> {
    seq![0x57u8, 0x41u8, 0x56u8, 0x45u8]
}

pub open spec fn tag_data() -> Seq<u8> {
    seq![0x64u8, 0x61u8, 0x74u8, 0x61u8]
}

/// The size value that marks a `data` chunk of unknown length (as a streaming encoder writes it).
pub open spec fn unknown_size() -> nat {
    0xFFFF_FFFF
}

/// `d` starts with a RIFF/WAVE header.
pub open spec fn is_riff_wave(d: Seq<u8>) -> bool {
    &&& d.len() >= 12
    &&& has_tag(d, 0, tag_riff())
    &&& has_tag(d, 8, tag_wave())
}

/// Walks the chunk list of `d` from the chunk header at `pos`: the first chunk that is a
/// `data` chunk of unknown size gets, as its size, the number of bytes that follow its
/// header (taken modulo 2^32); the walk stops there, or where no further chunk header fits.
pub open spec fn patch_chunks(d: Seq<u8>, pos: nat) -> Seq<u8>
    decreases d.len() - pos,
{
    if pos + 8 <= d.len() {
        let size = le_u32(d, pos + 4 as int);
        if has_tag(d, pos as int, tag_data()) && size == unknown_size() {
            put_le_u32(d, pos + 4 as int, ((d.len() - pos - 8) as nat) % 0x1_0000_0000)
        } else if pos + 8 + size + 8 <= d.len() {
            patch_chunks(d, pos + 8 + size)
        } else {
            d
        }
    } else {
        d
    }
}

proof fn lemma_put_le_u32_len(d: Seq<u8>, i: int, v: nat)
    requires
        0 <= i,
        i + 4 <= d.len(),
    ensures
        put_le_u32(d, i, v).len() == d.len(),
        forall|j: int| 0 <= j < d.len() && !(i <= j < i + 4) ==> put_le_u32(d, i, v)[j] == d[j],
{
}

proof fn lemma_patch_chunks_len(d: Seq<u8>, pos: nat)
    ensures
        patch_chunks(d, pos).len() == d.len(),
    decreases d.len() - pos,
{
    if pos + 8 <= d.len() {
        let size = le_u32(d, pos + 4 as int);
        if has_tag(d, pos as int, tag_data()) && size == unknown_size() {
        } else if pos + 8 + size + 8 <= d.len() {
            lemma_patch_chunks_len(d, pos + 8 + size);
        }
    }
}

proof fn lemma_le_u32_put(d: Seq<u8>, i: int, v: nat)
    requires
        0 <= i,
        i + 4 <= d.len(),
        v < 0x1_0000_0000,
    ensures
        le_u32(put_le_u32(d, i, v), i) == v,
{
    let e = put_le_u32(d, i, v);
    assert(e[i] == v % 0x100);
    assert(e[i + 1] == (v / 0x100) % 0x100);
    assert(e[i + 2] == (v / 0x1_0000) % 0x100);
    assert(e[i + 3] == (v / 0x100_0000) % 0x100);
    assert((v % 0x100) + ((v / 0x100) % 0x100) * 0x100 + ((v / 0x1_0000) % 0x100) * 0x1_0000 + ((v
        / 0x100_0000) % 0x100) * 0x100_0000 == v) by (nonlinear_arith)
        requires
            v < 0x1_0000_0000,
    ;
}

/// The chunk walk from `pos` changes no byte before `pos + 4`.
proof fn lemma_patch_chunks_frame(d: Seq<u8>, pos: nat)
    ensures
        patch_chunks(d, pos).len() == d.len(),
        forall|j: int| 0 <= j < pos + 4 && j < d.len() ==> patch_chunks(d, pos)[j] == d[j],
    decreases d.len() - pos,
{
    if pos + 8 <= d.len() {
        let size = le_u32(d, pos + 4 as int);
        if has_tag(d, pos as int, tag_data()) && size == unknown_size() {
            lemma_put_le_u32_len(d, pos + 4 as int, ((d.len() - pos - 8) as nat) % 0x1_0000_0000);
        } else if pos + 8 + size + 8 <= d.len() {
            lemma_patch_chunks_frame(d, pos + 8 + size);
        }
    }
}

/// On byte strings shorter than 4 GiB, walking the chunks a second time changes nothing.
proof fn lemma_patch_chunks_idempotent(d: Seq<u8>, pos: nat)
    requires
        d.len() < 0x1_0000_0000,
    ensures
        patch_chunks(patch_chunks(d, pos), pos) == patch_chunks(d, pos),
    decreases d.len() - pos,
{
    lemma_patch_chunks_frame(d, pos);
    let y = patch_chunks(d, pos);
    if pos + 8 <= d.len() {
        let size = le_u32(d, pos + 4 as int);
        if has_tag(d, pos as int, tag_data()) && size == unknown_size() {
            let actual = ((d.len() - pos - 8) as nat) % 0x1_0000_0000;
            assert(actual == d.len() - pos - 8);
            lemma_put_le_u32_len(d, pos + 4 as int, actual);
            lemma_le_u32_put(d, pos + 4 as int, actual);
            assert(has_tag(y, pos as int, tag_data()));
            assert(le_u32(y, pos + 4 as int) == actual);
        } else if pos + 8 + size + 8 <= d.len() {
            let next = pos + 8 + size;
            lemma_patch_chunks_idempotent(d, next);
            lemma_patch_chunks_frame(d, next);
            assert(y[pos as int] == d[pos as int]);
            assert(y[pos + 1 as int] == d[pos + 1 as int]);
            assert(y[pos + 2 as int] == d[pos + 2 as int]);
            assert(y[pos + 3 as int] == d[pos + 3 as int]);
            assert(y[pos + 4 as int] == d[pos + 4 as int]);
            assert(y[pos + 5 as int] == d[pos + 5 as int]);
            assert(y[pos + 6 as int] == d[pos + 6 as int]);
            assert(y[pos + 7 as int] == d[pos + 7 as int]);
            assert(le_u32(y, pos + 4 as int) == size);
        }
    }
}

/// The RIFF size field that a RIFF/WAVE byte string of length `len` should carry
/// (the length is taken modulo 2^32, as a 32-bit size field holds it).
pub open spec fn riff_size_for(len: nat) -> nat {
    ((len % 0x1_0000_0000) - 8) as nat
}

/// What patching a WAV header does to `d`: a byte string that is not RIFF/WAVE stays as it
/// is; otherwise the RIFF size field is set from the length, and the chunk walk starting at
/// byte 12 fixes a `data` chunk of unknown size.
pub open spec fn patched_wav(d: Seq<u8>) -> Seq<u8> {
    if is_riff_wave(d) {
        patch_chunks(put_le_u32(d, 4, riff_size_for(d.len())), 12)
    } else {
        d
    }
}

/// The inputs on which patching is defined: a RIFF/WAVE length (modulo 2^32) of at least 8.
pub open spec fn patchable(d: Seq<u8>) -> bool {
    is_riff_wave(d) ==> d.len() % 0x1_0000_0000 >= 8
}

fn write_le_u32(data: &mut [u8], i: usize, v: u32)
    requires
        i + 4 <= old(data)@.len(),
    ensures
        final(data)@ == put_le_u32(old(data)@, i as int, v as nat),
{
    data[i] = (v % 0x100) as u8;
    data[i + 1] = ((v / 0x100) % 0x100) as u8;
    data[i + 2] = ((v / 0x1_0000) % 0x100) as u8;
    data[i + 3] = ((v / 0x100_0000) % 0x100) as u8;
}

fn read_le_u32(data: &[u8], i: usize) -> (r: u32)
    requires
        i + 4 <= data@.len(),
    ensures
        r as nat == le_u32(data@, i as int),
{
    data[i] as u32 + data[i + 1] as u32 * 0x100 + data[i + 2] as u32 * 0x1_0000 + data[i + 3] as u32
        * 0x100_0000
}

fn tag_at(data: &[u8], i: usize, t0: u8, t1: u8, t2: u8, t3: u8) -> (r: bool)
    requires
        i + 4 <= data@.len(),
    ensures
        r == has_tag(data@, i as int, seq![t0, t1, t2, t3]),
{
    data[i] == t0 && data[i + 1] == t1 && data[i + 2] == t2 && data[i + 3] == t3
}

/// Repairs the size fields of a WAV byte stream whose encoder could not know its length in
/// advance (as when a decoder writes WAV to a pipe): the RIFF size becomes the byte length
/// less 8, and the first `data` chunk of unknown size (0xFFFFFFFF) gets the number of bytes
/// that follow its header. Anything that is not RIFF/WAVE is left as it is.
pub fn patch_wav_header(data: &mut [u8])
    requires
        patchable(old(data)@),
    ensures
        final(data)@ == patched_wav(old(data)@),
        final(data)@.len() == old(data)@.len(),
{
    let ghost d0 = data@;
    if data.len() < 12 || !tag_at(data, 0, 0x52, 0x49, 0x46, 0x46) || !tag_at(
        data,
        8,
        0x57,
        0x41,
        0x56,
        0x45,
    ) {
        return ;
    }
    let total_len: u32 = ((data.len() as u64) % 0x1_0000_0000) as u32;
    write_le_u32(data, 4, total_len - 8);
    assert(data@ == put_le_u32(d0, 4, riff_size_for(d0.len())));
    let ghost d1 = data@;
    let mut pos: usize = 12;
    while data.len() - pos >= 8
        invariant_except_break
            data@ == d1,
            pos <= data@.len(),
            patch_chunks(d1, pos as nat) == patch_chunks(d1, 12),
        ensures
            data@ == patch_chunks(d1, 12),
        decreases data@.len() - pos,
    {
        let chunk_size = read_le_u32(data, pos + 4);
        if tag_at(data, pos, 0x64, 0x61, 0x74, 0x61) && chunk_size == 0xFFFF_FFFF {
            let actual: u32 = (((data.len() - pos - 8) as u64) % 0x1_0000_0000) as u32;
            write_le_u32(data, pos + 4, actual);
            break;
        }
        let next: u128 = pos as u128 + 8 + chunk_size as u128;
        if next + 8 > data.len() as u128 {
            break;
        }
        pos = next as usize;
    }
    proof {
        lemma_patch_chunks_len(d1, 12);
    }
}

/// Patching a RIFF/WAVE byte string sets its RIFF size field to the byte length less 8
/// (the length taken modulo 2^32), and keeps the length.
pub proof fn law_patch_sets_riff_size(d: Seq<u8>)
    requires
        is_riff_wave(d),
        patchable(d),
    ensures
        le_u32(patched_wav(d), 4) == riff_size_for(d.len()),
        patched_wav(d).len() == d.len(),
        is_riff_wave(patched_wav(d)),
{
    let h = put_le_u32(d, 4, riff_size_for(d.len()));
    lemma_put_le_u32_len(d, 4, riff_size_for(d.len()));
    lemma_le_u32_put(d, 4, riff_size_for(d.len()));
    lemma_patch_chunks_frame(h, 12);
    let e = patched_wav(d);
    assert(e[4] == h[4] && e[5] == h[5] && e[6] == h[6] && e[7] == h[7]);
    assert(e[0] == d[0] && e[1] == d[1] && e[2] == d[2] && e[3] == d[3]);
    assert(e[8] == d[8] && e[9] == d[9] && e[10] == d[10] && e[11] == d[11]);
}

/// Patching is idempotent on byte strings shorter than 4 GiB: a second patch of an already
/// patched WAV stream changes nothing.
pub proof fn law_patch_idempotent(d: Seq<u8>)
    requires
        patchable(d),
        d.len() < 0x1_0000_0000,
    ensures
        patched_wav(patched_wav(d)) == patched_wav(d),
{
    if is_riff_wave(d) {
        let v = riff_size_for(d.len());
        let h = put_le_u32(d, 4, v);
        let e = patch_chunks(h, 12);
        assert(patched_wav(d) == e);
        assert(e.len() == d.len() && is_riff_wave(e)) by {
            law_patch_sets_riff_size(d);
        }
        assert(put_le_u32(e, 4, v) =~= e) by {
            lemma_put_le_u32_len(d, 4, v);
            lemma_patch_chunks_frame(h, 12);
            lemma_put_le_u32_len(e, 4, v);
            assert(e[4] == h[4] && e[5] == h[5] && e[6] == h[6] && e[7] == h[7]);
            assert(h[4] == (v % 0x100) as u8);
            assert(h[5] == ((v / 0x100) % 0x100) as u8);
            assert(h[6] == ((v / 0x1_0000) % 0x100) as u8);
            assert(h[7] == ((v / 0x100_0000) % 0x100) as u8);
            assert forall|j: int| 0 <= j < e.len() implies put_le_u32(e, 4, v)[j] == e[j] by {
                if 4 <= j < 8 {
                } else {
                }
            }
        }
        assert(patch_chunks(e, 12) == e) by {
            lemma_put_le_u32_len(d, 4, v);
            lemma_patch_chunks_idempotent(h, 12);
        }
        assert(patched_wav(e) == patch_chunks(put_le_u32(e, 4, v), 12));
    }
}

} // verus!
