//! Icon cache naming and framing.
//!
//! Decoded icons are cached on disk as raw pixel files named by a stable
//! hash of the source path. The engine owns the pure parts: the hash, the
//! cache file name, the fixed-size header that frames a pixel payload,
//! and the normalization of override-icon names. Reading and writing the
//! files is the platform layer's business.

use vstd::prelude::*;

use crate::keys::{ascii_lowercase_bytes, bytes_subrange, lower_bytes, trim_bytes, trimmed};

verus! {

/// One step of the stable hash: fold a byte into the accumulator.
pub open spec fn stable_hash_step(h: u64, b: u8) -> u64 {
    ((((h ^ (b as u64)) as u128) * 0x100000001b3) % 0x10000000000000000) as u64
}

/// The stable hash of a byte string from a given accumulator.
pub open spec fn stable_hash_from(h: u64, s: Seq<u8>) -> u64
    decreases s.len(),
{
    if s.len() == 0 {
        h
    } else {
        stable_hash_from(stable_hash_step(h, s[0]), s.drop_first())
    }
}

/// The stable hash of a byte string: the same on every run and machine,
/// so cache files survive restarts.
pub open spec fn stable_hash_spec(s: Seq<u8>) -> u64 {
    stable_hash_from(0xcbf29ce484222325, s)
}

/// Computes the stable hash of a byte string; see [`stable_hash_spec`].
pub fn stable_hash64(input: &Vec<u8>) -> (r: u64)
    ensures
        r == stable_hash_spec(input@),
{
    let mut h: u64 = 0xcbf29ce484222325;
    let mut i: usize = 0;
    proof {
        assert(input@.skip(0) =~= input@);
    }
    while i < input.len()
        invariant
            i <= input@.len(),
            stable_hash_spec(input@) == stable_hash_from(h, input@.skip(i as int)),
        decreases input@.len() - i,
    {
        proof {
            assert(input@.skip(i as int)[0] == input@[i as int]);
            assert(input@.skip(i as int).drop_first() =~= input@.skip(i as int + 1));
        }
        let x: u64 = h ^ (input[i] as u64);
        let prod: u128 = (x as u128) * 0x100000001b3;
        h = (prod % 0x10000000000000000) as u64;
        i = i + 1;
    }
    proof {
        assert(input@.skip(input@.len() as int) =~= Seq::<u8>::empty());
    }
    h
}

/// The lowercase hexadecimal digit of a value below 16.
pub open spec fn hex_digit(n: u64) -> u8 {
    if n < 10 {
        (48 + n) as u8
    } else {
        (87 + n) as u8
    }
}

/// A 64-bit value as 16 lowercase hexadecimal digits, most significant
/// first.
pub open spec fn hex16(k: u64) -> Seq<u8> {
    Seq::new(16, |i: int| hex_digit((k >> (((15 - i) * 4) as u64)) & 15))
}

proof fn lemma_nibble_bound(x: u64, s: u64)
    ensures
        (x >> s) & 15 < 16,
{
    assert((x >> s) & 15 < 16) by (bit_vector);
}

/// Formats a cache key as 16 lowercase hexadecimal digits; see [`hex16`].
pub fn hex16_digits(k: u64) -> (r: Vec<u8>)
    ensures
        r@ == hex16(k),
{
    let mut r: Vec<u8> = Vec::new();
    let mut i: usize = 0;
    while i < 16
        invariant
            i <= 16,
            r@.len() == i,
            forall|j: int| 0 <= j < i ==> r@[j] == hex16(k)[j],
        decreases 16 - i,
    {
        let shift: u64 = ((15 - i) * 4) as u64;
        proof {
            lemma_nibble_bound(k, shift);
        }
        let nib: u64 = (k >> shift) & 15;
        let d: u8 = if nib < 10 {
            (48 + nib) as u8
        } else {
            (87 + nib) as u8
        };
        r.push(d);
        i = i + 1;
    }
    proof {
        assert(r@ =~= hex16(k));
    }
    r
}

/// The bytes of the cache file suffix `.rgba`.
pub open spec fn rgba_suffix() -> Seq<u8> {
    seq![46u8, 114u8, 103u8, 98u8, 97u8]
}

/// The file name a source path's icon is cached under: the path's stable
/// hash in hexadecimal, with the raw-pixel suffix.
pub fn icon_cache_file_name(source_path: &Vec<u8>) -> (r: Vec<u8>)
    ensures
        r@ == hex16(stable_hash_spec(source_path@)) + rgba_suffix(),
{
    let key = stable_hash64(source_path);
    let mut r = hex16_digits(key);
    r.push(46);
    r.push(114);
    r.push(103);
    r.push(98);
    r.push(97);
    proof {
        assert(r@ =~= hex16(stable_hash_spec(source_path@)) + rgba_suffix());
    }
    r
}

/// The cache file's magic bytes.
pub open spec fn cache_magic() -> Seq<u8> {
    seq![70u8, 76u8, 73u8, 50u8]
}

/// A 32-bit value as four little-endian bytes.
pub open spec fn le32(x: u32) -> Seq<u8> {
    seq![
        (x % 256) as u8,
        ((x / 256) % 256) as u8,
        ((x / 65536) % 256) as u8,
        ((x / 16777216) % 256) as u8,
    ]
}

/// The 16-byte header framing a cached icon: magic, width, height and
/// payload length, the latter three little-endian.
pub open spec fn cache_header(width: u32, height: u32, len: u32) -> Seq<u8> {
    cache_magic() + le32(width) + le32(height) + le32(len)
}

fn push_le32(out: &mut Vec<u8>, x: u32)
    ensures
        final(out)@ == old(out)@ + le32(x),
{
    out.push((x % 256) as u8);
    out.push(((x / 256) % 256) as u8);
    out.push(((x / 65536) % 256) as u8);
    out.push(((x / 16777216) % 256) as u8);
    proof {
        assert(out@ =~= old(out)@ + le32(x));
    }
}

/// Frames a cached icon's dimensions and payload length as the 16-byte
/// header written before the pixels; see [`cache_header`].
pub fn encode_icon_cache_header(width: u32, height: u32, len: u32) -> (r: Vec<u8>)
    ensures
        r@ == cache_header(width, height, len),
        r@.len() == 16,
{
    let mut r: Vec<u8> = Vec::new();
    r.push(70);
    r.push(76);
    r.push(73);
    r.push(50);
    push_le32(&mut r, width);
    push_le32(&mut r, height);
    push_le32(&mut r, len);
    proof {
        assert(r@ =~= cache_header(width, height, len));
    }
    r
}

/// The 32-bit value four little-endian bytes hold.
pub open spec fn le32_value(b0: u8, b1: u8, b2: u8, b3: u8) -> int {
    b0 + 256 * b1 + 65536 * b2 + 16777216 * b3
}

fn read_le32(h: &Vec<u8>, off: usize) -> (r: u32)
    requires
        off + 4 <= h@.len(),
    ensures
        r as int == le32_value(h@[off as int], h@[off as int + 1], h@[off as int + 2], h@[
            off as int + 3
        ]),
{
    let n = h.len();
    proof {
        assert(off + 4 <= n);
    }
    let b0 = h[off] as u32;
    let b1 = h[off + 1] as u32;
    let b2 = h[off + 2] as u32;
    let b3 = h[off + 3] as u32;
    b0 + 256 * b1 + 65536 * b2 + 16777216 * b3
}

/// Whether a 16-byte header is a valid cached-icon frame: the magic must
/// match and the payload length must be exactly four bytes per pixel.
pub open spec fn valid_cache_header(h: Seq<u8>) -> bool {
    &&& h.len() == 16
    &&& h.subrange(0, 4) == cache_magic()
    &&& le32_value(h[12], h[13], h[14], h[15]) == le32_value(h[4], h[5], h[6], h[7]) * le32_value(
        h[8],
        h[9],
        h[10],
        h[11],
    ) * 4
}

/// Reads a cached icon's frame back: the width, height and payload length
/// when the header is valid; see [`valid_cache_header`].
pub fn parse_icon_cache_header(h: &Vec<u8>) -> (r: Option<(u32, u32, u32)>)
    ensures
        r is Some <==> valid_cache_header(h@),
        r matches Some(whl) ==> whl.0 as int == le32_value(h@[4], h@[5], h@[6], h@[7])
            && whl.1 as int == le32_value(h@[8], h@[9], h@[10], h@[11]) && whl.2 as int
            == le32_value(h@[12], h@[13], h@[14], h@[15]),
{
    if h.len() != 16 {
        return Option::None;
    }
    if !(h[0] == 70 && h[1] == 76 && h[2] == 73 && h[3] == 50) {
        proof {
            if h@.subrange(0, 4) == cache_magic() {
                assert(h@[0] == 70 && h@[1] == 76 && h@[2] == 73 && h@[3] == 50) by {
                    assert(h@.subrange(0, 4)[0] == h@[0]);
                    assert(h@.subrange(0, 4)[1] == h@[1]);
                    assert(h@.subrange(0, 4)[2] == h@[2]);
                    assert(h@.subrange(0, 4)[3] == h@[3]);
                }
            }
        }
        return Option::None;
    }
    proof {
        assert(h@.subrange(0, 4) =~= cache_magic());
    }
    let width = read_le32(h, 4);
    let height = read_le32(h, 8);
    let len = read_le32(h, 12);
    proof {
        assert(0 <= (width as int) * (height as int) * 4 < 0x100000000000000000000 && (
        width as int) * (height as int) * 4 == ((width as u128) as int) * ((
        height as u128) as int) * 4) by (nonlinear_arith)
            requires
                0 <= width <= 0xffffffffu32,
                0 <= height <= 0xffffffffu32,
        ;
    }
    let expected: u128 = (width as u128) * (height as u128) * 4;
    if (len as u128) == expected {
        Option::Some((width, height, len))
    } else {
        Option::None
    }
}

/// A framed header always reads back as written.
pub proof fn lemma_cache_header_round_trip(width: u32, height: u32, len: u32)
    requires
        len == width * height * 4,
    ensures
        valid_cache_header(cache_header(width, height, len)),
{
    let h = cache_header(width, height, len);
    assert(h.subrange(0, 4) =~= cache_magic());
    assert(le32_value(h[4], h[5], h[6], h[7]) == width) by (nonlinear_arith)
        requires
            h[4] == (width % 256) as u8,
            h[5] == ((width / 256) % 256) as u8,
            h[6] == ((width / 65536) % 256) as u8,
            h[7] == ((width / 16777216) % 256) as u8,
    ;
    assert(le32_value(h[8], h[9], h[10], h[11]) == height) by (nonlinear_arith)
        requires
            h[8] == (height % 256) as u8,
            h[9] == ((height / 256) % 256) as u8,
            h[10] == ((height / 65536) % 256) as u8,
            h[11] == ((height / 16777216) % 256) as u8,
    ;
    assert(le32_value(h[12], h[13], h[14], h[15]) == len) by (nonlinear_arith)
        requires
            h[12] == (len % 256) as u8,
            h[13] == ((len / 256) % 256) as u8,
            h[14] == ((len / 65536) % 256) as u8,
            h[15] == ((len / 16777216) % 256) as u8,
    ;
}

/// What an override-icon name normalizes to: trimmed and lowercased, a
/// trailing `.ico` removed, trimmed again; empty at any stage means none.
pub open spec fn icon_name_key(raw: Seq<u8>) -> Option<Seq<u8>> {
    let t = trimmed(raw);
    if t.len() == 0 {
        Option::None
    } else {
        let low = lower_bytes(t);
        let stripped = if low.len() >= 4 && low.subrange(low.len() - 4, low.len() as int) == seq![
            46u8,
            105u8,
            99u8,
            111u8,
        ] {
            low.subrange(0, low.len() - 4)
        } else {
            low
        };
        let k = trimmed(stripped);
        if k.len() == 0 {
            Option::None
        } else {
            Option::Some(k)
        }
    }
}

/// Normalizes an override-icon name; see [`icon_name_key`].
pub fn normalize_icon_name_key(raw: &Vec<u8>) -> (r: Option<Vec<u8>>)
    ensures
        r is Some <==> icon_name_key(raw@) is Some,
        r matches Some(k) ==> icon_name_key(raw@) == Option::Some(k@),
{
    let t = trim_bytes(raw);
    if t.len() == 0 {
        return Option::None;
    }
    let low = ascii_lowercase_bytes(&t);
    let has_suffix = low.len() >= 4 && low[low.len() - 4] == 46 && low[low.len() - 3] == 105
        && low[low.len() - 2] == 99 && low[low.len() - 1] == 111;
    proof {
        if low@.len() >= 4 {
            assert(low@.subrange(low@.len() - 4, low@.len() as int) =~= seq![
                low@[low@.len() - 4],
                low@[low@.len() - 3],
                low@[low@.len() - 2],
                low@[low@.len() - 1],
            ]);
        }
    }
    let stripped = if has_suffix {
        bytes_subrange(&low, 0, low.len() - 4)
    } else {
        low
    };
    let k = trim_bytes(&stripped);
    if k.len() == 0 {
        Option::None
    } else {
        Option::Some(k)
    }
}

/// Clamps a requested icon side length to the supported square sizes.
pub fn clamp_icon_side(size: u32) -> (r: u32)
    ensures
        r == (if size < 16 {
            16u32
        } else if size > 256 {
            256u32
        } else {
            size
        }),
{
    if size < 16 {
        16
    } else if size > 256 {
        256
    } else {
        size
    }
}

} // verus!
