//! Keys and file names of the thumbnail cache, and which files get
//! thumbnails. Decoding and painting images is left to the caller.
use crate::filters::{guess_mime, mime_guess_first};
use crate::text::{chars_of, concat, decimal, decimal_string, has_prefix, starts_with};
use vstd::prelude::*;

verus! {

/// The UTF-8 encoding of one character.
pub open spec fn utf8_of_char(c: char) -> Seq<u8> {
    let u = c as u32 as nat;
    if u < 0x80 {
        seq![u as u8]
    } else if u < 0x800 {
        seq![(0xC0 + u / 64) as u8, (0x80 + u % 64) as u8]
    } else if u < 0x10000 {
        seq![(0xE0 + u / 4096) as u8, (0x80 + (u / 64) % 64) as u8, (0x80 + u % 64) as u8]
    } else {
        seq![
            (0xF0 + u / 262144) as u8,
            (0x80 + (u / 4096) % 64) as u8,
            (0x80 + (u / 64) % 64) as u8,
            (0x80 + u % 64) as u8,
        ]
    }
}

/// The UTF-8 bytes of a text (`str::as_bytes`).
pub open spec fn utf8_of(s: Seq<char>) -> Seq<u8>
    decreases s.len(),
{
    if s.len() == 0 {
        Seq::empty()
    } else {
        utf8_of(s.drop_last()) + utf8_of_char(s.last())
    }
}

pub open spec fn fnv_offset() -> u64 {
    0xcbf29ce484222325
}

pub open spec fn fnv_prime() -> u64 {
    0x100000001b3
}

/// 64-bit FNV-1a of a byte sequence.
pub open spec fn fnv1a_bytes(b: Seq<u8>) -> u64
    decreases b.len(),
{
    if b.len() == 0 {
        fnv_offset()
    } else {
        let h = fnv1a_bytes(b.drop_last()) ^ (b.last() as u64);
        ((h as nat * fnv_prime() as nat) % 0x1_0000_0000_0000_0000) as u64
    }
}

/// The UTF-8 bytes of `c`.
fn push_utf8(out: &mut Vec<u8>, c: char)
    ensures
        final(out)@ == old(out)@ + utf8_of_char(c),
{
    let u = c as u32;
    proof {
        assert(u <= 0x10FFFF);
    }
    if u < 0x80 {
        out.push(u as u8);
    } else if u < 0x800 {
        out.push((0xC0 + u / 64) as u8);
        out.push((0x80 + u % 64) as u8);
    } else if u < 0x10000 {
        out.push((0xE0 + u / 4096) as u8);
        out.push((0x80 + (u / 64) % 64) as u8);
        out.push((0x80 + u % 64) as u8);
    } else {
        out.push((0xF0 + u / 262144) as u8);
        out.push((0x80 + (u / 4096) % 64) as u8);
        out.push((0x80 + (u / 64) % 64) as u8);
        out.push((0x80 + u % 64) as u8);
    }
    proof {
        assert(final(out)@ =~= old(out)@ + utf8_of_char(c));
    }
}

/// The UTF-8 bytes of a text.
pub fn utf8_bytes(s: &str) -> (out: Vec<u8>)
    ensures
        out@ == utf8_of(s@),
{
    let v = chars_of(s);
    let mut out: Vec<u8> = Vec::new();
    let mut i: usize = 0;
    while i < v.len()
        invariant
            i <= v.len(),
            v@ == s@,
            out@ == utf8_of(v@.take(i as int)),
        decreases v.len() - i,
    {
        proof {
            assert(v@.take(i + 1).drop_last() =~= v@.take(i as int));
        }
        push_utf8(&mut out, v[i]);
        i += 1;
    }
    proof {
        assert(v@.take(v@.len() as int) =~= v@);
    }
    out
}

/// 64-bit FNV-1a of the UTF-8 bytes of `s`.
pub fn fnv1a(s: &str) -> (out: u64)
    ensures
        out == fnv1a_bytes(utf8_of(s@)),
{
    let b = utf8_bytes(s);
    let mut h: u64 = 0xcbf29ce484222325;
    let mut i: usize = 0;
    while i < b.len()
        invariant
            i <= b.len(),
            h == fnv1a_bytes(b@.take(i as int)),
        decreases b.len() - i,
    {
        proof {
            assert(b@.take(i + 1).drop_last() =~= b@.take(i as int));
        }
        h = h ^ (b[i] as u64);
        h = h.wrapping_mul(0x100000001b3);
        i += 1;
    }
    proof {
        assert(b@.take(b@.len() as int) =~= b@);
    }
    h
}

/// The lower-case hexadecimal digit of `d`.
pub open spec fn hex_digit(d: nat) -> char {
    if d < 10 {
        ((48 + d) as u32) as char
    } else {
        ((87 + d) as u32) as char
    }
}

/// The last `k` hexadecimal digits of `n`, zero-padded (`{:0k$x}`).
pub open spec fn hex_padded(n: nat, k: nat) -> Seq<char>
    decreases k,
{
    if k == 0 {
        Seq::empty()
    } else {
        hex_padded(n / 16, (k - 1) as nat).push(hex_digit(n % 16))
    }
}

fn hex_rec(n: u64, k: usize) -> (out: String)
    ensures
        out@ == hex_padded(n as nat, k as nat),
    decreases k,
{
    if k == 0 {
        return String::new();
    }
    let mut s = hex_rec(n / 16, k - 1);
    let d = (n % 16) as u8;
    let c = if d < 10 {
        (48 + d) as char
    } else {
        (87 + d) as char
    };
    s.push(c);
    s
}

/// The cache file name of a thumbnail key: its FNV-1a hash as sixteen hex
/// digits, then `.png`.
pub fn thumb_file_name(key: &str) -> (out: String)
    ensures
        out@ == hex_padded(fnv1a_bytes(utf8_of(key@)) as nat, 16) + ".png"@,
{
    let h = fnv1a(key);
    let hex = hex_rec(h, 16);
    concat(hex.as_str(), ".png")
}

/// The cache key of a thumbnail: the path, its modification time (seconds)
/// and length, the size in pixels, and `c` for a cover crop or `f` for a fit,
/// separated by `|`.
pub fn cache_key(path: &str, mtime: u64, len: u64, px: u32, cover: bool) -> (out: String)
    ensures
        out@ == path@ + "|"@ + decimal(mtime as nat) + "|"@ + decimal(len as nat) + "|"@
            + decimal(px as nat) + "|"@ + (if cover {
            "c"@
        } else {
            "f"@
        }),
{
    let a = concat(path, "|");
    let m = decimal_string(mtime);
    let b = concat(a.as_str(), m.as_str());
    let c = concat(b.as_str(), "|");
    let l = decimal_string(len);
    let d = concat(c.as_str(), l.as_str());
    let e = concat(d.as_str(), "|");
    let p = decimal_string(px as u64);
    let f = concat(e.as_str(), p.as_str());
    let g = concat(f.as_str(), "|");
    concat(g.as_str(), if cover { "c" } else { "f" })
}

/// Whether a file gets an image thumbnail: the MIME type `mime_guess` gives
/// its name first is an `image/` type.
pub fn is_image_file(path: &str) -> (out: bool)
    ensures
        out == (mime_guess_first(path@) matches Some(m) && has_prefix(m, "image/"@)),
{
    match guess_mime(path) {
        Some(m) => starts_with(m.as_str(), "image/"),
        None => false,
    }
}

} // verus!
