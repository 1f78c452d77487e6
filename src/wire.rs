//! Field-level layout of the byte formats: little-endian integers and
//! length-prefixed byte strings, read at a position and appended to a buffer.
use vstd::prelude::*;
use vstd::utf8::*;

verus! {

/// The four little-endian bytes of `x`.
pub open spec fn le32(x: u32) -> Seq<u8> {
    seq![(x & 0xff) as u8, ((x >> 8u32) & 0xff) as u8, ((x >> 16u32) & 0xff) as u8, (x >> 24u32) as u8]
}

/// The integer whose little-endian bytes are `a, b, c, d`.
pub open spec fn u32_of_le(a: u8, b: u8, c: u8, d: u8) -> u32 {
    (a as u32) | ((b as u32) << 8u32) | ((c as u32) << 16u32) | ((d as u32) << 24u32)
}

/// A byte string with its length in front, as four little-endian bytes.
pub open spec fn enc_bytes(b: Seq<u8>) -> Seq<u8> {
    le32(b.len() as u32) + b
}

/// A text as the length-prefixed bytes of its UTF-8 form.
pub open spec fn enc_str(s: Seq<char>) -> Seq<u8> {
    enc_bytes(encode_utf8(s))
}

/// A text whose UTF-8 form can carry a four-byte length prefix.
pub open spec fn str_fits(s: Seq<char>) -> bool {
    encode_utf8(s).len() <= u32::MAX
}

/// One byte at `pos`, and the position after it.
pub open spec fn take_u8(b: Seq<u8>, pos: int) -> Option<(u8, int)> {
    if 0 <= pos < b.len() {
        Some((b[pos], pos + 1))
    } else {
        None
    }
}

/// A little-endian `u32` at `pos`, and the position after it.
pub open spec fn take_u32(b: Seq<u8>, pos: int) -> Option<(u32, int)> {
    if 0 <= pos && pos + 4 <= b.len() {
        Some((u32_of_le(b[pos], b[pos + 1], b[pos + 2], b[pos + 3]), pos + 4))
    } else {
        None
    }
}

/// A length-prefixed byte string at `pos`, and the position after it.
pub open spec fn take_bytes(b: Seq<u8>, pos: int) -> Option<(Seq<u8>, int)> {
    match take_u32(b, pos) {
        Some((n, p)) => if p + n <= b.len() {
            Some((b.subrange(p, p + n), p + n))
        } else {
            None
        },
        None => None,
    }
}

/// A length-prefixed UTF-8 text at `pos`, and the position after it.
pub open spec fn take_str(b: Seq<u8>, pos: int) -> Option<(Seq<char>, int)> {
    match take_bytes(b, pos) {
        Some((s, p)) => if valid_utf8(s) {
            Some((decode_utf8(s), p))
        } else {
            None
        },
        None => None,
    }
}

/// A flag byte at `pos`: 0 is false, 1 is true, any other value is refused.
pub open spec fn take_bool(b: Seq<u8>, pos: int) -> Option<(bool, int)> {
    match take_u8(b, pos) {
        Some((v, p)) => if v == 0 {
            Some((false, p))
        } else if v == 1 {
            Some((true, p))
        } else {
            None
        },
        None => None,
    }
}

pub open spec fn enc_bool(v: bool) -> Seq<u8> {
    if v {
        seq![1u8]
    } else {
        seq![0u8]
    }
}

/// Reading the four bytes of `x` gives `x` back.
pub proof fn lemma_le32_round_trip(x: u32)
    ensures
        u32_of_le(le32(x)[0], le32(x)[1], le32(x)[2], le32(x)[3]) == x,
{
    let a = (x & 0xff) as u8;
    let b = ((x >> 8u32) & 0xff) as u8;
    let c = ((x >> 16u32) & 0xff) as u8;
    let d = (x >> 24u32) as u8;
    assert((a as u32) | ((b as u32) << 8u32) | ((c as u32) << 16u32) | ((d as u32) << 24u32) == x)
        by (bit_vector)
        requires
            a == (x & 0xff) as u8,
            b == ((x >> 8u32) & 0xff) as u8,
            c == ((x >> 16u32) & 0xff) as u8,
            d == (x >> 24u32) as u8,
    ;
}

pub fn read_u8(b: &[u8], pos: usize) -> (r: Option<(u8, usize)>)
    ensures
        match r {
            Some((v, p)) => take_u8(b@, pos as int) == Some((v, p as int)),
            None => take_u8(b@, pos as int) is None,
        },
{
    if pos < b.len() {
        Some((b[pos], pos + 1))
    } else {
        None
    }
}

pub fn read_u32(b: &[u8], pos: usize) -> (r: Option<(u32, usize)>)
    ensures
        match r {
            Some((v, p)) => take_u32(b@, pos as int) == Some((v, p as int)),
            None => take_u32(b@, pos as int) is None,
        },
{
    if pos <= b.len() && b.len() - pos >= 4 {
        let v = (b[pos] as u32) | ((b[pos + 1] as u32) << 8u32) | ((b[pos + 2] as u32) << 16u32)
            | ((b[pos + 3] as u32) << 24u32);
        Some((v, pos + 4))
    } else {
        None
    }
}

pub fn read_bool(b: &[u8], pos: usize) -> (r: Option<(bool, usize)>)
    ensures
        match r {
            Some((v, p)) => take_bool(b@, pos as int) == Some((v, p as int)),
            None => take_bool(b@, pos as int) is None,
        },
{
    match read_u8(b, pos) {
        Some((v, p)) => if v == 0 {
            Some((false, p))
        } else if v == 1 {
            Some((true, p))
        } else {
            None
        },
        None => None,
    }
}

pub fn read_bytes(b: &[u8], pos: usize) -> (r: Option<(Vec<u8>, usize)>)
    ensures
        match r {
            Some((v, p)) => take_bytes(b@, pos as int) == Some((v@, p as int)),
            None => take_bytes(b@, pos as int) is None,
        },
{
    match read_u32(b, pos) {
        Some((n, p)) => if b.len() - p >= n as usize {
            let end = p + n as usize;
            let v = vstd::slice::slice_to_vec(vstd::slice::slice_subrange(b, p, end));
            Some((v, end))
        } else {
            None
        },
        None => None,
    }
}

/// Relies on std::str::from_utf8: it succeeds exactly on valid UTF-8, and the
/// text it gives has those bytes as its UTF-8 form.
#[verifier::external_body]
fn utf8_text(b: &[u8]) -> (r: Option<String>)
    ensures
        r is Some <==> valid_utf8(b@),
        r matches Some(s) ==> s@ == decode_utf8(b@),
{
    std::str::from_utf8(b).ok().map(|s| s.to_owned())
}

pub fn read_str(b: &[u8], pos: usize) -> (r: Option<(String, usize)>)
    ensures
        match r {
            Some((v, p)) => take_str(b@, pos as int) == Some((v@, p as int)),
            None => take_str(b@, pos as int) is None,
        },
{
    match read_bytes(b, pos) {
        Some((v, p)) => match utf8_text(v.as_slice()) {
            Some(s) => Some((s, p)),
            None => None,
        },
        None => None,
    }
}

/// Appends `b` to `out`.
pub fn put_bytes_raw(out: &mut Vec<u8>, b: &[u8])
    ensures
        final(out)@ == old(out)@ + b@,
{
    let mut i: usize = 0;
    while i < b.len()
        invariant
            i <= b@.len(),
            out@ == old(out)@ + b@.subrange(0, i as int),
        decreases b@.len() - i,
    {
        out.push(b[i]);
        i = i + 1;
        assert(b@.subrange(0, i as int) =~= b@.subrange(0, i - 1) + seq![b@[i - 1]]);
    }
    assert(b@.subrange(0, b@.len() as int) =~= b@);
}

pub fn put_u8(out: &mut Vec<u8>, v: u8)
    ensures
        final(out)@ == old(out)@ + seq![v],
{
    out.push(v);
    assert(out@ =~= old(out)@ + seq![v]);
}

pub fn put_bool(out: &mut Vec<u8>, v: bool)
    ensures
        final(out)@ == old(out)@ + enc_bool(v),
{
    put_u8(out, if v { 1u8 } else { 0u8 });
}

pub fn put_u32(out: &mut Vec<u8>, x: u32)
    ensures
        final(out)@ == old(out)@ + le32(x),
{
    out.push((x & 0xff) as u8);
    out.push(((x >> 8u32) & 0xff) as u8);
    out.push(((x >> 16u32) & 0xff) as u8);
    out.push((x >> 24u32) as u8);
    assert(out@ =~= old(out)@ + le32(x));
}

pub fn put_bytes(out: &mut Vec<u8>, b: &[u8])
    requires
        b@.len() <= u32::MAX,
    ensures
        final(out)@ == old(out)@ + enc_bytes(b@),
{
    put_u32(out, b.len() as u32);
    put_bytes_raw(out, b);
    assert(out@ =~= old(out)@ + enc_bytes(b@));
}

pub fn put_str(out: &mut Vec<u8>, s: &String)
    requires
        str_fits(s@),
    ensures
        final(out)@ == old(out)@ + enc_str(s@),
{
    let b = s.as_str().as_bytes();
    put_bytes(out, b);
}

} // verus!
