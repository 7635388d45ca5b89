use vstd::prelude::*;
use vstd::utf8::{decode_utf8, encode_utf8, valid_utf8};

verus! {

/// The eight bytes of `x`, most significant first.
pub open spec fn be8(x: u64) -> Seq<u8> {
    seq![
        (x >> 56u64) as u8,
        (x >> 48u64) as u8,
        (x >> 40u64) as u8,
        (x >> 32u64) as u8,
        (x >> 24u64) as u8,
        (x >> 16u64) as u8,
        (x >> 8u64) as u8,
        x as u8,
    ]
}

/// The number whose eight bytes, most significant first, start at `pos` in `b`.
pub open spec fn from_be8(b: Seq<u8>, pos: int) -> u64 {
    (b[pos] as u64) << 56u64 | (b[pos + 1] as u64) << 48u64 | (b[pos + 2] as u64) << 40u64 | (b[pos
        + 3] as u64) << 32u64 | (b[pos + 4] as u64) << 24u64 | (b[pos + 5] as u64) << 16u64 | (b[pos
        + 6] as u64) << 8u64 | (b[pos + 7] as u64)
}

/// A string on the wire: the length of its UTF-8 bytes, then those bytes.
pub open spec fn enc_str(s: Seq<char>) -> Seq<u8> {
    be8(encode_utf8(s).len() as u64) + encode_utf8(s)
}

/// The byte at `pos`, and the position after it.
pub open spec fn parse_byte(b: Seq<u8>, pos: int) -> Option<(u8, int)> {
    if 0 <= pos < b.len() {
        Some((b[pos], pos + 1))
    } else {
        None
    }
}

/// The number at `pos`, and the position after it.
pub open spec fn parse_u64(b: Seq<u8>, pos: int) -> Option<(u64, int)> {
    if 0 <= pos && pos + 8 <= b.len() {
        Some((from_be8(b, pos), pos + 8))
    } else {
        None
    }
}

/// The string at `pos`, and the position after it: its length must fit in `b` and its
/// bytes must be valid UTF-8.
pub open spec fn parse_str(b: Seq<u8>, pos: int) -> Option<(Seq<char>, int)> {
    match parse_u64(b, pos) {
        Some((n, p)) => if p + n <= b.len() && valid_utf8(b.subrange(p, p + n)) {
            Some((decode_utf8(b.subrange(p, p + n)), p + n))
        } else {
            None
        },
        None => None,
    }
}

/// A string whose UTF-8 bytes can be counted in a `u64`.
pub open spec fn str_fits(s: Seq<char>) -> bool {
    encode_utf8(s).len() <= u64::MAX
}

pub proof fn lemma_be8_round_trip(x: u64)
    ensures
        from_be8(be8(x), 0) == x,
{
    let b = be8(x);
    assert(((((x >> 56u64) as u8) as u64) << 56u64 | (((x >> 48u64) as u8) as u64) << 48u64 | (((x
        >> 40u64) as u8) as u64) << 40u64 | (((x >> 32u64) as u8) as u64) << 32u64 | (((x
        >> 24u64) as u8) as u64) << 24u64 | (((x >> 16u64) as u8) as u64) << 16u64 | (((x
        >> 8u64) as u8) as u64) << 8u64 | ((x as u8) as u64)) == x) by (bit_vector);
}

/// Where the bytes at `pos` are the encoding of `x`, parsing reads `x` back.
pub proof fn lemma_parse_u64(b: Seq<u8>, pos: int, x: u64)
    requires
        0 <= pos,
        pos + 8 <= b.len(),
        b.subrange(pos, pos + 8) == be8(x),
    ensures
        parse_u64(b, pos) == Some((x, pos + 8)),
{
    lemma_be8_round_trip(x);
    let s = b.subrange(pos, pos + 8);
    assert(forall|i: int| 0 <= i < 8 ==> b[pos + i] == s[i]);
    assert(from_be8(b, pos) == from_be8(s, 0));
}

/// Where the bytes at `pos` are the encoding of `s`, parsing reads `s` back.
pub proof fn lemma_parse_str(b: Seq<u8>, pos: int, s: Seq<char>)
    requires
        0 <= pos,
        str_fits(s),
        pos + enc_str(s).len() <= b.len(),
        b.subrange(pos, pos + enc_str(s).len()) == enc_str(s),
    ensures
        parse_str(b, pos) == Some((s, pos + enc_str(s).len())),
{
    let e = encode_utf8(s);
    let n = e.len();
    let whole = b.subrange(pos, pos + enc_str(s).len());
    assert(b.subrange(pos, pos + 8) =~= whole.subrange(0, 8));
    assert(whole.subrange(0, 8) =~= be8(n as u64));
    lemma_parse_u64(b, pos, n as u64);
    assert(b.subrange(pos + 8, pos + 8 + n) =~= whole.subrange(8, 8 + n as int));
    assert(whole.subrange(8, 8 + n as int) =~= e);
    vstd::utf8::encode_utf8_valid_utf8(s);
    vstd::utf8::encode_utf8_decode_utf8(s);
}

/// Relies on `String::from_utf8`: it accepts exactly the valid UTF-8 byte sequences,
/// and the string it gives holds the characters those bytes encode.
#[verifier::external_body]
fn string_from_utf8(bytes: Vec<u8>) -> (r: Option<String>)
    ensures
        r.is_some() == valid_utf8(bytes@),
        r.is_some() ==> r.unwrap()@ == decode_utf8(bytes@),
{
    String::from_utf8(bytes).ok()
}

/// Appends the eight bytes of `x`.
pub fn push_u64(out: &mut Vec<u8>, x: u64)
    ensures
        final(out)@ == old(out)@ + be8(x),
{
    out.push((x >> 56u64) as u8);
    out.push((x >> 48u64) as u8);
    out.push((x >> 40u64) as u8);
    out.push((x >> 32u64) as u8);
    out.push((x >> 24u64) as u8);
    out.push((x >> 16u64) as u8);
    out.push((x >> 8u64) as u8);
    out.push(x as u8);
    assert(final(out)@ =~= old(out)@ + be8(x));
}

/// Appends the encoding of `s`.
pub fn push_str(out: &mut Vec<u8>, s: &String)
    ensures
        final(out)@ == old(out)@ + enc_str(s@),
        str_fits(s@),
{
    let bytes = s.as_str().as_bytes();
    let n = bytes.len();
    push_u64(out, n as u64);
    let ghost mid = out@;
    let mut i: usize = 0;
    while i < n
        invariant
            n == bytes@.len(),
            bytes@ == encode_utf8(s@),
            0 <= i <= n,
            out@ == mid + bytes@.subrange(0, i as int),
        decreases n - i,
    {
        out.push(bytes[i]);
        i = i + 1;
        assert(out@ =~= mid + bytes@.subrange(0, i as int));
    }
    assert(bytes@.subrange(0, n as int) =~= bytes@);
    assert(final(out)@ =~= old(out)@ + enc_str(s@));
}

/// Reads the byte at `pos`.
pub fn read_byte(b: &Vec<u8>, pos: usize) -> (r: Option<(u8, usize)>)
    ensures
        match r {
            Some((x, p)) => parse_byte(b@, pos as int) == Some((x, p as int)),
            None => parse_byte(b@, pos as int) is None,
        },
{
    if pos < b.len() {
        Some((b[pos], pos + 1))
    } else {
        None
    }
}

/// Reads the number at `pos`.
pub fn read_u64(b: &Vec<u8>, pos: usize) -> (r: Option<(u64, usize)>)
    ensures
        match r {
            Some((x, p)) => parse_u64(b@, pos as int) == Some((x, p as int)),
            None => parse_u64(b@, pos as int) is None,
        },
{
    if pos <= b.len() && b.len() - pos >= 8 {
        let x = (b[pos] as u64) << 56u64 | (b[pos + 1] as u64) << 48u64 | (b[pos + 2] as u64)
            << 40u64 | (b[pos + 3] as u64) << 32u64 | (b[pos + 4] as u64) << 24u64 | (b[pos
            + 5] as u64) << 16u64 | (b[pos + 6] as u64) << 8u64 | (b[pos + 7] as u64);
        Some((x, pos + 8))
    } else {
        None
    }
}

/// Reads the string at `pos`.
pub fn read_str(b: &Vec<u8>, pos: usize) -> (r: Option<(String, usize)>)
    ensures
        match r {
            Some((s, p)) => parse_str(b@, pos as int) == Some((s@, p as int)),
            None => parse_str(b@, pos as int) is None,
        },
{
    match read_u64(b, pos) {
        None => None,
        Some((n, p)) => {
            if n as u128 > (b.len() - p) as u128 {
                return None;
            }
            let end = p + n as usize;
            let mut bytes: Vec<u8> = Vec::new();
            let mut i: usize = p;
            while i < end
                invariant
                    p <= i <= end,
                    end <= b@.len(),
                    bytes@ == b@.subrange(p as int, i as int),
                decreases end - i,
            {
                bytes.push(b[i]);
                i = i + 1;
                assert(bytes@ =~= b@.subrange(p as int, i as int));
            }
            match string_from_utf8(bytes) {
                Some(s) => Some((s, end)),
                None => None,
            }
        },
    }
}

} // verus!
