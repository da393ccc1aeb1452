//! Field encodings shared by the stored entities: fixed-width little-endian
//! integers, one-byte booleans, raw 32-byte keys, and text as a 4-byte
//! little-endian length followed by its UTF-8 bytes.
use vstd::bytes::*;
use vstd::prelude::*;
use vstd::utf8::*;

use crate::pubkey::Pubkey;

verus! {

broadcast use vstd::utf8::encode_utf8_valid_utf8, vstd::utf8::encode_utf8_decode_utf8;

/// `f` occurs in `b` starting at index `pos`.
pub open spec fn at(b: Seq<u8>, pos: int, f: Seq<u8>) -> bool {
    0 <= pos && pos + f.len() <= b.len() && b.subrange(pos, pos + f.len()) == f
}

pub open spec fn i64_bytes(v: i64) -> Seq<u8> {
    spec_u64_to_le_bytes(v as u64)
}

pub open spec fn bool_bytes(v: bool) -> Seq<u8> {
    if v {
        seq![1u8]
    } else {
        seq![0u8]
    }
}

/// The UTF-8 form of the text is short enough for its 4-byte length prefix.
pub open spec fn text_fits(s: Seq<char>) -> bool {
    encode_utf8(s).len() <= u32::MAX
}

pub open spec fn text_bytes(s: Seq<char>) -> Seq<u8> {
    spec_u32_to_le_bytes(encode_utf8(s).len() as u32) + encode_utf8(s)
}

pub proof fn lemma_at_concat(b: Seq<u8>, pos: int, f: Seq<u8>, g: Seq<u8>)
    ensures
        at(b, pos, f + g) <==> (at(b, pos, f) && at(b, pos + f.len(), g)),
{
    if at(b, pos, f) && at(b, pos + f.len(), g) {
        assert(b.subrange(pos, pos + (f + g).len()) =~= f + g);
    }
    if at(b, pos, f + g) {
        assert(b.subrange(pos, pos + f.len()) =~= (f + g).subrange(0, f.len() as int));
        assert((f + g).subrange(0, f.len() as int) =~= f);
        assert(b.subrange(pos + f.len(), pos + f.len() + g.len()) =~= (f + g).subrange(
            f.len() as int,
            (f + g).len() as int,
        ));
        assert((f + g).subrange(f.len() as int, (f + g).len() as int) =~= g);
    }
}

pub proof fn lemma_i64_bytes_len(v: i64)
    ensures
        i64_bytes(v).len() == 8,
{
    lemma_auto_spec_u64_to_from_le_bytes();
}

pub proof fn lemma_text_bytes_len(s: Seq<char>)
    ensures
        text_bytes(s).len() == 4 + encode_utf8(s).len(),
{
    lemma_auto_spec_u32_to_from_le_bytes();
}

/// A boolean encoded at `pos` is the byte there, 0 or 1.
pub proof fn lemma_bool_at(b: Seq<u8>, pos: int, v: bool)
    requires
        at(b, pos, bool_bytes(v)),
    ensures
        pos + 1 <= b.len(),
        b[pos] == (if v {
            1u8
        } else {
            0u8
        }),
{
    assert(b.subrange(pos, pos + 1)[0] == b[pos]);
}

/// At most one integer is encoded at a given position.
pub proof fn lemma_i64_unique(b: Seq<u8>, pos: int, x: i64, y: i64)
    requires
        at(b, pos, i64_bytes(x)),
        at(b, pos, i64_bytes(y)),
    ensures
        x == y,
{
    lemma_auto_spec_u64_to_from_le_bytes();
    assert(i64_bytes(x) == i64_bytes(y));
    let ux = x as u64;
    let uy = y as u64;
    assert(spec_u64_from_le_bytes(spec_u64_to_le_bytes(ux)) == ux);
    assert(ux == uy);
    assert(ux == uy ==> x == y) by (bit_vector)
        requires
            ux == x as u64,
            uy == y as u64,
    ;
}

/// At most one text that fits is encoded at a given position.
pub proof fn lemma_text_unique(b: Seq<u8>, pos: int, s: Seq<char>, t: Seq<char>)
    requires
        text_fits(s),
        text_fits(t),
        at(b, pos, text_bytes(s)),
        at(b, pos, text_bytes(t)),
    ensures
        s == t,
{
    lemma_auto_spec_u32_to_from_le_bytes();
    let ls = encode_utf8(s).len() as u32;
    let lt = encode_utf8(t).len() as u32;
    lemma_at_concat(b, pos, spec_u32_to_le_bytes(ls), encode_utf8(s));
    lemma_at_concat(b, pos, spec_u32_to_le_bytes(lt), encode_utf8(t));
    assert(spec_u32_to_le_bytes(ls) == spec_u32_to_le_bytes(lt));
    assert(spec_u32_from_le_bytes(spec_u32_to_le_bytes(ls)) == ls);
    assert(ls == lt);
    assert(encode_utf8(s) == encode_utf8(t));
    assert(decode_utf8(encode_utf8(s)) == s);
    assert(decode_utf8(encode_utf8(t)) == t);
}

/// Appends the bytes of `src` to `out`.
pub fn append_bytes(out: &mut Vec<u8>, src: &[u8])
    ensures
        final(out)@ == old(out)@ + src@,
{
    let mut i: usize = 0;
    while i < src.len()
        invariant
            i <= src@.len(),
            out@ == old(out)@ + src@.subrange(0, i as int),
        decreases src@.len() - i,
    {
        out.push(src[i]);
        i = i + 1;
        assert(out@ =~= old(out)@ + src@.subrange(0, i as int));
    }
    assert(src@.subrange(0, i as int) =~= src@);
}

pub fn write_key(out: &mut Vec<u8>, k: &Pubkey)
    ensures
        final(out)@ == old(out)@ + k@,
{
    append_bytes(out, vstd::array::array_as_slice(&k.bytes));
}

pub fn write_i64(out: &mut Vec<u8>, v: i64)
    ensures
        final(out)@ == old(out)@ + i64_bytes(v),
{
    let bytes = u64_to_le_bytes(v as u64);
    append_bytes(out, bytes.as_slice());
}

pub fn write_bool(out: &mut Vec<u8>, v: bool)
    ensures
        final(out)@ == old(out)@ + bool_bytes(v),
{
    if v {
        out.push(1u8);
    } else {
        out.push(0u8);
    }
}

pub fn write_text(out: &mut Vec<u8>, s: &String)
    requires
        text_fits(s@),
    ensures
        final(out)@ == old(out)@ + text_bytes(s@),
{
    let bytes = s.as_str().as_bytes();
    let len = u32_to_le_bytes(bytes.len() as u32);
    append_bytes(out, len.as_slice());
    append_bytes(out, bytes);
    assert(out@ =~= old(out)@ + text_bytes(s@));
}

/// Relies on `String::from_utf8`: it accepts exactly the byte strings that
/// are valid UTF-8, and the text it returns has those bytes as its encoding.
#[verifier::external_body]
fn text_from_utf8(b: &[u8]) -> (r: Option<String>)
    ensures
        r.is_some() == valid_utf8(b@),
        r.is_some() ==> r.unwrap()@ == decode_utf8(b@),
{
    String::from_utf8(b.to_vec()).ok()
}

/// Reads a key at `pos`; fails only where fewer than 32 bytes remain.
pub fn read_key(b: &[u8], pos: usize) -> (r: Option<Pubkey>)
    ensures
        r.is_none() == (pos + 32 > b@.len()),
        r.is_some() ==> at(b@, pos as int, r.unwrap()@),
{
    if pos > b.len() || b.len() - pos < 32 {
        return None;
    }
    let mut bytes: [u8; 32] = [0u8; 32];
    let mut i: usize = 0;
    while i < 32
        invariant
            i <= 32,
            pos + 32 <= b@.len(),
            b@.len() <= usize::MAX,
            bytes@.len() == 32,
            forall|j: int| 0 <= j < i ==> bytes@[j] == b@[pos + j],
        decreases 32 - i,
    {
        bytes[i] = b[pos + i];
        i = i + 1;
    }
    let k = Pubkey { bytes };
    assert(b@.subrange(pos as int, pos + 32) =~= k@);
    Some(k)
}

/// Reads an integer at `pos`; fails only where fewer than 8 bytes remain.
pub fn read_i64(b: &[u8], pos: usize) -> (r: Option<i64>)
    ensures
        r.is_none() == (pos + 8 > b@.len()),
        r.is_some() ==> at(b@, pos as int, i64_bytes(r.unwrap())),
{
    if pos > b.len() || b.len() - pos < 8 {
        return None;
    }
    let raw = u64_from_le_bytes(vstd::slice::slice_subrange(b, pos, pos + 8));
    let v = raw as i64;
    proof {
        lemma_auto_spec_u64_to_from_le_bytes();
        assert((raw as i64) as u64 == raw) by (bit_vector);
        assert(spec_u64_to_le_bytes(spec_u64_from_le_bytes(b@.subrange(pos as int, pos + 8)))
            == b@.subrange(pos as int, pos + 8));
    }
    Some(v)
}

/// Reads a boolean at `pos`; fails where no byte remains or the byte is
/// neither 0 nor 1.
pub fn read_bool(b: &[u8], pos: usize) -> (r: Option<bool>)
    ensures
        r.is_none() == (pos + 1 > b@.len() || b@[pos as int] > 1),
        r.is_some() ==> at(b@, pos as int, bool_bytes(r.unwrap())),
{
    if pos >= b.len() {
        return None;
    }
    let v = b[pos];
    if v == 0 {
        assert(b@.subrange(pos as int, pos + 1) =~= bool_bytes(false));
        Some(false)
    } else if v == 1 {
        assert(b@.subrange(pos as int, pos + 1) =~= bool_bytes(true));
        Some(true)
    } else {
        None
    }
}

/// Reads a text at `pos`, with the position just past it; fails exactly
/// where no text is encoded there.
pub fn read_text(b: &[u8], pos: usize) -> (r: Option<(String, usize)>)
    ensures
        r.is_some() ==> ({
            let (s, next) = r.unwrap();
            &&& text_fits(s@)
            &&& at(b@, pos as int, text_bytes(s@))
            &&& next == pos + text_bytes(s@).len()
        }),
        r.is_none() ==> forall|s: Seq<char>|
            text_fits(s) ==> !#[trigger] at(b@, pos as int, text_bytes(s)),
{
    proof {
        lemma_auto_spec_u32_to_from_le_bytes();
    }
    if pos > b.len() || b.len() - pos < 4 {
        return None;
    }
    let n = u32_from_le_bytes(vstd::slice::slice_subrange(b, pos, pos + 4));
    let start = pos + 4;
    if b.len() - start < n as usize {
        proof {
            assert forall|s: Seq<char>| text_fits(s) implies !#[trigger] at(
                b@,
                pos as int,
                text_bytes(s),
            ) by {
                if at(b@, pos as int, text_bytes(s)) {
                    self::lemma_text_prefix(b@, pos as int, s);
                }
            }
        }
        return None;
    }
    let end = start + n as usize;
    let body = vstd::slice::slice_subrange(b, start, end);
    match text_from_utf8(body) {
        Some(s) => {
            proof {
                decode_utf8_encode_utf8(body@);
                assert(encode_utf8(s@) == body@);
                assert(spec_u32_to_le_bytes(n) == b@.subrange(pos as int, pos + 4));
                assert(b@.subrange(pos as int, end as int) =~= b@.subrange(pos as int, pos + 4)
                    + body@);
            }
            Some((s, end))
        },
        None => {
            proof {
                assert forall|s: Seq<char>| text_fits(s) implies !#[trigger] at(
                    b@,
                    pos as int,
                    text_bytes(s),
                ) by {
                    if at(b@, pos as int, text_bytes(s)) {
                        self::lemma_text_prefix(b@, pos as int, s);
                        assert(encode_utf8(s) == body@);
                    }
                }
            }
            None
        },
    }
}

/// Where a text is encoded at `pos`, its length prefix is the 4 bytes there
/// and its UTF-8 bytes follow.
proof fn lemma_text_prefix(b: Seq<u8>, pos: int, s: Seq<char>)
    requires
        text_fits(s),
        at(b, pos, text_bytes(s)),
    ensures
        spec_u32_from_le_bytes(b.subrange(pos, pos + 4)) == encode_utf8(s).len(),
        at(b, pos + 4, encode_utf8(s)),
{
    lemma_auto_spec_u32_to_from_le_bytes();
    let l = encode_utf8(s).len() as u32;
    lemma_at_concat(b, pos, spec_u32_to_le_bytes(l), encode_utf8(s));
    assert(b.subrange(pos, pos + 4) == spec_u32_to_le_bytes(l));
}

} // verus!
