use vstd::prelude::*;
use vstd::utf8::{encode_utf8, valid_utf8};

use crate::error::Error;
use crate::write_bytes::{has_at, str_bytes, str_fits, u16_bytes, u32_bytes};

verus! {

/// Relies on `String::from_utf8`: it succeeds exactly on valid UTF-8, and the string holds
/// those bytes.
#[verifier::external_body]
fn string_from_utf8(bytes: Vec<u8>) -> (r: Option<String>)
    ensures
        r is Some <==> valid_utf8(bytes@),
        r matches Some(s) ==> encode_utf8(s@) == bytes@,
{
    String::from_utf8(bytes).ok()
}

pub fn read_u8(b: &[u8], pos: usize) -> (r: Result<(u8, usize), Error>)
    ensures
        pos + 1 <= b@.len() ==> r == Ok::<(u8, usize), Error>((b@[pos as int], (pos + 1) as usize)),
        pos + 1 > b@.len() ==> r == Err::<(u8, usize), Error>(Error::MalformedModule),
{
    if pos < b.len() {
        Ok((b[pos], pos + 1))
    } else {
        Err(Error::MalformedModule)
    }
}

proof fn lemma_u16_bytes(hi: u8, lo: u8, v: u16)
    requires
        v == hi as int * 256 + lo as int,
    ensures
        u16_bytes(v) == seq![hi, lo],
        forall|w: u16| u16_bytes(w) == seq![hi, lo] ==> w == v,
{
    assert(u16_bytes(v) =~= seq![hi, lo]);
    assert forall|w: u16| u16_bytes(w) == seq![hi, lo] implies w == v by {
        assert(u16_bytes(w)[0] == hi && u16_bytes(w)[1] == lo);
    }
}

pub fn read_u16(b: &[u8], pos: usize) -> (r: Result<(u16, usize), Error>)
    ensures
        pos + 2 <= b@.len() ==> (r matches Ok((v, p)) && p == pos + 2 && has_at(b@, pos as int, u16_bytes(v))),
        pos + 2 > b@.len() ==> r == Err::<(u16, usize), Error>(Error::MalformedModule),
        forall|w: u16| #[trigger] has_at(b@, pos as int, u16_bytes(w)) ==> r == Ok::<(u16, usize), Error>((w, (pos + 2) as usize)),
{
    if pos >= b.len() || b.len() - pos < 2 {
        return Err(Error::MalformedModule);
    }
    let hi = b[pos];
    let lo = b[pos + 1];
    let v: u16 = (hi as u16) * 256 + lo as u16;
    proof {
        lemma_u16_bytes(hi, lo, v);
        assert(b@.subrange(pos as int, pos + 2) =~= seq![hi, lo]);
    }
    Ok((v, pos + 2))
}

proof fn lemma_u32_bytes(b0: u8, b1: u8, b2: u8, b3: u8, v: u32)
    requires
        v == b0 as int * 0x100_0000 + b1 as int * 0x1_0000 + b2 as int * 256 + b3 as int,
    ensures
        u32_bytes(v) == seq![b0, b1, b2, b3],
        forall|w: u32| u32_bytes(w) == seq![b0, b1, b2, b3] ==> w == v,
{
    assert((v / 0x100_0000) as u8 == b0 && ((v / 0x1_0000) % 256) as u8 == b1 && ((v / 256) % 256) as u8 == b2
        && (v % 256) as u8 == b3) by (nonlinear_arith)
        requires
            v == b0 as int * 0x100_0000 + b1 as int * 0x1_0000 + b2 as int * 256 + b3 as int,
            b0 < 256, b1 < 256, b2 < 256, b3 < 256,
    ;
    assert(u32_bytes(v) =~= seq![b0, b1, b2, b3]);
    assert forall|w: u32| u32_bytes(w) == seq![b0, b1, b2, b3] implies w == v by {
        assert(u32_bytes(w)[0] == b0 && u32_bytes(w)[1] == b1 && u32_bytes(w)[2] == b2 && u32_bytes(w)[3] == b3);
        assert(w == ((w / 0x100_0000) as u8) as int * 0x100_0000 + (((w / 0x1_0000) % 256) as u8) as int * 0x1_0000
            + (((w / 256) % 256) as u8) as int * 256 + ((w % 256) as u8) as int) by (nonlinear_arith)
            requires w < 0x1_0000_0000;
    }
}

pub fn read_u32(b: &[u8], pos: usize) -> (r: Result<(u32, usize), Error>)
    ensures
        pos + 4 <= b@.len() ==> (r matches Ok((v, p)) && p == pos + 4 && has_at(b@, pos as int, u32_bytes(v))),
        pos + 4 > b@.len() ==> r == Err::<(u32, usize), Error>(Error::MalformedModule),
        forall|w: u32| #[trigger] has_at(b@, pos as int, u32_bytes(w)) ==> r == Ok::<(u32, usize), Error>((w, (pos + 4) as usize)),
{
    if pos >= b.len() || b.len() - pos < 4 {
        return Err(Error::MalformedModule);
    }
    let b0 = b[pos];
    let b1 = b[pos + 1];
    let b2 = b[pos + 2];
    let b3 = b[pos + 3];
    let v: u32 = (b0 as u32) * 0x100_0000 + (b1 as u32) * 0x1_0000 + (b2 as u32) * 256 + b3 as u32;
    proof {
        lemma_u32_bytes(b0, b1, b2, b3, v);
        assert(b@.subrange(pos as int, pos + 4) =~= seq![b0, b1, b2, b3]);
    }
    Ok((v, pos + 4))
}

/// Reads a string with its 16-bit length prefix; fails where the bytes run out or are not UTF-8.
pub fn read_string(b: &[u8], pos: usize) -> (r: Result<(String, usize), Error>)
    ensures
        r matches Ok((s, p)) ==> str_fits(s@) && p == pos + str_bytes(s@).len() && has_at(b@, pos as int, str_bytes(s@)),
        r is Err ==> r == Err::<(String, usize), Error>(Error::MalformedModule),
        forall|t: Seq<char>| str_fits(t) && #[trigger] has_at(b@, pos as int, str_bytes(t)) ==> (r matches Ok((s, p)) && s@ == t),
{
    let (len, p) = read_u16(b, pos)?;
    let n = len as usize;
    if p > b.len() || b.len() - p < n {
        proof {
            assert forall|t: Seq<char>| str_fits(t) implies !#[trigger] has_at(b@, pos as int, str_bytes(t)) by {
                if has_at(b@, pos as int, str_bytes(t)) {
                    assert(b@.subrange(pos as int, pos + 2) =~= str_bytes(t).subrange(0, 2));
                    assert(str_bytes(t).subrange(0, 2) =~= u16_bytes(encode_utf8(t).len() as u16));
                }
            }
        }
        return Err(Error::MalformedModule);
    }
    let blen = b.len();
    let mut buf: Vec<u8> = Vec::new();
    let mut i: usize = 0;
    while i < n
        invariant
            i <= n,
            p + n <= b@.len(),
            blen == b@.len(),
            buf@ == b@.subrange(p as int, p + i),
        decreases n - i,
    {
        buf.push(b[p + i]);
        i = i + 1;
        assert(buf@ =~= b@.subrange(p as int, p + i));
    }
    let ghost bytes = buf@;
    proof {
        assert forall|t: Seq<char>| str_fits(t) && #[trigger] has_at(b@, pos as int, str_bytes(t)) implies encode_utf8(t) == bytes by {
            let e = encode_utf8(t);
            assert(b@.subrange(pos as int, pos + 2) =~= str_bytes(t).subrange(0, 2));
            assert(str_bytes(t).subrange(0, 2) =~= u16_bytes(e.len() as u16));
            assert(e.len() == n);
            assert(bytes =~= str_bytes(t).subrange(2, 2 + n as int));
            assert(str_bytes(t).subrange(2, 2 + n as int) =~= e);
            vstd::utf8::encode_utf8_valid_utf8(t);
        }
    }
    match string_from_utf8(buf) {
        Some(s) => {
            proof {
                assert(str_fits(s@));
                assert(b@.subrange(pos as int, pos + 2 + n) =~= str_bytes(s@));
                assert forall|t: Seq<char>| str_fits(t) && #[trigger] has_at(b@, pos as int, str_bytes(t)) implies s@ == t by {
                    vstd::utf8::encode_utf8_decode_utf8(t);
                    vstd::utf8::encode_utf8_decode_utf8(s@);
                }
            }
            Ok((s, p + n))
        },
        None => {
            proof {
                assert forall|t: Seq<char>| str_fits(t) implies !#[trigger] has_at(b@, pos as int, str_bytes(t)) by {
                    if has_at(b@, pos as int, str_bytes(t)) {
                        vstd::utf8::encode_utf8_valid_utf8(t);
                    }
                }
            }
            Err(Error::MalformedModule)
        },
    }
}

} // verus!
