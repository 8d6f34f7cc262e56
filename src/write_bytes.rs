use vstd::prelude::*;
use vstd::utf8::encode_utf8;

verus! {

/// Big-endian bytes of a 16-bit number.
pub open spec fn u16_bytes(x: u16) -> Seq<u8> {
    seq![(x / 256) as u8, (x % 256) as u8]
}

/// Big-endian bytes of a 32-bit number.
pub open spec fn u32_bytes(x: u32) -> Seq<u8> {
    seq![(x / 0x100_0000) as u8, ((x / 0x1_0000) % 256) as u8, ((x / 256) % 256) as u8, (x % 256) as u8]
}

/// A string fits its 16-bit length prefix.
pub open spec fn str_fits(s: Seq<char>) -> bool {
    encode_utf8(s).len() <= 0xFFFF
}

/// A string as written: the byte length of its UTF-8 form, then that form.
pub open spec fn str_bytes(s: Seq<char>) -> Seq<u8> {
    u16_bytes(encode_utf8(s).len() as u16) + encode_utf8(s)
}

/// `p` stands in `b` from `pos` on.
pub open spec fn has_at(b: Seq<u8>, pos: int, p: Seq<u8>) -> bool {
    0 <= pos && pos + p.len() <= b.len() && b.subrange(pos, pos + p.len()) == p
}

/// The bytes of each element of `s` by `f`, one after the other.
pub open spec fn concat_bytes<A>(s: Seq<A>, f: spec_fn(A) -> Seq<u8>) -> Seq<u8>
    decreases s.len(),
{
    if s.len() == 0 {
        Seq::empty()
    } else {
        concat_bytes(s.drop_last(), f) + f(s.last())
    }
}

pub proof fn lemma_concat_push<A>(s: Seq<A>, x: A, f: spec_fn(A) -> Seq<u8>)
    ensures
        concat_bytes(s.push(x), f) == concat_bytes(s, f) + f(x),
{
    assert(s.push(x).drop_last() =~= s);
}

/// The bytes of a sequence split where the sequence is split.
pub proof fn lemma_concat_split<A>(s: Seq<A>, i: int, f: spec_fn(A) -> Seq<u8>)
    requires
        0 <= i <= s.len(),
    ensures
        concat_bytes(s, f) == concat_bytes(s.subrange(0, i), f) + concat_bytes(s.subrange(i, s.len() as int), f),
    decreases s.len() - i,
{
    if i == s.len() {
        assert(s.subrange(0, i) =~= s);
        assert(concat_bytes(s.subrange(i, s.len() as int), f) =~= Seq::<u8>::empty());
        assert(concat_bytes(s, f) + Seq::<u8>::empty() =~= concat_bytes(s, f));
    } else {
        lemma_concat_split(s, i + 1, f);
        assert(s.subrange(0, i + 1) =~= s.subrange(0, i).push(s[i]));
        lemma_concat_push(s.subrange(0, i), s[i], f);
        let tail = s.subrange(i, s.len() as int);
        lemma_concat_first(tail, f);
        assert(tail.subrange(1, tail.len() as int) =~= s.subrange(i + 1, s.len() as int));
        assert(concat_bytes(s, f) =~= concat_bytes(s.subrange(0, i), f) + concat_bytes(tail, f));
    }
}

/// The bytes of a non-empty sequence: those of its first element, then of the rest.
pub proof fn lemma_concat_first<A>(s: Seq<A>, f: spec_fn(A) -> Seq<u8>)
    requires
        s.len() > 0,
    ensures
        concat_bytes(s, f) == f(s[0]) + concat_bytes(s.subrange(1, s.len() as int), f),
    decreases s.len(),
{
    if s.len() == 1 {
        assert(s.drop_last() =~= Seq::<A>::empty());
        assert(s.subrange(1, 1) =~= Seq::<A>::empty());
        assert(concat_bytes(s.drop_last(), f) == Seq::<u8>::empty());
        assert(concat_bytes(s.subrange(1, 1), f) == Seq::<u8>::empty());
        assert(s.last() == s[0]);
        assert(concat_bytes(s, f) =~= f(s[0]) + Seq::<u8>::empty());
    } else {
        lemma_concat_first(s.drop_last(), f);
        assert(s.drop_last().subrange(1, s.len() - 1) =~= s.subrange(1, s.len() as int).drop_last());
        assert(s.subrange(1, s.len() as int).last() == s.last());
        assert(concat_bytes(s, f) =~= f(s[0]) + concat_bytes(s.subrange(1, s.len() as int), f));
    }
}

/// `x + y` stands at `pos` exactly where `x` does and `y` follows it.
pub proof fn lemma_has_at_concat(b: Seq<u8>, pos: int, x: Seq<u8>, y: Seq<u8>)
    ensures
        has_at(b, pos, x + y) <==> has_at(b, pos, x) && has_at(b, pos + x.len(), y),
{
    let xy = x + y;
    if has_at(b, pos, xy) {
        let w = b.subrange(pos, pos + xy.len());
        assert(w == xy);
        assert(b.subrange(pos, pos + x.len()) =~= w.subrange(0, x.len() as int));
        assert(w.subrange(0, x.len() as int) =~= x);
        assert(b.subrange(pos + x.len(), pos + x.len() + y.len()) =~= w.subrange(x.len() as int, xy.len() as int));
        assert(w.subrange(x.len() as int, xy.len() as int) =~= y);
    }
    if has_at(b, pos, x) && has_at(b, pos + x.len(), y) {
        assert(b.subrange(pos, pos + (x + y).len()) =~= x + y);
    }
}

pub fn write_u8(out: &mut Vec<u8>, value: u8)
    ensures
        final(out)@ == old(out)@.push(value),
{
    out.push(value);
}

pub fn write_u16(out: &mut Vec<u8>, value: u16)
    ensures
        final(out)@ == old(out)@ + u16_bytes(value),
{
    let hi = (value >> 8) as u8;
    let lo = (value & 0xFF) as u8;
    assert(hi == (value / 256) as u8 && lo == (value % 256) as u8) by (bit_vector)
        requires
            hi == (value >> 8) as u8,
            lo == (value & 0xFF) as u8,
    ;
    out.push(hi);
    out.push(lo);
    assert(out@ =~= old(out)@ + u16_bytes(value));
}

pub fn write_u32(out: &mut Vec<u8>, value: u32)
    ensures
        final(out)@ == old(out)@ + u32_bytes(value),
{
    let b0 = (value >> 24) as u8;
    let b1 = ((value >> 16) & 0xFF) as u8;
    let b2 = ((value >> 8) & 0xFF) as u8;
    let b3 = (value & 0xFF) as u8;
    assert(b0 == (value / 0x100_0000) as u8 && b1 == ((value / 0x1_0000) % 256) as u8 && b2 == ((
    value / 256) % 256) as u8 && b3 == (value % 256) as u8) by (bit_vector)
        requires
            b0 == (value >> 24) as u8,
            b1 == ((value >> 16) & 0xFF) as u8,
            b2 == ((value >> 8) & 0xFF) as u8,
            b3 == (value & 0xFF) as u8,
    ;
    out.push(b0);
    out.push(b1);
    out.push(b2);
    out.push(b3);
    assert(out@ =~= old(out)@ + u32_bytes(value));
}

/// Appends the bytes of `b`.
pub fn write_all(out: &mut Vec<u8>, b: &[u8])
    ensures
        final(out)@ == old(out)@ + b@,
{
    let mut i: usize = 0;
    while i < b.len()
        invariant
            i <= b@.len(),
            out@ == old(out)@ + b@.subrange(0, i as int),
        decreases b@.len() - i,
    {
        out.push(b[i]);
        i = i + 1;
        assert(out@ =~= old(out)@ + b@.subrange(0, i as int));
    }
    assert(b@.subrange(0, i as int) =~= b@);
}

/// Writes a string with its 16-bit length prefix.
pub fn write_str(out: &mut Vec<u8>, s: &str)
    requires
        str_fits(s@),
    ensures
        final(out)@ == old(out)@ + str_bytes(s@),
{
    let bytes = s.as_bytes();
    let n = bytes.len();
    write_u16(out, n as u16);
    write_all(out, bytes);
    assert(out@ =~= old(out)@ + str_bytes(s@));
}

} // verus!
