use vstd::prelude::*;
use vstd::string::StringExecFns;

use crate::heap::{Heap, Object};
use crate::value::{Value, TAG_ARRAY, TAG_BYTE, TAG_CLASS, TAG_DICT, TAG_FLOAT, TAG_INTEGER, TAG_STRING};

verus! {

/// A piece of printed text: characters, or a float that the host formats.
#[derive(Debug)]
pub enum Piece {
    Text(String),
    Float(u32),
}

pub enum PieceModel {
    Text(Seq<char>),
    Float(u32),
}

impl View for Piece {
    type V = PieceModel;

    open spec fn view(&self) -> PieceModel {
        match self {
            Piece::Text(s) => PieceModel::Text(s@),
            Piece::Float(f) => PieceModel::Float(*f),
        }
    }
}

pub open spec fn pieces_view(v: Seq<Piece>) -> Seq<PieceModel> {
    v.map_values(|p: Piece| p@)
}

pub open spec fn digit_char(d: nat) -> char {
    if d == 0 { '0' } else if d == 1 { '1' } else if d == 2 { '2' } else if d == 3 { '3' } else if d == 4 { '4' }
    else if d == 5 { '5' } else if d == 6 { '6' } else if d == 7 { '7' } else if d == 8 { '8' } else if d == 9 { '9' }
    else if d == 10 { 'a' } else if d == 11 { 'b' } else if d == 12 { 'c' } else if d == 13 { 'd' } else if d == 14 { 'e' }
    else { 'f' }
}

/// The decimal digits of `n`, the most significant first.
pub open spec fn decimal(n: nat) -> Seq<char>
    decreases n,
{
    if n < 10 {
        seq![digit_char(n)]
    } else {
        decimal(n / 10) + seq![digit_char(n % 10)]
    }
}

/// The last `width` hexadecimal digits of `n`, the most significant first.
pub open spec fn hex(n: nat, width: nat) -> Seq<char>
    decreases width,
{
    if width == 0 {
        Seq::empty()
    } else {
        hex(n / 16, (width - 1) as nat) + seq![digit_char(n % 16)]
    }
}

/// A number with its sign.
pub open spec fn signed_decimal(i: int) -> Seq<char> {
    if i < 0 {
        seq!['-'] + decimal((-i) as nat)
    } else {
        decimal(i as nat)
    }
}

/// The debug form of a value: a number, a float, or `@` and twelve hex digits of a handle.
pub open spec fn debug_piece(v: Value) -> PieceModel {
    if v.is_byte() {
        PieceModel::Text(decimal(v.spec_byte() as nat))
    } else if v.is_int() {
        PieceModel::Text(signed_decimal(v.spec_integer() as int))
    } else if v.is_float() {
        PieceModel::Float(v.spec_float_bits())
    } else {
        PieceModel::Text(seq!['@'] + hex(v.spec_payload() as nat, 12))
    }
}

fn digit_str(d: u64) -> (r: &'static str)
    requires
        d < 16,
    ensures
        r@ == seq![digit_char(d as nat)],
{
    proof {
        reveal_strlit("0");
        reveal_strlit("1");
        reveal_strlit("2");
        reveal_strlit("3");
        reveal_strlit("4");
        reveal_strlit("5");
        reveal_strlit("6");
        reveal_strlit("7");
        reveal_strlit("8");
        reveal_strlit("9");
        reveal_strlit("a");
        reveal_strlit("b");
        reveal_strlit("c");
        reveal_strlit("d");
        reveal_strlit("e");
        reveal_strlit("f");
    }
    let r = if d == 0 { "0" } else if d == 1 { "1" } else if d == 2 { "2" } else if d == 3 { "3" } else if d == 4 { "4" }
    else if d == 5 { "5" } else if d == 6 { "6" } else if d == 7 { "7" } else if d == 8 { "8" } else if d == 9 { "9" }
    else if d == 10 { "a" } else if d == 11 { "b" } else if d == 12 { "c" } else if d == 13 { "d" } else if d == 14 { "e" }
    else { "f" };
    assert(r@ =~= seq![digit_char(d as nat)]);
    r
}

/// Appends the decimal digits of `n`.
pub fn push_decimal(out: &mut String, n: u64)
    ensures
        final(out)@ == old(out)@ + decimal(n as nat),
    decreases n,
{
    if n >= 10 {
        push_decimal(out, n / 10);
    }
    out.append(digit_str(n % 10));
    assert(out@ =~= old(out)@ + decimal(n as nat));
}

/// Appends the last `width` hexadecimal digits of `n`.
pub fn push_hex(out: &mut String, n: u64, width: u64)
    ensures
        final(out)@ == old(out)@ + hex(n as nat, width as nat),
    decreases width,
{
    if width > 0 {
        push_hex(out, n / 16, width - 1);
        out.append(digit_str(n % 16));
        assert(out@ =~= old(out)@ + hex(n as nat, width as nat));
    } else {
        assert(out@ =~= old(out)@ + hex(n as nat, width as nat));
    }
}

/// The debug form of `v`.
pub fn debug_value(v: Value) -> (r: Piece)
    ensures
        r@ == debug_piece(v),
{
    let tag = v.tag();
    let mut s = String::new();
    if tag == TAG_BYTE {
        push_decimal(&mut s, v.byte() as u64);
        assert(s@ =~= decimal(v.spec_byte() as nat));
    } else if tag == TAG_INTEGER {
        let i = v.integer();
        if i < 0 {
            proof {
                reveal_strlit("-");
            }
            s.append("-");
            push_decimal(&mut s, (-(i as i64)) as u64);
            assert(s@ =~= signed_decimal(i as int));
        } else {
            push_decimal(&mut s, i as u64);
            assert(s@ =~= signed_decimal(i as int));
        }
    } else if tag == TAG_FLOAT {
        return Piece::Float(v.float_bits());
    } else {
        proof {
            reveal_strlit("@");
        }
        s.append("@");
        push_hex(&mut s, v.reference(), 12);
        assert(s@ =~= seq!['@'] + hex(v.spec_payload() as nat, 12));
    }
    Piece::Text(s)
}


/// The printed slots of an array: each in its debug form, then `;`.
pub open spec fn array_pieces(s: Seq<Value>) -> Seq<PieceModel>
    decreases s.len(),
{
    if s.len() == 0 {
        Seq::empty()
    } else {
        array_pieces(s.drop_last()) + seq![debug_piece(s.last()), PieceModel::Text(seq![';'])]
    }
}

/// The printed entries of a dictionary: key ` -> ` value `;`, in debug forms.
pub open spec fn dict_pieces(s: Seq<(Value, Value)>) -> Seq<PieceModel>
    decreases s.len(),
{
    if s.len() == 0 {
        Seq::empty()
    } else {
        dict_pieces(s.drop_last()) + seq![
            debug_piece(s.last().0),
            PieceModel::Text(seq![' ', '-', '>', ' ']),
            debug_piece(s.last().1),
            PieceModel::Text(seq![';']),
        ]
    }
}

/// How `std:out` prints `v`: null as `null`, a number as itself, a string as its text, an
/// array as `[` its slots `]`, a dictionary as `dict{` its entries `}`, an instance as
/// `class(` its handle `)`.
pub open spec fn display_pieces(heap: Heap, v: Value) -> Seq<PieceModel> {
    if v.0 == 0 {
        seq![PieceModel::Text(seq!['n', 'u', 'l', 'l'])]
    } else if v.spec_tag() == TAG_STRING {
        match heap.object(v.spec_payload() as int) {
            Object::String(o) => seq![PieceModel::Text(o.contents@)],
            _ => Seq::empty(),
        }
    } else if v.spec_tag() == TAG_ARRAY {
        match heap.object(v.spec_payload() as int) {
            Object::Array(a) => seq![PieceModel::Text(seq!['['])] + array_pieces(a.arr@) + seq![PieceModel::Text(seq![']'])],
            _ => Seq::empty(),
        }
    } else if v.spec_tag() == TAG_DICT {
        match heap.object(v.spec_payload() as int) {
            Object::Dict(d) => seq![PieceModel::Text(seq!['d', 'i', 'c', 't', '{'])] + dict_pieces(d.fields@)
                + seq![PieceModel::Text(seq!['}'])],
            _ => Seq::empty(),
        }
    } else if v.spec_tag() == TAG_CLASS {
        seq![PieceModel::Text(seq!['c', 'l', 'a', 's', 's', '(']), debug_piece(v), PieceModel::Text(seq![')'])]
    } else {
        seq![debug_piece(v)]
    }
}

fn text(s: &str) -> (r: Piece)
    ensures
        r@ == PieceModel::Text(s@),
{
    Piece::Text(String::from_str(s))
}

fn semicolon() -> (r: Piece)
    ensures
        r@ == PieceModel::Text(seq![';']),
{
    proof {
        reveal_strlit(";");
    }
    let r = text(";");
    assert(";"@ =~= seq![';']);
    r
}

fn arrow() -> (r: Piece)
    ensures
        r@ == PieceModel::Text(seq![' ', '-', '>', ' ']),
{
    proof {
        reveal_strlit(" -> ");
    }
    let r = text(" -> ");
    assert(" -> "@ =~= seq![' ', '-', '>', ' ']);
    r
}

/// What `std:out` prints for `v`, in pieces; the host formats the floats.
pub fn display_value(v: Value, heap: &Heap) -> (r: Vec<Piece>)
    requires
        heap.wf(),
        heap.valid_value(v),
    ensures
        pieces_view(r@) == display_pieces(*heap, v),
{
    let mut out: Vec<Piece> = Vec::new();
    let tag = v.tag();
    proof {
        reveal_strlit("null");
        reveal_strlit("[");
        reveal_strlit("]");
        reveal_strlit(";");
        reveal_strlit(" -> ");
        reveal_strlit("dict{");
        reveal_strlit("}");
        reveal_strlit("class(");
        reveal_strlit(")");
        crate::value::lemma_tag_bound(v.0);
        crate::value::lemma_word_of(0, 0);
    }
    if !v.is_not_null() {
        out.push(text("null"));
    } else if tag == TAG_STRING {
        match heap.string_contents(v) {
            Ok(c) => out.push(Piece::Text(c.clone())),
            Err(_) => {},
        }
    } else if tag == TAG_ARRAY {
        match heap.array_values(v) {
            Ok(arr) => {
                out.push(text("["));
                let mut i: usize = 0;
                proof {
                    assert("["@ =~= seq!['[']);
                    assert(arr@.subrange(0, 0) =~= Seq::<Value>::empty());
                    assert(pieces_view(out@) =~= seq![PieceModel::Text(seq!['['])] + array_pieces(arr@.subrange(0, 0)));
                }
                while i < arr.len()
                    invariant
                        i <= arr@.len(),
                        pieces_view(out@) == seq![PieceModel::Text(seq!['['])] + array_pieces(arr@.subrange(0, i as int)),
                    decreases arr@.len() - i,
                {
                    let ghost before = out@;
                    out.push(debug_value(arr[i]));
                    out.push(semicolon());
                    proof {
                        assert(arr@.subrange(0, i + 1).drop_last() =~= arr@.subrange(0, i as int));
                        assert(pieces_view(out@) =~= pieces_view(before) + seq![debug_piece(arr@[i as int]), PieceModel::Text(seq![';'])]);
                    }
                    i = i + 1;
                }
                out.push(text("]"));
                proof {
                    assert(arr@.subrange(0, i as int) =~= arr@);
                }
            },
            Err(_) => {},
        }
    } else if tag == TAG_DICT {
        match heap.dict_entries(v) {
            Ok(fields) => {
                out.push(text("dict{"));
                let mut i: usize = 0;
                proof {
                    assert("dict{"@ =~= seq!['d', 'i', 'c', 't', '{']);
                    assert(fields@.subrange(0, 0) =~= Seq::<(Value, Value)>::empty());
                    assert(pieces_view(out@) =~= seq![PieceModel::Text(seq!['d', 'i', 'c', 't', '{'])] + dict_pieces(fields@.subrange(0, 0)));
                }
                while i < fields.len()
                    invariant
                        i <= fields@.len(),
                        pieces_view(out@) == seq![PieceModel::Text(seq!['d', 'i', 'c', 't', '{'])] + dict_pieces(fields@.subrange(0, i as int)),
                    decreases fields@.len() - i,
                {
                    let ghost before = out@;
                    let (k, x) = fields[i];
                    out.push(debug_value(k));
                    out.push(arrow());
                    out.push(debug_value(x));
                    out.push(semicolon());
                    proof {
                        assert(fields@.subrange(0, i + 1).drop_last() =~= fields@.subrange(0, i as int));
                        assert(pieces_view(out@) =~= pieces_view(before) + seq![
                            debug_piece(k),
                            PieceModel::Text(seq![' ', '-', '>', ' ']),
                            debug_piece(x),
                            PieceModel::Text(seq![';']),
                        ]);
                    }
                    i = i + 1;
                }
                out.push(text("}"));
                proof {
                    assert(fields@.subrange(0, i as int) =~= fields@);
                }
            },
            Err(_) => {},
        }
    } else if tag == TAG_CLASS {
        out.push(text("class("));
        out.push(debug_value(v));
        out.push(text(")"));
    } else {
        out.push(debug_value(v));
    }
    proof {
        reveal_strlit("null");
        reveal_strlit("]");
        reveal_strlit("}");
        reveal_strlit("class(");
        reveal_strlit(")");
        assert("null"@ =~= seq!['n', 'u', 'l', 'l']);
        assert("]"@ =~= seq![']']);
        assert("}"@ =~= seq!['}']);
        assert("class("@ =~= seq!['c', 'l', 'a', 's', 's', '(']);
        assert(")"@ =~= seq![')']);
    }
    assert(pieces_view(out@) =~= display_pieces(*heap, v));
    out
}
} // verus!
