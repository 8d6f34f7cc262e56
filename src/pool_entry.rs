use vstd::prelude::*;

use crate::error::Error;
use crate::read_bytes::{read_string, read_u32, read_u8};
use crate::write_bytes::{
    concat_bytes, has_at, lemma_concat_first, lemma_concat_push, lemma_concat_split,
    lemma_has_at_concat, str_bytes, str_fits, u32_bytes, write_str, write_u32, write_u8,
};

verus! {

pub const TAG_STRING: u8 = 1;

pub const TAG_INTEGER: u8 = 2;

pub const TAG_MODULE: u8 = 3;

pub const TAG_FLOAT: u8 = 4;

pub const TAG_FUNCTION: u8 = 5;

pub const TAG_CLASS: u8 = 6;

pub const TAG_FIELD: u8 = 7;

/// An item of a constant pool. A float is held as its IEEE-754 binary32 bit pattern.
#[derive(Clone, Debug)]
pub enum PoolEntry {
    String(String),
    Integer(i32),
    Module(String),
    Float(u32),
    Function(String),
    Class(String),
    Field(String),
}

/// What a pool entry holds, with its text as characters.
pub enum EntryModel {
    String(Seq<char>),
    Integer(i32),
    Module(Seq<char>),
    Float(u32),
    Function(Seq<char>),
    Class(Seq<char>),
    Field(Seq<char>),
}

impl View for PoolEntry {
    type V = EntryModel;

    open spec fn view(&self) -> EntryModel {
        match self {
            PoolEntry::String(s) => EntryModel::String(s@),
            PoolEntry::Integer(i) => EntryModel::Integer(*i),
            PoolEntry::Module(s) => EntryModel::Module(s@),
            PoolEntry::Float(f) => EntryModel::Float(*f),
            PoolEntry::Function(s) => EntryModel::Function(s@),
            PoolEntry::Class(s) => EntryModel::Class(s@),
            PoolEntry::Field(s) => EntryModel::Field(s@),
        }
    }
}

/// Every text of the entry fits its length prefix.
pub open spec fn entry_fits(e: EntryModel) -> bool {
    match e {
        EntryModel::String(s) => str_fits(s),
        EntryModel::Module(s) => str_fits(s),
        EntryModel::Function(s) => str_fits(s),
        EntryModel::Class(s) => str_fits(s),
        EntryModel::Field(s) => str_fits(s),
        _ => true,
    }
}

/// An entry as written: its tag, then its payload.
pub open spec fn entry_bytes(e: EntryModel) -> Seq<u8> {
    match e {
        EntryModel::String(s) => seq![TAG_STRING] + str_bytes(s),
        EntryModel::Integer(i) => seq![TAG_INTEGER] + u32_bytes(i as u32),
        EntryModel::Module(s) => seq![TAG_MODULE] + str_bytes(s),
        EntryModel::Float(f) => seq![TAG_FLOAT] + u32_bytes(f),
        EntryModel::Function(s) => seq![TAG_FUNCTION] + str_bytes(s),
        EntryModel::Class(s) => seq![TAG_CLASS] + str_bytes(s),
        EntryModel::Field(s) => seq![TAG_FIELD] + str_bytes(s),
    }
}

pub open spec fn entries_view(v: Seq<PoolEntry>) -> Seq<EntryModel> {
    v.map_values(|e: PoolEntry| e@)
}

pub open spec fn entries_fit(s: Seq<EntryModel>) -> bool {
    forall|i: int| 0 <= i < s.len() ==> entry_fits(#[trigger] s[i])
}

/// A pool as written, without its count.
pub open spec fn entries_bytes(s: Seq<EntryModel>) -> Seq<u8> {
    concat_bytes(s, |e: EntryModel| entry_bytes(e))
}

/// Whether every text of the entry fits its length prefix.
pub fn str_fits_exec(s: &String) -> (r: bool)
    ensures
        r == str_fits(s@),
{
    s.as_str().as_bytes().len() <= 0xFFFF
}

proof fn lemma_entry_first_byte(e: EntryModel)
    ensures
        entry_bytes(e).len() > 0,
        entry_bytes(e) == seq![entry_bytes(e)[0]] + entry_bytes(e).subrange(1, entry_bytes(e).len() as int),
{
    assert(entry_bytes(e) =~= seq![entry_bytes(e)[0]] + entry_bytes(e).subrange(1, entry_bytes(e).len() as int));
}

/// The payload of an entry as written: its bytes after the tag.
pub open spec fn entry_rest(e: EntryModel) -> Seq<u8> {
    entry_bytes(e).subrange(1, entry_bytes(e).len() as int)
}

proof fn lemma_rest(e: EntryModel)
    ensures
        match e {
            EntryModel::String(s) => entry_rest(e) == str_bytes(s) && entry_bytes(e)[0] == TAG_STRING,
            EntryModel::Integer(i) => entry_rest(e) == u32_bytes(i as u32) && entry_bytes(e)[0] == TAG_INTEGER,
            EntryModel::Module(s) => entry_rest(e) == str_bytes(s) && entry_bytes(e)[0] == TAG_MODULE,
            EntryModel::Float(f) => entry_rest(e) == u32_bytes(f) && entry_bytes(e)[0] == TAG_FLOAT,
            EntryModel::Function(s) => entry_rest(e) == str_bytes(s) && entry_bytes(e)[0] == TAG_FUNCTION,
            EntryModel::Class(s) => entry_rest(e) == str_bytes(s) && entry_bytes(e)[0] == TAG_CLASS,
            EntryModel::Field(s) => entry_rest(e) == str_bytes(s) && entry_bytes(e)[0] == TAG_FIELD,
        },
{
    match e {
        EntryModel::String(s) => { assert(entry_rest(e) =~= str_bytes(s)); },
        EntryModel::Integer(i) => { assert(entry_rest(e) =~= u32_bytes(i as u32)); },
        EntryModel::Module(s) => { assert(entry_rest(e) =~= str_bytes(s)); },
        EntryModel::Float(f) => { assert(entry_rest(e) =~= u32_bytes(f)); },
        EntryModel::Function(s) => { assert(entry_rest(e) =~= str_bytes(s)); },
        EntryModel::Class(s) => { assert(entry_rest(e) =~= str_bytes(s)); },
        EntryModel::Field(s) => { assert(entry_rest(e) =~= str_bytes(s)); },
    }
}

/// A tag byte followed by its payload.
proof fn lemma_tagged(b: Seq<u8>, pos: int, tag: u8, payload: Seq<u8>)
    requires
        0 <= pos < b.len(),
        b[pos] == tag,
        has_at(b, pos + 1, payload),
    ensures
        has_at(b, pos, seq![tag] + payload),
{
    assert(b.subrange(pos, pos + 1) =~= seq![tag]);
    lemma_has_at_concat(b, pos, seq![tag], payload);
}

impl PoolEntry {
    pub fn fits(&self) -> (r: bool)
        ensures
            r == entry_fits(self@),
    {
        match self {
            PoolEntry::String(s) => str_fits_exec(s),
            PoolEntry::Module(s) => str_fits_exec(s),
            PoolEntry::Function(s) => str_fits_exec(s),
            PoolEntry::Class(s) => str_fits_exec(s),
            PoolEntry::Field(s) => str_fits_exec(s),
            _ => true,
        }
    }

    pub fn write(&self, out: &mut Vec<u8>)
        requires
            entry_fits(self@),
        ensures
            final(out)@ == old(out)@ + entry_bytes(self@),
    {
        match self {
            PoolEntry::String(s) => {
                write_u8(out, TAG_STRING);
                write_str(out, s.as_str());
            },
            PoolEntry::Integer(i) => {
                write_u8(out, TAG_INTEGER);
                write_u32(out, *i as u32);
            },
            PoolEntry::Module(s) => {
                write_u8(out, TAG_MODULE);
                write_str(out, s.as_str());
            },
            PoolEntry::Float(f) => {
                write_u8(out, TAG_FLOAT);
                write_u32(out, *f);
            },
            PoolEntry::Function(s) => {
                write_u8(out, TAG_FUNCTION);
                write_str(out, s.as_str());
            },
            PoolEntry::Class(s) => {
                write_u8(out, TAG_CLASS);
                write_str(out, s.as_str());
            },
            PoolEntry::Field(s) => {
                write_u8(out, TAG_FIELD);
                write_str(out, s.as_str());
            },
        }
        assert(out@ =~= old(out)@ + entry_bytes(self@));
    }

    /// Reads one entry at `pos`; an unknown tag, a short input or text that is not UTF-8 is
    /// a malformed module.
    pub fn read(b: &[u8], pos: usize) -> (r: Result<(PoolEntry, usize), Error>)
        ensures
            r matches Ok((e, p)) ==> entry_fits(e@) && p == pos + entry_bytes(e@).len() && has_at(
                b@,
                pos as int,
                entry_bytes(e@),
            ),
            r is Err ==> r == Err::<(PoolEntry, usize), Error>(Error::MalformedModule),
            forall|t: EntryModel|
                entry_fits(t) && #[trigger] has_at(b@, pos as int, entry_bytes(t)) ==> (r matches Ok((e, p))
                    && e@ == t),
    {
        proof {
            assert forall|t: EntryModel| entry_fits(t) && #[trigger] has_at(b@, pos as int, entry_bytes(t)) implies
                b@[pos as int] == entry_bytes(t)[0] && has_at(b@, pos + 1, entry_bytes(t).subrange(1, entry_bytes(t).len() as int)) by {
                lemma_entry_first_byte(t);
                lemma_has_at_concat(b@, pos as int, seq![entry_bytes(t)[0]], entry_bytes(t).subrange(1, entry_bytes(t).len() as int));
            }
        }
        let blen = b.len();
        let (tag, p) = read_u8(b, pos)?;
        proof {
            assert(p as int == pos + 1);
            assert forall|t: EntryModel| entry_fits(t) && #[trigger] has_at(b@, pos as int, entry_bytes(t)) implies
                has_at(b@, p as int, entry_rest(t)) && tag == entry_bytes(t)[0] by {
            }
        }
        if tag == TAG_INTEGER || tag == TAG_FLOAT {
            match read_u32(b, p) {
                Ok((v, q)) => {
                    let e = if tag == TAG_INTEGER {
                        PoolEntry::Integer(v as i32)
                    } else {
                        PoolEntry::Float(v)
                    };
                    proof {
                        assert(((v as i32) as u32) == v) by (bit_vector);
                        assert(entry_bytes(e@) =~= seq![tag] + u32_bytes(v));
                        lemma_tagged(b@, pos as int, tag, u32_bytes(v));
                        assert forall|t: EntryModel| entry_fits(t) && #[trigger] has_at(b@, pos as int, entry_bytes(t)) implies e@ == t by {
                            lemma_rest(t);
                            if let EntryModel::Integer(x) = t {
                                assert(has_at(b@, p as int, u32_bytes(x as u32)));
                                assert(((x as u32) as i32) == x) by (bit_vector);
                            }
                            if let EntryModel::Float(x) = t {
                                assert(has_at(b@, p as int, u32_bytes(x)));
                            }
                        }
                    }
                    Ok((e, q))
                },
                Err(_) => {
                    proof {
                        assert forall|t: EntryModel| entry_fits(t) implies !#[trigger] has_at(b@, pos as int, entry_bytes(t)) by {
                            if has_at(b@, pos as int, entry_bytes(t)) {
                                lemma_rest(t);
                                if let EntryModel::Integer(x) = t {
                                    assert(has_at(b@, p as int, u32_bytes(x as u32)));
                                }
                                if let EntryModel::Float(x) = t {
                                    assert(has_at(b@, p as int, u32_bytes(x)));
                                }
                            }
                        }
                    }
                    Err(Error::MalformedModule)
                },
            }
        } else if tag == TAG_STRING || tag == TAG_MODULE || tag == TAG_FUNCTION || tag == TAG_CLASS || tag == TAG_FIELD {
            match read_string(b, p) {
                Ok((s, q)) => {
                    let ghost sv = s@;
                    let e = if tag == TAG_STRING {
                        PoolEntry::String(s)
                    } else if tag == TAG_MODULE {
                        PoolEntry::Module(s)
                    } else if tag == TAG_FUNCTION {
                        PoolEntry::Function(s)
                    } else if tag == TAG_CLASS {
                        PoolEntry::Class(s)
                    } else {
                        PoolEntry::Field(s)
                    };
                    proof {
                        assert(entry_bytes(e@) =~= seq![tag] + str_bytes(sv));
                        lemma_tagged(b@, pos as int, tag, str_bytes(sv));
                        assert forall|t: EntryModel| entry_fits(t) && #[trigger] has_at(b@, pos as int, entry_bytes(t)) implies e@ == t by {
                            lemma_rest(t);
                            match t {
                                EntryModel::String(x) => { assert(has_at(b@, p as int, str_bytes(x))); },
                                EntryModel::Module(x) => { assert(has_at(b@, p as int, str_bytes(x))); },
                                EntryModel::Function(x) => { assert(has_at(b@, p as int, str_bytes(x))); },
                                EntryModel::Class(x) => { assert(has_at(b@, p as int, str_bytes(x))); },
                                EntryModel::Field(x) => { assert(has_at(b@, p as int, str_bytes(x))); },
                                _ => {},
                            }
                        }
                    }
                    Ok((e, q))
                },
                Err(_) => {
                    proof {
                        assert forall|t: EntryModel| entry_fits(t) implies !#[trigger] has_at(b@, pos as int, entry_bytes(t)) by {
                            if has_at(b@, pos as int, entry_bytes(t)) {
                                lemma_rest(t);
                                match t {
                                    EntryModel::String(x) => { assert(has_at(b@, p as int, str_bytes(x))); },
                                    EntryModel::Module(x) => { assert(has_at(b@, p as int, str_bytes(x))); },
                                    EntryModel::Function(x) => { assert(has_at(b@, p as int, str_bytes(x))); },
                                    EntryModel::Class(x) => { assert(has_at(b@, p as int, str_bytes(x))); },
                                    EntryModel::Field(x) => { assert(has_at(b@, p as int, str_bytes(x))); },
                                    _ => {},
                                }
                            }
                        }
                    }
                    Err(Error::MalformedModule)
                },
            }
        } else {
            proof {
                assert forall|t: EntryModel| entry_fits(t) implies !#[trigger] has_at(b@, pos as int, entry_bytes(t)) by {
                    if has_at(b@, pos as int, entry_bytes(t)) {
                        lemma_rest(t);
                    }
                }
            }
            Err(Error::MalformedModule)
        }
    }
}

/// Writes pool entries: each one after the other.
pub fn write_entries(out: &mut Vec<u8>, items: &Vec<PoolEntry>)
    requires
        entries_fit(entries_view(items@)),
    ensures
        final(out)@ == old(out)@ + entries_bytes(entries_view(items@)),
{
    let ghost start = out@;
    let ghost f = |e: EntryModel| entry_bytes(e);
    let mut i: usize = 0;
    proof {
        assert(entries_view(items@.subrange(0, 0)) =~= Seq::<EntryModel>::empty());
        assert(entries_bytes(Seq::<EntryModel>::empty()) =~= Seq::<u8>::empty());
        assert(out@ =~= start + entries_bytes(entries_view(items@.subrange(0, 0))));
    }
    while i < items.len()
        invariant
            i <= items@.len(),
            entries_fit(entries_view(items@)),
            f == (|e: EntryModel| entry_bytes(e)),
            out@ == start + entries_bytes(entries_view(items@.subrange(0, i as int))),
        decreases items@.len() - i,
    {
        proof {
            assert(entry_fits(entries_view(items@)[i as int]));
        }
        items[i].write(out);
        proof {
            assert(entries_view(items@.subrange(0, i + 1)) =~= entries_view(items@.subrange(0, i as int)).push(items@[i as int]@));
            lemma_concat_push(entries_view(items@.subrange(0, i as int)), items@[i as int]@, f);
        }
        i = i + 1;
        assert(out@ =~= start + entries_bytes(entries_view(items@.subrange(0, i as int))));
    }
    assert(items@.subrange(0, i as int) =~= items@);
}

/// Reads `count` of pool entries from `pos` on.
pub fn read_entries(b: &[u8], pos: usize, count: usize) -> (r: Result<(Vec<PoolEntry>, usize), Error>)
    ensures
        r matches Ok((v, p)) ==> v@.len() == count && entries_fit(entries_view(v@)) && p == pos
            + entries_bytes(entries_view(v@)).len() && has_at(b@, pos as int, entries_bytes(entries_view(v@))),
        r is Err ==> r == Err::<(Vec<PoolEntry>, usize), Error>(Error::MalformedModule),
        forall|t: Seq<EntryModel>|
            t.len() == count && entries_fit(t) && #[trigger] has_at(b@, pos as int, entries_bytes(t)) ==> (r matches Ok((v, p))
                && entries_view(v@) == t),
{
    let mut v: Vec<PoolEntry> = Vec::new();
    let mut p = pos;
    let mut i: usize = 0;
    let ghost f = |e: EntryModel| entry_bytes(e);
    if pos > b.len() {
        return Err(Error::MalformedModule);
    }
    proof {
        assert(entries_view(v@) =~= Seq::<EntryModel>::empty());
        assert(entries_bytes(Seq::<EntryModel>::empty()) =~= Seq::<u8>::empty());
        assert(b@.subrange(pos as int, pos as int) =~= Seq::<u8>::empty());
    }
    while i < count
        invariant
            i <= count,
            v@.len() == i,
            entries_fit(entries_view(v@)),
            p == pos + entries_bytes(entries_view(v@)).len(),
            has_at(b@, pos as int, entries_bytes(entries_view(v@))),
            f == (|e: EntryModel| entry_bytes(e)),
            forall|t: Seq<EntryModel>|
                t.len() == count && entries_fit(t) && #[trigger] has_at(b@, pos as int, entries_bytes(t)) ==> entries_view(v@)
                    == t.subrange(0, i as int),
        decreases count - i,
    {
        proof {
            assert forall|t: Seq<EntryModel>|
                t.len() == count && entries_fit(t) && #[trigger] has_at(b@, pos as int, entries_bytes(t)) implies has_at(
                    b@,
                    p as int,
                    entry_bytes(t[i as int]),
                ) && entry_fits(t[i as int]) by {
                lemma_concat_split(t, i as int, f);
                let tail = t.subrange(i as int, t.len() as int);
                lemma_concat_first(tail, f);
                assert(tail.subrange(1, tail.len() as int) =~= t.subrange(i + 1, t.len() as int));
                lemma_has_at_concat(b@, pos as int, entries_bytes(t.subrange(0, i as int)), entries_bytes(tail));
                lemma_has_at_concat(b@, p as int, entry_bytes(t[i as int]), entries_bytes(t.subrange(i + 1, t.len() as int)));
            }
        }
        let res = PoolEntry::read(b, p);
        match res {
            Ok((e, q)) => {
                proof {
                    let old_view = entries_view(v@);
                    lemma_concat_push(old_view, e@, f);
                    lemma_has_at_concat(b@, pos as int, entries_bytes(old_view), entry_bytes(e@));
                }
                let ghost v0 = v@;
                v.push(e);
                p = q;
                i = i + 1;
                proof {
                    assert(entries_view(v@) =~= entries_view(v0).push(v@[i - 1]@));
                    assert forall|t: Seq<EntryModel>|
                        t.len() == count && entries_fit(t) && #[trigger] has_at(b@, pos as int, entries_bytes(t)) implies entries_view(v@)
                            == t.subrange(0, i as int) by {
                        assert(entries_view(v@) =~= t.subrange(0, i as int));
                    }
                }
            },
            Err(err) => {
                proof {
                    assert forall|t: Seq<EntryModel>|
                        t.len() == count && entries_fit(t) implies !#[trigger] has_at(b@, pos as int, entries_bytes(t)) by {
                        if has_at(b@, pos as int, entries_bytes(t)) {
                            assert(has_at(b@, p as int, entry_bytes(t[i as int])));
                        }
                    }
                }
                return Err(err);
            },
        }
    }
    proof {
        assert forall|t: Seq<EntryModel>|
            t.len() == count && entries_fit(t) && #[trigger] has_at(b@, pos as int, entries_bytes(t)) implies entries_view(v@) == t by {
            assert(t.subrange(0, i as int) =~= t);
        }
    }
    Ok((v, p))
}

} // verus!
