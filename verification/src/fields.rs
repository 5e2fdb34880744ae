//! What the fields of a message say: numbers, strings, lists and acknowledgement maps.
//!
//! Each kind has a function that reads it from a message's fields and one that gives the
//! fields it is written as. A field that occurs more than once counts by its last
//! occurrence; lists and maps collect all of them. Fields of other numbers do not matter.
use std::collections::HashMap;

use vstd::prelude::*;
use vstd::utf8::{decode_utf8, encode_utf8, valid_utf8};

use crate::bytes::to_vec;
use crate::wire::{
    field_bytes, field_values, fields, fields_bytes, law_fields_round_trip, law_varint_round_trip,
    lemma_fields_bytes_push, lemma_varint_len, write_varint, read_fields, read_varint, varint,
    varint_bytes, write_bytes_field, write_varint_field, Field, Val, WireValue,
};

verus! {

/// The nesting that is left for the fields of an entry of a map.
pub const ENTRY_DEPTH: u32 = 98;

// ---------------------------------------------------------------------------
// Reading
// ---------------------------------------------------------------------------

/// The number in field `tag`, zero where there is none; `None` where the field holds
/// something else.
pub open spec fn number(fs: Seq<(u32, Val)>, tag: u32) -> Option<u64>
    decreases fs.len(),
{
    if fs.len() == 0 {
        Some(0)
    } else if fs.last().0 != tag {
        number(fs.drop_last(), tag)
    } else {
        match (number(fs.drop_last(), tag), fs.last().1) {
            (Some(_), Val::Varint(v)) => Some(v),
            _ => None,
        }
    }
}

/// The bytes in field `tag`, none where there is no such field.
pub open spec fn byte_string(fs: Seq<(u32, Val)>, tag: u32) -> Option<Seq<u8>>
    decreases fs.len(),
{
    if fs.len() == 0 {
        Some(Seq::empty())
    } else if fs.last().0 != tag {
        byte_string(fs.drop_last(), tag)
    } else {
        match (byte_string(fs.drop_last(), tag), fs.last().1) {
            (Some(_), Val::Bytes(b)) => Some(b),
            _ => None,
        }
    }
}

/// The texts in all fields `tag`, in order; `None` where one is not UTF-8.
pub open spec fn text_list(fs: Seq<(u32, Val)>, tag: u32) -> Option<Seq<Seq<char>>>
    decreases fs.len(),
{
    if fs.len() == 0 {
        Some(Seq::empty())
    } else if fs.last().0 != tag {
        text_list(fs.drop_last(), tag)
    } else {
        match (text_list(fs.drop_last(), tag), fs.last().1) {
            (Some(l), Val::Bytes(b)) => if valid_utf8(b) {
                Some(l.push(decode_utf8(b)))
            } else {
                None
            },
            _ => None,
        }
    }
}

/// The text in field `tag`, empty where there is none; `None` where it is not UTF-8.
pub open spec fn text_field(fs: Seq<(u32, Val)>, tag: u32) -> Option<Seq<char>> {
    match text_list(fs, tag) {
        Some(l) => Some(
            if l.len() == 0 {
                Seq::empty()
            } else {
                l.last()
            },
        ),
        None => None,
    }
}

/// The low 32 bits of a number.
pub open spec fn low32(v: u64) -> u32 {
    (v % 0x1_0000_0000) as u32
}

/// The 32-bit numbers packed in `b`.
pub open spec fn packed(b: Seq<u8>) -> Option<Seq<u32>>
    decreases b.len(),
{
    if b.len() == 0 {
        Some(Seq::empty())
    } else {
        match varint(b) {
            None => None,
            Some((v, n)) => if n == 0 || n > b.len() {
                None
            } else {
                match packed(b.skip(n as int)) {
                    Some(rest) => Some(seq![low32(v)] + rest),
                    None => None,
                }
            },
        }
    }
}

/// The 32-bit numbers in all fields `tag`, packed or one by one.
pub open spec fn number_list(fs: Seq<(u32, Val)>, tag: u32) -> Option<Seq<u32>>
    decreases fs.len(),
{
    if fs.len() == 0 {
        Some(Seq::empty())
    } else if fs.last().0 != tag {
        number_list(fs.drop_last(), tag)
    } else {
        match (number_list(fs.drop_last(), tag), fs.last().1) {
            (Some(l), Val::Varint(v)) => Some(l.push(low32(v))),
            (Some(l), Val::Bytes(b)) => match packed(b) {
                Some(more) => Some(l + more),
                None => None,
            },
            _ => None,
        }
    }
}

/// The stream and the sequence number that an entry of an acknowledgement map holds.
pub open spec fn ack_entry(b: Seq<u8>) -> Option<(u32, u64)> {
    match fields(b, ENTRY_DEPTH as nat) {
        Some(fs) => match (number(fs, 1), number(fs, 2)) {
            (Some(k), Some(v)) => Some((low32(k), v)),
            _ => None,
        },
        None => None,
    }
}

/// The acknowledgement map in all fields `tag`, an entry each.
pub open spec fn ack_map(fs: Seq<(u32, Val)>, tag: u32) -> Option<Map<u32, u64>>
    decreases fs.len(),
{
    if fs.len() == 0 {
        Some(Map::empty())
    } else if fs.last().0 != tag {
        ack_map(fs.drop_last(), tag)
    } else {
        match (ack_map(fs.drop_last(), tag), fs.last().1) {
            (Some(m), Val::Bytes(b)) => match ack_entry(b) {
                Some((k, v)) => Some(m.insert(k, v)),
                None => None,
            },
            _ => None,
        }
    }
}

/// Decodes bytes with `String::from_utf8`: the text that they encode, or nothing where they
/// are not UTF-8.
#[verifier::external_body]
pub(crate) fn text_from_utf8(bytes: Vec<u8>) -> (r: Option<String>)
    ensures
        match r {
            Some(s) => valid_utf8(bytes@) && s@ == decode_utf8(bytes@),
            None => !valid_utf8(bytes@),
        },
{
    String::from_utf8(bytes).ok()
}

/// The number in field `tag`.
pub fn get_number(fs: &Vec<Field>, tag: u32) -> (r: Option<u64>)
    ensures
        r == number(field_values(fs@), tag),
{
    let ghost vs = field_values(fs@);
    let mut r: u64 = 0;
    let mut ok: bool = true;
    assert(vs.take(0) =~= Seq::empty());
    for i in 0..fs.len()
        invariant
            vs == field_values(fs@),
            ok == number(vs.take(i as int), tag) is Some,
            ok ==> number(vs.take(i as int), tag) == Some(r),
    {
        let f = &fs[i];
        assert(vs.take(i + 1).drop_last() =~= vs.take(i as int));
        assert(vs.take(i + 1).last() == f@);
        if f.tag == tag {
            match &f.value {
                WireValue::Varint(v) => {
                    r = *v;
                },
                _ => {
                    ok = false;
                },
            }
        }
    }
    assert(vs.take(vs.len() as int) =~= vs);
    if ok {
        Some(r)
    } else {
        None
    }
}

/// The bytes in field `tag`.
pub fn get_bytes(fs: &Vec<Field>, tag: u32) -> (r: Option<Vec<u8>>)
    ensures
        match r {
            Some(b) => byte_string(field_values(fs@), tag) == Some(b@),
            None => byte_string(field_values(fs@), tag) is None,
        },
{
    let ghost vs = field_values(fs@);
    let mut r: Vec<u8> = Vec::new();
    let mut ok: bool = true;
    assert(vs.take(0) =~= Seq::empty());
    for i in 0..fs.len()
        invariant
            vs == field_values(fs@),
            ok == byte_string(vs.take(i as int), tag) is Some,
            ok ==> byte_string(vs.take(i as int), tag) == Some(r@),
    {
        let f = &fs[i];
        assert(vs.take(i + 1).drop_last() =~= vs.take(i as int));
        assert(vs.take(i + 1).last() == f@);
        if f.tag == tag {
            match &f.value {
                WireValue::Bytes(b) => {
                    r = to_vec(b.as_slice());
                },
                _ => {
                    ok = false;
                },
            }
        }
    }
    assert(vs.take(vs.len() as int) =~= vs);
    if ok {
        Some(r)
    } else {
        None
    }
}

/// The texts in all fields `tag`.
pub fn get_text_list(fs: &Vec<Field>, tag: u32) -> (r: Option<Vec<String>>)
    ensures
        match r {
            Some(l) => text_list(field_values(fs@), tag) == Some(crate::text::texts(l@)),
            None => text_list(field_values(fs@), tag) is None,
        },
{
    let ghost vs = field_values(fs@);
    let mut r: Vec<String> = Vec::new();
    let mut ok: bool = true;
    assert(vs.take(0) =~= Seq::empty());
    assert(crate::text::texts(r@) =~= Seq::empty());
    for i in 0..fs.len()
        invariant
            vs == field_values(fs@),
            ok == text_list(vs.take(i as int), tag) is Some,
            ok ==> text_list(vs.take(i as int), tag) == Some(crate::text::texts(r@)),
    {
        let f = &fs[i];
        assert(vs.take(i + 1).drop_last() =~= vs.take(i as int));
        assert(vs.take(i + 1).last() == f@);
        if f.tag == tag {
            match &f.value {
                WireValue::Bytes(b) => {
                    match text_from_utf8(to_vec(b.as_slice())) {
                        Some(s) => {
                            proof {
                                crate::text::lemma_texts_push(r@, s);
                            }
                            r.push(s);
                        },
                        None => {
                            ok = false;
                        },
                    }
                },
                _ => {
                    ok = false;
                },
            }
        }
    }
    assert(vs.take(vs.len() as int) =~= vs);
    if ok {
        Some(r)
    } else {
        None
    }
}

/// The text in field `tag`.
pub fn get_text(fs: &Vec<Field>, tag: u32) -> (r: Option<String>)
    ensures
        match r {
            Some(s) => text_field(field_values(fs@), tag) == Some(s@),
            None => text_field(field_values(fs@), tag) is None,
        },
{
    match get_text_list(fs, tag) {
        None => None,
        Some(l) => {
            let mut l = l;
            let ghost all = l@;
            match l.pop() {
                Some(s) => {
                    assert(crate::text::texts(all).last() == s@);
                    Some(s)
                },
                None => Some(String::new()),
            }
        },
    }
}

/// The 32-bit numbers packed in `data`.
fn read_packed(data: &[u8]) -> (r: Option<Vec<u32>>)
    ensures
        match r {
            Some(l) => packed(data@) == Some(l@),
            None => packed(data@) is None,
        },
{
    let mut out: Vec<u32> = Vec::new();
    let mut rest = data;
    proof {
        if let Some(s) = packed(data@) {
            assert(out@ + s =~= s);
        }
    }
    while rest.len() > 0
        invariant
            packed(data@) == (match packed(rest@) {
                Some(s) => Some(out@ + s),
                None => None,
            }),
        decreases rest@.len(),
    {
        proof {
            lemma_varint_len(rest@);
        }
        let ghost here = rest@;
        match read_varint(rest) {
            None => {
                return None;
            },
            Some((v, after)) => {
                let x: u32 = (v % 0x1_0000_0000) as u32;
                proof {
                    if let Some(s) = packed(after@) {
                        assert(out@ + (seq![x] + s) =~= out@.push(x) + s);
                    }
                }
                out.push(x);
                rest = after;
            },
        }
    }
    assert(out@ + Seq::<u32>::empty() =~= out@);
    Some(out)
}

/// The 32-bit numbers in all fields `tag`.
pub fn get_number_list(fs: &Vec<Field>, tag: u32) -> (r: Option<Vec<u32>>)
    ensures
        match r {
            Some(l) => number_list(field_values(fs@), tag) == Some(l@),
            None => number_list(field_values(fs@), tag) is None,
        },
{
    let ghost vs = field_values(fs@);
    let mut r: Vec<u32> = Vec::new();
    let mut ok: bool = true;
    assert(vs.take(0) =~= Seq::empty());
    for i in 0..fs.len()
        invariant
            vs == field_values(fs@),
            ok == number_list(vs.take(i as int), tag) is Some,
            ok ==> number_list(vs.take(i as int), tag) == Some(r@),
    {
        let f = &fs[i];
        assert(vs.take(i + 1).drop_last() =~= vs.take(i as int));
        assert(vs.take(i + 1).last() == f@);
        if f.tag == tag {
            match &f.value {
                WireValue::Varint(v) => {
                    r.push((*v % 0x1_0000_0000) as u32);
                },
                WireValue::Bytes(b) => {
                    match read_packed(b.as_slice()) {
                        Some(more) => {
                            let mut more = more;
                            r.append(&mut more);
                        },
                        None => {
                            ok = false;
                        },
                    }
                },
                WireValue::Other => {
                    ok = false;
                },
            }
        }
    }
    assert(vs.take(vs.len() as int) =~= vs);
    if ok {
        Some(r)
    } else {
        None
    }
}

/// The stream and sequence number that an entry holds.
fn read_ack_entry(data: &[u8]) -> (r: Option<(u32, u64)>)
    ensures
        r == ack_entry(data@),
{
    match read_fields(data, ENTRY_DEPTH) {
        Some(fs) => match (get_number(&fs, 1), get_number(&fs, 2)) {
            (Some(k), Some(v)) => Some(((k % 0x1_0000_0000) as u32, v)),
            _ => None,
        },
        None => None,
    }
}

/// The acknowledgement map in all fields `tag`.
pub fn get_ack_map(fs: &Vec<Field>, tag: u32) -> (r: Option<HashMap<u32, u64>>)
    ensures
        match r {
            Some(m) => ack_map(field_values(fs@), tag) == Some(m@),
            None => ack_map(field_values(fs@), tag) is None,
        },
{
    broadcast use vstd::std_specs::hash::group_hash_axioms;

    let ghost vs = field_values(fs@);
    let mut r: HashMap<u32, u64> = HashMap::new();
    let mut ok: bool = true;
    assert(vs.take(0) =~= Seq::empty());
    for i in 0..fs.len()
        invariant
            vs == field_values(fs@),
            ok == ack_map(vs.take(i as int), tag) is Some,
            ok ==> ack_map(vs.take(i as int), tag) == Some(r@),
    {
        let f = &fs[i];
        assert(vs.take(i + 1).drop_last() =~= vs.take(i as int));
        assert(vs.take(i + 1).last() == f@);
        if f.tag == tag {
            match &f.value {
                WireValue::Bytes(b) => {
                    match read_ack_entry(b.as_slice()) {
                        Some((k, v)) => {
                            r.insert(k, v);
                        },
                        None => {
                            ok = false;
                        },
                    }
                },
                _ => {
                    ok = false;
                },
            }
        }
    }
    assert(vs.take(vs.len() as int) =~= vs);
    if ok {
        Some(r)
    } else {
        None
    }
}

// ---------------------------------------------------------------------------
// Writing
// ---------------------------------------------------------------------------

/// The field of a number: none for zero.
pub open spec fn number_field(tag: u32, v: u64) -> Seq<(u32, Val)> {
    if v == 0 {
        Seq::empty()
    } else {
        seq![(tag, Val::Varint(v))]
    }
}

/// The field of a byte string: none for an empty one.
pub open spec fn bytes_field(tag: u32, b: Seq<u8>) -> Seq<(u32, Val)> {
    if b.len() == 0 {
        Seq::empty()
    } else {
        seq![(tag, Val::Bytes(b))]
    }
}

/// The fields of a list of texts: one each.
pub open spec fn text_fields(tag: u32, l: Seq<Seq<char>>) -> Seq<(u32, Val)> {
    l.map_values(|s: Seq<char>| (tag, Val::Bytes(encode_utf8(s))))
}

/// Numbers one behind the other.
pub open spec fn packed_bytes(l: Seq<u32>) -> Seq<u8>
    decreases l.len(),
{
    if l.len() == 0 {
        Seq::empty()
    } else {
        packed_bytes(l.drop_last()) + varint_bytes(l.last() as nat)
    }
}

/// An entry of an acknowledgement map.
pub open spec fn entry_bytes(e: (u32, u64)) -> Seq<u8> {
    fields_bytes(number_field(1, e.0 as u64) + number_field(2, e.1))
}

/// The fields of an acknowledgement map: an entry each, in the order of `entries`.
pub open spec fn ack_fields(tag: u32, entries: Seq<(u32, u64)>) -> Seq<(u32, Val)> {
    entries.map_values(|e: (u32, u64)| (tag, Val::Bytes(entry_bytes(e))))
}

/// The map that `entries` make.
pub open spec fn map_of(entries: Seq<(u32, u64)>) -> Map<u32, u64>
    decreases entries.len(),
{
    if entries.len() == 0 {
        Map::empty()
    } else {
        map_of(entries.drop_last()).insert(entries.last().0, entries.last().1)
    }
}

/// Whether `entries` lists the map `m`, each key once.
pub open spec fn lists(entries: Seq<(u32, u64)>, m: Map<u32, u64>) -> bool {
    map_of(entries) == m && entries.len() == m.dom().len()
}

/// Appends a number's field.
pub fn put_number(out: &mut Vec<u8>, tag: u32, v: u64)
    requires
        1 <= tag < 0x2000_0000,
    ensures
        final(out)@ == old(out)@ + fields_bytes(number_field(tag, v)),
{
    if v != 0 {
        write_varint_field(out, tag, v);
        proof {
            lemma_one_field((tag, Val::Varint(v)));
        }
    } else {
        assert(out@ + fields_bytes(Seq::empty()) =~= out@);
    }
}

/// Appends a byte string's field.
pub fn put_bytes(out: &mut Vec<u8>, tag: u32, b: &[u8])
    requires
        1 <= tag < 0x2000_0000,
    ensures
        final(out)@ == old(out)@ + fields_bytes(bytes_field(tag, b@)),
{
    if b.len() != 0 {
        write_bytes_field(out, tag, b);
        proof {
            lemma_one_field((tag, Val::Bytes(b@)));
        }
    } else {
        assert(out@ + fields_bytes(Seq::empty()) =~= out@);
    }
}

/// Appends a field for each text.
pub fn put_text_list(out: &mut Vec<u8>, tag: u32, l: &Vec<String>)
    requires
        1 <= tag < 0x2000_0000,
    ensures
        final(out)@ == old(out)@ + fields_bytes(text_fields(tag, crate::text::texts(l@))),
{
    let ghost fs = text_fields(tag, crate::text::texts(l@));
    assert(fs.take(0) =~= Seq::empty());
    assert(out@ + fields_bytes(Seq::empty()) =~= out@);
    for i in 0..l.len()
        invariant
            1 <= tag < 0x2000_0000,
            fs == text_fields(tag, crate::text::texts(l@)),
            out@ == old(out)@ + fields_bytes(fs.take(i as int)),
    {
        let b = l[i].as_str().as_bytes();
        let ghost f = (tag, Val::Bytes(b@));
        assert(fs.take(i + 1) =~= fs.take(i as int).push(f));
        proof {
            lemma_fields_bytes_push(fs.take(i as int), f);
        }
        let ghost start = out@;
        write_bytes_field(out, tag, b);
        assert(out@ =~= old(out)@ + fields_bytes(fs.take(i + 1)));
    }
    assert(fs.take(l@.len() as int) =~= fs);
}

/// Appends a list of numbers, packed in one field.
pub fn put_packed(out: &mut Vec<u8>, tag: u32, l: &Vec<u32>)
    requires
        1 <= tag < 0x2000_0000,
    ensures
        final(out)@ == old(out)@ + fields_bytes(bytes_field(tag, packed_bytes(l@))),
{
    let mut b: Vec<u8> = Vec::new();
    assert(l@.take(0) =~= Seq::empty());
    for i in 0..l.len()
        invariant
            b@ == packed_bytes(l@.take(i as int)),
    {
        assert(l@.take(i + 1).drop_last() =~= l@.take(i as int));
        write_varint(&mut b, l[i] as u64);
    }
    assert(l@.take(l@.len() as int) =~= l@);
    put_bytes(out, tag, b.as_slice());
}

/// Appends an acknowledgement map, in the order in which the map is walked.
pub fn put_ack_map(out: &mut Vec<u8>, tag: u32, m: &HashMap<u32, u64>)
    requires
        1 <= tag < 0x2000_0000,
    ensures
        exists|entries: Seq<(u32, u64)>| #[trigger]
            lists(entries, m@) && final(out)@ == old(out)@ + fields_bytes(ack_fields(tag, entries)),
{
    broadcast use vstd::std_specs::hash::group_hash_axioms;

    let ghost mut done: Seq<(u32, u64)> = Seq::empty();
    assert(ack_fields(tag, done) =~= Seq::empty());
    assert(out@ + fields_bytes(Seq::empty()) =~= out@);
    for (k, v) in it: m.iter()
        invariant
            1 <= tag < 0x2000_0000,
            done.len() == it.index(),
            it.seq().len() == m@.dom().len(),
            it.seq().no_duplicates(),
            forall|i: int|
                0 <= i < done.len() ==> done[i] == (*it.seq()[i].0, *it.seq()[i].1),
            forall|i: int|
                0 <= i < it.seq().len() ==> m@.contains_key(*(#[trigger] it.seq()[i]).0)
                    && m@[*it.seq()[i].0] == *it.seq()[i].1,
            forall|i: int|
                0 <= i < done.len() ==> m@.contains_pair((#[trigger] done[i]).0, done[i].1),
            done.no_duplicates(),
            out@ == old(out)@ + fields_bytes(ack_fields(tag, done)),
    {
        let ghost e = (*k, *v);
        assert(it.seq()[it.index()] == (k, v));
        assert(!done.contains(e)) by {
            if done.contains(e) {
                let i = choose|i: int| 0 <= i < done.len() && done[i] == e;
                assert(it.seq()[i] == it.seq()[it.index()]);
            }
        }
        let mut body: Vec<u8> = Vec::new();
        put_number(&mut body, 1, *k as u64);
        put_number(&mut body, 2, *v);
        proof {
            lemma_fields_bytes_concat(number_field(1, *k as u64), number_field(2, *v));
            assert(body@ =~= entry_bytes(e));
            let f = (tag, Val::Bytes(body@));
            assert(ack_fields(tag, done.push(e)) =~= ack_fields(tag, done).push(f));
            lemma_fields_bytes_push(ack_fields(tag, done), f);
        }
        write_bytes_field(out, tag, body.as_slice());
        proof {
            done = done.push(e);
            assert(out@ =~= old(out)@ + fields_bytes(ack_fields(tag, done)));
        }
    }
    proof {
        lemma_lists(done, m@);
    }
}

proof fn lemma_lists(entries: Seq<(u32, u64)>, m: Map<u32, u64>)
    requires
        entries.len() == m.dom().len(),
        m.dom().finite(),
        forall|i: int|
            0 <= i < entries.len() ==> m.contains_pair((#[trigger] entries[i]).0, entries[i].1),
        entries.no_duplicates(),
    ensures
        lists(entries, m),
{
    lemma_map_of(entries);
    let keys = entries.map_values(|e: (u32, u64)| e.0);
    assert forall|i: int, j: int| 0 <= i < keys.len() && 0 <= j < keys.len() && i != j implies
        keys[i] != keys[j] by {
        if keys[i] == keys[j] {
            assert(entries[i] == entries[j]);
        }
    }
    keys.unique_seq_to_set();
    assert(keys.to_set().subset_of(m.dom())) by {
        assert forall|k: u32| keys.to_set().contains(k) implies m.dom().contains(k) by {
            let i = choose|i: int| 0 <= i < keys.len() && keys[i] == k;
            assert(m.contains_pair(entries[i].0, entries[i].1));
        }
    }
    vstd::set_lib::lemma_subset_equality(keys.to_set(), m.dom());
    assert(map_of(entries) =~= m) by {
        assert forall|k: u32| m.contains_key(k) implies #[trigger] map_of(entries).contains_key(k)
            && map_of(entries)[k] == m[k] by {
            assert(keys.to_set().contains(k));
            let i = choose|i: int| 0 <= i < keys.len() && keys[i] == k;
            assert(entries[i].0 == k);
            assert(map_of(entries).contains_key(entries[i].0));
        }
    }
}

/// A key of `map_of(entries)` is that of an entry, and has the value of one with that key.
proof fn lemma_map_of(entries: Seq<(u32, u64)>)
    ensures
        forall|i: int|
            0 <= i < entries.len() ==> map_of(entries).contains_key((#[trigger] entries[i]).0),
        forall|k: u32| #[trigger]
            map_of(entries).contains_key(k) ==> exists|i: int|
                0 <= i < entries.len() && #[trigger] entries[i] == (k, map_of(entries)[k]),
    decreases entries.len(),
{
    if entries.len() > 0 {
        let init = entries.drop_last();
        lemma_map_of(init);
        let m = map_of(entries);
        assert forall|i: int| 0 <= i < entries.len() implies m.contains_key(
            (#[trigger] entries[i]).0,
        ) by {
            if i < init.len() {
                assert(map_of(init).contains_key(init[i].0));
            }
        }
        assert forall|k: u32| #[trigger] m.contains_key(k) implies exists|i: int|
            0 <= i < entries.len() && #[trigger] entries[i] == (k, m[k]) by {
            if k == entries.last().0 {
                assert(entries[entries.len() - 1] == (k, m[k]));
            } else {
                assert(map_of(init).contains_key(k));
                let i = choose|i: int|
                    0 <= i < init.len() && #[trigger] init[i] == (k, map_of(init)[k]);
                assert(entries[i] == (k, m[k]));
            }
        }
    }
}

/// `fields_bytes` of one field.
pub proof fn lemma_one_field(f: (u32, Val))
    ensures
        fields_bytes(seq![f]) == field_bytes(f),
{
    let s = seq![f];
    assert(s.skip(1) =~= Seq::empty());
    assert(fields_bytes(s.skip(1)) =~= Seq::empty());
    assert(fields_bytes(s) =~= field_bytes(f));
}

/// `fields_bytes` of two groups of fields.
pub broadcast proof fn lemma_fields_bytes_concat(a: Seq<(u32, Val)>, b: Seq<(u32, Val)>)
    ensures
        #[trigger] fields_bytes(a + b) == fields_bytes(a) + fields_bytes(b),
    decreases a.len(),
{
    if a.len() == 0 {
        assert(a + b =~= b);
        assert(fields_bytes(a) + fields_bytes(b) =~= fields_bytes(b));
    } else {
        assert((a + b).skip(1) =~= a.skip(1) + b);
        lemma_fields_bytes_concat(a.skip(1), b);
        assert(fields_bytes(a + b) =~= fields_bytes(a) + fields_bytes(b));
    }
}


// ---------------------------------------------------------------------------
// Reading what was written
// ---------------------------------------------------------------------------

/// The fields with the number `tag`.
pub open spec fn with_tag(fs: Seq<(u32, Val)>, tag: u32) -> Seq<(u32, Val)>
    decreases fs.len(),
{
    if fs.len() == 0 {
        Seq::empty()
    } else if fs.last().0 == tag {
        with_tag(fs.drop_last(), tag).push(fs.last())
    } else {
        with_tag(fs.drop_last(), tag)
    }
}

/// Whether all fields have the number `tag`.
pub open spec fn all_tagged(fs: Seq<(u32, Val)>, tag: u32) -> bool {
    forall|i: int| 0 <= i < fs.len() ==> (#[trigger] fs[i]).0 == tag
}

/// `with_tag` of two groups of fields.
pub broadcast proof fn lemma_with_tag_concat(a: Seq<(u32, Val)>, b: Seq<(u32, Val)>, tag: u32)
    ensures
        #[trigger] with_tag(a + b, tag) == with_tag(a, tag) + with_tag(b, tag),
    decreases b.len(),
{
    if b.len() == 0 {
        assert(a + b =~= a);
        assert(with_tag(a, tag) + with_tag(b, tag) =~= with_tag(a, tag));
    } else {
        assert((a + b).drop_last() =~= a + b.drop_last());
        lemma_with_tag_concat(a, b.drop_last(), tag);
        assert(with_tag(a + b, tag) =~= with_tag(a, tag) + with_tag(b, tag));
    }
}

/// `with_tag` of fields that all have one number.
pub proof fn lemma_with_tag_all(fs: Seq<(u32, Val)>, t: u32, tag: u32)
    requires
        all_tagged(fs, t),
    ensures
        with_tag(fs, tag) == if t == tag {
            fs
        } else {
            Seq::empty()
        },
    decreases fs.len(),
{
    if fs.len() > 0 {
        let init = fs.drop_last();
        assert forall|i: int| 0 <= i < init.len() implies (#[trigger] init[i]).0 == t by {
            assert(init[i] == fs[i]);
        }
        lemma_with_tag_all(init, t, tag);
        assert(fs[fs.len() - 1].0 == t);
        assert(init.push(fs.last()) =~= fs);
    } else {
        assert(fs =~= Seq::empty());
    }
}

/// `with_tag` of the field of a number.
pub broadcast proof fn lemma_with_tag_number(t: u32, v: u64, tag: u32)
    ensures
        #[trigger] with_tag(number_field(t, v), tag) == if t == tag {
            number_field(t, v)
        } else {
            Seq::empty()
        },
{
    lemma_with_tag_all(number_field(t, v), t, tag);
}

/// `with_tag` of the field of a byte string.
pub broadcast proof fn lemma_with_tag_bytes(t: u32, b: Seq<u8>, tag: u32)
    ensures
        #[trigger] with_tag(bytes_field(t, b), tag) == if t == tag {
            bytes_field(t, b)
        } else {
            Seq::empty()
        },
{
    lemma_with_tag_all(bytes_field(t, b), t, tag);
}

/// `with_tag` of the fields of a list of texts.
pub broadcast proof fn lemma_with_tag_texts(t: u32, l: Seq<Seq<char>>, tag: u32)
    ensures
        #[trigger] with_tag(text_fields(t, l), tag) == if t == tag {
            text_fields(t, l)
        } else {
            Seq::empty()
        },
{
    lemma_with_tag_all(text_fields(t, l), t, tag);
}

/// `with_tag` of the fields of an acknowledgement map.
pub broadcast proof fn lemma_with_tag_acks(t: u32, es: Seq<(u32, u64)>, tag: u32)
    ensures
        #[trigger] with_tag(ack_fields(t, es), tag) == if t == tag {
            ack_fields(t, es)
        } else {
            Seq::empty()
        },
{
    lemma_with_tag_all(ack_fields(t, es), t, tag);
}

/// What is known of the fields with one number.
pub broadcast group group_with_tag {
    lemma_with_tag_concat,
    lemma_with_tag_number,
    lemma_with_tag_bytes,
    lemma_with_tag_texts,
    lemma_with_tag_acks,
}

/// Fields of other numbers do not matter to `number`.
pub proof fn lemma_number_with_tag(fs: Seq<(u32, Val)>, tag: u32)
    ensures
        number(with_tag(fs, tag), tag) == number(fs, tag),
    decreases fs.len(),
{
    if fs.len() > 0 {
        lemma_number_with_tag(fs.drop_last(), tag);
        if fs.last().0 == tag {
            assert(with_tag(fs, tag).drop_last() =~= with_tag(fs.drop_last(), tag));
        }
    }
}

/// Fields of other numbers do not matter to `byte_string`.
pub proof fn lemma_byte_string_with_tag(fs: Seq<(u32, Val)>, tag: u32)
    ensures
        byte_string(with_tag(fs, tag), tag) == byte_string(fs, tag),
    decreases fs.len(),
{
    if fs.len() > 0 {
        lemma_byte_string_with_tag(fs.drop_last(), tag);
        if fs.last().0 == tag {
            assert(with_tag(fs, tag).drop_last() =~= with_tag(fs.drop_last(), tag));
        }
    }
}

/// Fields of other numbers do not matter to `text_list`.
pub proof fn lemma_text_list_with_tag(fs: Seq<(u32, Val)>, tag: u32)
    ensures
        text_list(with_tag(fs, tag), tag) == text_list(fs, tag),
    decreases fs.len(),
{
    if fs.len() > 0 {
        lemma_text_list_with_tag(fs.drop_last(), tag);
        if fs.last().0 == tag {
            assert(with_tag(fs, tag).drop_last() =~= with_tag(fs.drop_last(), tag));
        }
    }
}

/// Fields of other numbers do not matter to `number_list`.
pub proof fn lemma_number_list_with_tag(fs: Seq<(u32, Val)>, tag: u32)
    ensures
        number_list(with_tag(fs, tag), tag) == number_list(fs, tag),
    decreases fs.len(),
{
    if fs.len() > 0 {
        lemma_number_list_with_tag(fs.drop_last(), tag);
        if fs.last().0 == tag {
            assert(with_tag(fs, tag).drop_last() =~= with_tag(fs.drop_last(), tag));
        }
    }
}

/// Fields of other numbers do not matter to `ack_map`.
pub proof fn lemma_ack_map_with_tag(fs: Seq<(u32, Val)>, tag: u32)
    ensures
        ack_map(with_tag(fs, tag), tag) == ack_map(fs, tag),
    decreases fs.len(),
{
    if fs.len() > 0 {
        lemma_ack_map_with_tag(fs.drop_last(), tag);
        if fs.last().0 == tag {
            assert(with_tag(fs, tag).drop_last() =~= with_tag(fs.drop_last(), tag));
        }
    }
}

/// A number is read back from its field.
pub proof fn lemma_number_back(fs: Seq<(u32, Val)>, tag: u32, v: u64)
    requires
        with_tag(fs, tag) == number_field(tag, v),
    ensures
        number(fs, tag) == Some(v),
{
    lemma_number_with_tag(fs, tag);
    let one = number_field(tag, v);
    if v != 0 {
        assert(one.drop_last() =~= Seq::empty());
        assert(number(one.drop_last(), tag) == Some(0u64));
    }
}

/// A byte string is read back from its field.
pub proof fn lemma_bytes_back(fs: Seq<(u32, Val)>, tag: u32, b: Seq<u8>)
    requires
        with_tag(fs, tag) == bytes_field(tag, b),
    ensures
        byte_string(fs, tag) == Some(b),
{
    lemma_byte_string_with_tag(fs, tag);
    let one = bytes_field(tag, b);
    if b.len() != 0 {
        assert(one.drop_last() =~= Seq::empty());
        assert(byte_string(one.drop_last(), tag) == Some(Seq::<u8>::empty()));
    } else {
        assert(b =~= Seq::empty());
    }
}

/// A list of texts is read back from its fields.
pub proof fn lemma_texts_back(fs: Seq<(u32, Val)>, tag: u32, l: Seq<Seq<char>>)
    requires
        with_tag(fs, tag) == text_fields(tag, l),
    ensures
        text_list(fs, tag) == Some(l),
{
    lemma_text_list_with_tag(fs, tag);
    lemma_text_fields(tag, l);
}

proof fn lemma_text_fields(tag: u32, l: Seq<Seq<char>>)
    ensures
        text_list(text_fields(tag, l), tag) == Some(l),
    decreases l.len(),
{
    let fs = text_fields(tag, l);
    if l.len() > 0 {
        assert(fs.drop_last() =~= text_fields(tag, l.drop_last()));
        lemma_text_fields(tag, l.drop_last());
        vstd::utf8::encode_utf8_valid_utf8(l.last());
        vstd::utf8::encode_utf8_decode_utf8(l.last());
        assert(l.drop_last().push(l.last()) =~= l);
    } else {
        assert(l =~= Seq::empty());
    }
}

/// A text is read back from its field.
pub proof fn lemma_text_back(fs: Seq<(u32, Val)>, tag: u32, s: Seq<char>)
    requires
        with_tag(fs, tag) == bytes_field(tag, encode_utf8(s)),
    ensures
        text_field(fs, tag) == Some(s),
{
    lemma_text_list_with_tag(fs, tag);
    let one = bytes_field(tag, encode_utf8(s));
    vstd::utf8::encode_utf8_valid_utf8(s);
    vstd::utf8::encode_utf8_decode_utf8(s);
    if encode_utf8(s).len() == 0 {
        assert(encode_utf8(s) =~= Seq::empty());
        assert(decode_utf8(Seq::empty()) =~= Seq::empty());
    } else {
        assert(one.drop_last() =~= Seq::empty());
        assert(text_list(one.drop_last(), tag) == Some(Seq::<Seq<char>>::empty()));
        assert(text_list(one, tag).unwrap().last() == s);
    }
}

proof fn lemma_packed(l: Seq<u32>, rest: Seq<u8>)
    ensures
        packed(packed_bytes(l) + rest) == (match packed(rest) {
            Some(r) => Some(l + r),
            None => None,
        }),
    decreases l.len(),
{
    if l.len() == 0 {
        assert(packed_bytes(l) + rest =~= rest);
        if let Some(r) = packed(rest) {
            assert(l + r =~= r);
        }
    } else {
        let init = l.drop_last();
        let x = l.last();
        let tail = varint_bytes(x as nat) + rest;
        assert(packed_bytes(l) + rest =~= packed_bytes(init) + tail);
        lemma_packed(init, tail);
        law_varint_round_trip(x as u64, rest);
        lemma_varint_len(tail);
        assert(tail.skip(varint_bytes(x as nat).len() as int) =~= rest);
        if let Some(r) = packed(rest) {
            assert(packed(tail) == Some(seq![x] + r));
            assert(init + (seq![x] + r) =~= l + r);
        }
    }
}

/// A list of numbers is read back from its packed field.
pub proof fn lemma_packed_back(fs: Seq<(u32, Val)>, tag: u32, l: Seq<u32>)
    requires
        with_tag(fs, tag) == bytes_field(tag, packed_bytes(l)),
    ensures
        number_list(fs, tag) == Some(l),
{
    lemma_number_list_with_tag(fs, tag);
    let b = packed_bytes(l);
    let one = bytes_field(tag, b);
    lemma_packed(l, Seq::empty());
    assert(b + Seq::<u8>::empty() =~= b);
    assert(l + Seq::<u32>::empty() =~= l);
    assert(packed(Seq::empty()) == Some(Seq::<u32>::empty()));
    assert(packed(b) == Some(l));
    if b.len() == 0 {
        assert(b =~= Seq::empty());
    } else {
        assert(one.drop_last() =~= Seq::empty());
        assert(number_list(one.drop_last(), tag) == Some(Seq::<u32>::empty()));
        assert(Seq::<u32>::empty() + l =~= l);
    }
}

/// An entry of an acknowledgement map is read back.
pub proof fn lemma_entry_back(e: (u32, u64))
    ensures
        ack_entry(entry_bytes(e)) == Some(e),
{
    broadcast use group_with_tag;

    let a = number_field(1, e.0 as u64);
    let b = number_field(2, e.1);
    let fs = a + b;
    law_fields_round_trip(fs, ENTRY_DEPTH as nat);
    assert(with_tag(fs, 1) =~= a);
    assert(with_tag(fs, 2) =~= b);
    lemma_number_back(fs, 1, e.0 as u64);
    lemma_number_back(fs, 2, e.1);
}

/// An acknowledgement map is read back from its fields.
pub proof fn lemma_acks_back(fs: Seq<(u32, Val)>, tag: u32, es: Seq<(u32, u64)>)
    requires
        with_tag(fs, tag) == ack_fields(tag, es),
    ensures
        ack_map(fs, tag) == Some(map_of(es)),
{
    lemma_ack_map_with_tag(fs, tag);
    lemma_ack_fields(tag, es);
}

proof fn lemma_ack_fields(tag: u32, es: Seq<(u32, u64)>)
    ensures
        ack_map(ack_fields(tag, es), tag) == Some(map_of(es)),
    decreases es.len(),
{
    let fs = ack_fields(tag, es);
    if es.len() > 0 {
        assert(fs.drop_last() =~= ack_fields(tag, es.drop_last()));
        lemma_ack_fields(tag, es.drop_last());
        lemma_entry_back(es.last());
    }
}

/// Appending fields to a message appends them to its bytes.
pub proof fn lemma_append_fields(start: Seq<u8>, a: Seq<(u32, Val)>, b: Seq<(u32, Val)>)
    ensures
        start + fields_bytes(a) + fields_bytes(b) == start + fields_bytes(a + b),
{
    lemma_fields_bytes_concat(a, b);
    assert(start + fields_bytes(a) + fields_bytes(b) =~= start + fields_bytes(a + b));
}

/// Whether fields have numbers in range, and hold numbers or bytes.
pub open spec fn sendable(fs: Seq<(u32, Val)>) -> bool {
    forall|i: int|
        0 <= i < fs.len() ==> 1 <= (#[trigger] fs[i]).0 < 0x2000_0000 && !(fs[i].1 is Other)
}

/// `sendable` of two groups of fields.
pub broadcast proof fn lemma_sendable_concat(a: Seq<(u32, Val)>, b: Seq<(u32, Val)>)
    requires
        sendable(a),
        sendable(b),
    ensures
        #[trigger] sendable(a + b),
{
    let s = a + b;
    assert forall|i: int| 0 <= i < s.len() implies 1 <= (#[trigger] s[i]).0 < 0x2000_0000 && !(
    s[i].1 is Other) by {
        if i < a.len() {
            assert(s[i] == a[i]);
        } else {
            assert(s[i] == b[i - a.len()]);
        }
    }
}

/// `sendable` of the field of a number.
pub broadcast proof fn lemma_sendable_number(tag: u32, v: u64)
    requires
        1 <= tag < 0x2000_0000,
    ensures
        #[trigger] sendable(number_field(tag, v)),
{
}

/// `sendable` of the field of a byte string.
pub broadcast proof fn lemma_sendable_bytes(tag: u32, b: Seq<u8>)
    requires
        1 <= tag < 0x2000_0000,
    ensures
        #[trigger] sendable(bytes_field(tag, b)),
{
}

/// `sendable` of the fields of a list of texts.
pub broadcast proof fn lemma_sendable_texts(tag: u32, l: Seq<Seq<char>>)
    requires
        1 <= tag < 0x2000_0000,
    ensures
        #[trigger] sendable(text_fields(tag, l)),
{
}

/// `sendable` of the fields of an acknowledgement map.
pub broadcast proof fn lemma_sendable_acks(tag: u32, es: Seq<(u32, u64)>)
    requires
        1 <= tag < 0x2000_0000,
    ensures
        #[trigger] sendable(ack_fields(tag, es)),
{
}

/// What is known of fields that can be sent.
pub broadcast group group_sendable {
    lemma_sendable_concat,
    lemma_sendable_number,
    lemma_sendable_bytes,
    lemma_sendable_texts,
    lemma_sendable_acks,
}

/// No field is larger than the message it stands in.
pub proof fn lemma_field_sizes(fs: Seq<(u32, Val)>)
    ensures
        forall|i: int|
            0 <= i < fs.len() ==> ((#[trigger] fs[i]).1 matches Val::Bytes(b) ==> b.len()
                <= fields_bytes(fs).len()),
    decreases fs.len(),
{
    if fs.len() > 0 {
        let rest = fs.skip(1);
        lemma_field_sizes(rest);
        assert forall|i: int| 0 <= i < fs.len() implies ((#[trigger] fs[i]).1 matches Val::Bytes(b)
            ==> b.len() <= fields_bytes(fs).len()) by {
            if i > 0 {
                assert(fs[i] == rest[i - 1]);
            }
        }
    }
}

/// Where a field stands more than once its last value counts; fields of other numbers do not
/// matter, and a field that is not there is zero or empty.
pub proof fn law_last_value_counts(fs: Seq<(u32, Val)>, tag: u32, other: u32, v: u64, b: Seq<u8>)
    requires
        other != tag,
    ensures
        number(fs, tag) is Some ==> number(fs.push((tag, Val::Varint(v))), tag) == Some(v),
        byte_string(fs, tag) is Some ==> byte_string(fs.push((tag, Val::Bytes(b))), tag) == Some(b),
        forall|x: Val| number(#[trigger] fs.push((other, x)), tag) == number(fs, tag),
        forall|x: Val| byte_string(#[trigger] fs.push((other, x)), tag) == byte_string(fs, tag),
        number(Seq::empty(), tag) == Some(0u64),
        byte_string(Seq::empty(), tag) == Some(Seq::<u8>::empty()),
        number(fs.push((tag, Val::Bytes(b))), tag) is None,
        byte_string(fs.push((tag, Val::Varint(v))), tag) is None,
{
    assert forall|x: Val| number(#[trigger] fs.push((other, x)), tag) == number(fs, tag) by {
        assert(fs.push((other, x)).drop_last() =~= fs);
    }
    assert forall|x: Val| byte_string(#[trigger] fs.push((other, x)), tag) == byte_string(
        fs,
        tag,
    ) by {
        assert(fs.push((other, x)).drop_last() =~= fs);
    }
    assert(fs.push((tag, Val::Varint(v))).drop_last() =~= fs);
    assert(fs.push((tag, Val::Bytes(b))).drop_last() =~= fs);
}

/// The texts of a list stand in the order of their fields, and of two entries of a map for one
/// stream the later counts.
pub proof fn law_lists_keep_order(
    fs: Seq<(u32, Val)>,
    tag: u32,
    text: Seq<char>,
    entries: Seq<(u32, u64)>,
    id: u32,
    v: u64,
)
    ensures
        text_list(fs, tag) matches Some(l) ==> text_list(
            fs.push((tag, Val::Bytes(encode_utf8(text)))),
            tag,
        ) == Some(l.push(text)),
        map_of(entries.push((id, v))) == map_of(entries).insert(id, v),
{
    vstd::utf8::encode_utf8_valid_utf8(text);
    vstd::utf8::encode_utf8_decode_utf8(text);
    assert(fs.push((tag, Val::Bytes(encode_utf8(text)))).drop_last() =~= fs);
    assert(entries.push((id, v)).drop_last() =~= entries);
}

} // verus!
