//! The protobuf wire format: a message is a sequence of numbered fields.
//!
//! A field is read and written here without knowing which message it belongs to; the
//! messages themselves are in [`crate::protocol`].
use vstd::prelude::*;

use crate::bytes::push_all;

verus! {

// ---------------------------------------------------------------------------
// Variable-length integers
// ---------------------------------------------------------------------------

/// The number at the start of `b` and the count of bytes it takes: seven bits a byte,
/// least significant first, with the high bit set on all bytes but the last.
pub open spec fn leb128(b: Seq<u8>) -> Option<(nat, nat)>
    decreases b.len(),
{
    if b.len() == 0 {
        None
    } else if b[0] < 128 {
        Some((b[0] as nat, 1))
    } else {
        match leb128(b.skip(1)) {
            Some((v, n)) => Some(((b[0] - 128 + 128 * v) as nat, n + 1)),
            None => None,
        }
    }
}

/// The 64-bit number at the start of `b` and the count of bytes it takes, at most ten.
pub open spec fn varint(b: Seq<u8>) -> Option<(u64, nat)> {
    match leb128(b) {
        Some((v, n)) => if n <= 10 && v <= u64::MAX {
            Some((v as u64, n))
        } else {
            None
        },
        None => None,
    }
}

/// How `v` is written, in as few bytes as it needs.
pub open spec fn varint_bytes(v: nat) -> Seq<u8>
    decreases v,
{
    if v < 128 {
        seq![v as u8]
    } else {
        seq![(v % 128 + 128) as u8] + varint_bytes(v / 128)
    }
}

/// Reads a variable-length integer with `prost::encoding::decode_varint`, and returns it
/// with what follows it. The call fails where the bytes end early, go on past ten, or
/// write a number beyond 64 bits.
#[verifier::external_body]
pub(crate) fn read_varint<'a>(data: &'a [u8]) -> (r: Option<(u64, &'a [u8])>)
    ensures
        match varint(data@) {
            Some((v, n)) => r matches Some((w, rest)) && w == v && rest@ == data@.skip(n as int),
            None => r is None,
        },
{
    let mut rest = data;
    match prost::encoding::decode_varint(&mut rest) {
        Ok(v) => Some((v, rest)),
        Err(_) => None,
    }
}

/// Writes a variable-length integer with `prost::encoding::encode_varint`, which appends
/// the number in as few bytes as it needs.
#[verifier::external_body]
pub(crate) fn write_varint(out: &mut Vec<u8>, v: u64)
    ensures
        final(out)@ == old(out)@ + varint_bytes(v as nat),
{
    prost::encoding::encode_varint(v, out);
}

proof fn lemma_leb128_len(b: Seq<u8>)
    ensures
        leb128(b) matches Some((v, n)) ==> 0 < n <= b.len(),
    decreases b.len(),
{
    if b.len() > 0 && b[0] >= 128 {
        lemma_leb128_len(b.skip(1));
    }
}

/// A varint takes at least one byte, and none beyond the input.
pub proof fn lemma_varint_len(b: Seq<u8>)
    ensures
        varint(b) matches Some((v, n)) ==> 0 < n <= b.len(),
{
    lemma_leb128_len(b);
}

proof fn lemma_leb128_bytes(v: nat, rest: Seq<u8>)
    ensures
        leb128(varint_bytes(v) + rest) == Some((v, varint_bytes(v).len())),
        varint_bytes(v).len() > 0,
    decreases v,
{
    let s = varint_bytes(v) + rest;
    if v < 128 {
        assert(s[0] == v as u8);
    } else {
        lemma_leb128_bytes(v / 128, rest);
        assert(s[0] == (v % 128 + 128) as u8);
        assert(s.skip(1) =~= varint_bytes(v / 128) + rest);
    }
}

proof fn lemma_varint_bytes_len(v: nat, k: nat)
    requires
        v < vstd::arithmetic::power::pow(128, k),
        k > 0,
    ensures
        varint_bytes(v).len() <= k,
    decreases k,
{
    reveal(vstd::arithmetic::power::pow);
    if v >= 128 {
        assert(v / 128 < vstd::arithmetic::power::pow(128, (k - 1) as nat)) by (nonlinear_arith)
            requires
                v < 128 * vstd::arithmetic::power::pow(128, (k - 1) as nat),
        ;
        if k == 1 {
            assert(vstd::arithmetic::power::pow(128, 0) == 1);
        }
        lemma_varint_bytes_len(v / 128, (k - 1) as nat);
    }
}

/// Reading back a varint gives the number, and stops where it ends.
pub proof fn law_varint_round_trip(v: u64, rest: Seq<u8>)
    ensures
        varint(varint_bytes(v as nat) + rest) == Some((v, varint_bytes(v as nat).len())),
        varint_bytes(v as nat).len() <= 10,
{
    lemma_leb128_bytes(v as nat, rest);
    assert(vstd::arithmetic::power::pow(128, 10) == 0x40_0000_0000_0000_0000) by {
        reveal_with_fuel(vstd::arithmetic::power::pow, 11);
    }
    lemma_varint_bytes_len(v as nat, 10);
}

// ---------------------------------------------------------------------------
// Fields
// ---------------------------------------------------------------------------

/// How deep groups may nest in a message.
pub const RECURSION_LIMIT: u32 = 100;

/// What a field holds.
#[derive(Debug)]
pub enum WireValue {
    /// A number.
    Varint(u64),
    /// Bytes: a string, a byte string, a message, or packed numbers.
    Bytes(Vec<u8>),
    /// Something that no message uses: a fixed-width number or a group.
    Other,
}

/// What a field holds, as a value.
pub enum Val {
    /// A number.
    Varint(u64),
    /// Bytes.
    Bytes(Seq<u8>),
    /// Something that no message uses.
    Other,
}

/// A field: its number and what it holds.
#[derive(Debug)]
pub struct Field {
    /// The field's number.
    pub tag: u32,
    /// What it holds.
    pub value: WireValue,
}

impl WireValue {
    /// The value held.
    pub open spec fn view(self) -> Val {
        match self {
            WireValue::Varint(v) => Val::Varint(v),
            WireValue::Bytes(b) => Val::Bytes(b@),
            WireValue::Other => Val::Other,
        }
    }
}

impl Field {
    /// The number and the value.
    pub open spec fn view(self) -> (u32, Val) {
        (self.tag, self.value@)
    }
}

/// The values of a sequence of fields.
pub open spec fn field_values(v: Seq<Field>) -> Seq<(u32, Val)> {
    v.map_values(|f: Field| f@)
}

/// A field's number and wire type at the start of `b`, and the count of bytes they take.
pub open spec fn key_at(b: Seq<u8>) -> Option<(u32, u8, nat)> {
    match varint(b) {
        Some((v, n)) => if v <= u32::MAX && v % 8 <= 5 && v / 8 >= 1 {
            Some(((v / 8) as u32, (v % 8) as u8, n))
        } else {
            None
        },
        None => None,
    }
}

/// The count of bytes at the start of `b` that belong to the value of an unknown field.
pub open spec fn skip_len(b: Seq<u8>, tag: u32, wire_type: u8, depth: nat) -> Option<nat>
    decreases depth, b.len(), 1nat,
{
    if depth == 0 {
        None
    } else if wire_type == 0 {
        match varint(b) {
            Some((v, n)) => Some(n),
            None => None,
        }
    } else if wire_type == 1 {
        if b.len() >= 8 {
            Some(8)
        } else {
            None
        }
    } else if wire_type == 2 {
        match varint(b) {
            Some((v, n)) => if n + v <= b.len() {
                Some(n + v as nat)
            } else {
                None
            },
            None => None,
        }
    } else if wire_type == 3 {
        group_len(b, tag, depth)
    } else if wire_type == 5 {
        if b.len() >= 4 {
            Some(4)
        } else {
            None
        }
    } else {
        None
    }
}

/// The count of bytes at the start of `b` up to and with the end of the group `tag`.
pub open spec fn group_len(b: Seq<u8>, tag: u32, depth: nat) -> Option<nat>
    decreases depth, b.len(), 0nat,
{
    if depth == 0 {
        None
    } else {
        match key_at(b) {
            None => None,
            Some((t, w, k)) => if k == 0 || k > b.len() {
                None
            } else if w == 4 {
                if t == tag {
                    Some(k)
                } else {
                    None
                }
            } else {
                match skip_len(b.skip(k as int), t, w, (depth - 1) as nat) {
                    None => None,
                    Some(n) => if k + n > b.len() {
                        None
                    } else {
                        match group_len(b.skip((k + n) as int), tag, depth) {
                            None => None,
                            Some(m) => Some(k + n + m),
                        }
                    },
                }
            },
        }
    }
}

/// The field at the start of `b` and the count of bytes it takes.
pub open spec fn field_at(b: Seq<u8>, depth: nat) -> Option<((u32, Val), nat)> {
    match key_at(b) {
        None => None,
        Some((tag, w, k)) => {
            let rest = b.skip(k as int);
            if w == 0 {
                match varint(rest) {
                    Some((v, n)) => Some(((tag, Val::Varint(v)), k + n)),
                    None => None,
                }
            } else if w == 2 {
                match varint(rest) {
                    Some((v, n)) => if n + v <= rest.len() {
                        Some(
                            (
                                (tag, Val::Bytes(rest.subrange(n as int, n + v))),
                                (k + n + v) as nat,
                            ),
                        )
                    } else {
                        None
                    },
                    None => None,
                }
            } else {
                match skip_len(rest, tag, w, depth) {
                    Some(n) => Some(((tag, Val::Other), k + n)),
                    None => None,
                }
            }
        },
    }
}

/// The fields of the message `b`.
pub open spec fn fields(b: Seq<u8>, depth: nat) -> Option<Seq<(u32, Val)>>
    decreases b.len(),
{
    if b.len() == 0 {
        Some(Seq::empty())
    } else {
        match field_at(b, depth) {
            None => None,
            Some((f, n)) => if n == 0 || n > b.len() {
                None
            } else {
                match fields(b.skip(n as int), depth) {
                    Some(rest) => Some(seq![f] + rest),
                    None => None,
                }
            },
        }
    }
}

proof fn lemma_key_len(b: Seq<u8>)
    ensures
        key_at(b) matches Some((t, w, k)) ==> 0 < k <= b.len(),
{
    lemma_varint_len(b);
}

proof fn lemma_skip_len(b: Seq<u8>, tag: u32, wire_type: u8, depth: nat)
    ensures
        skip_len(b, tag, wire_type, depth) matches Some(n) ==> 0 < n <= b.len(),
        group_len(b, tag, depth) matches Some(n) ==> 0 < n <= b.len(),
    decreases depth, b.len(),
{
    lemma_varint_len(b);
    lemma_key_len(b);
    if depth > 0 {
        if let Some((t, w, k)) = key_at(b) {
            if w != 4 {
                let rest = b.skip(k as int);
                lemma_skip_len(rest, t, w, (depth - 1) as nat);
                if let Some(n) = skip_len(rest, t, w, (depth - 1) as nat) {
                    lemma_skip_len(b.skip((k + n) as int), tag, wire_type, depth);
                }
            }
        }
    }
}

proof fn lemma_field_len(b: Seq<u8>, depth: nat)
    ensures
        field_at(b, depth) matches Some((f, n)) ==> 0 < n <= b.len(),
{
    lemma_key_len(b);
    if let Some((tag, w, k)) = key_at(b) {
        lemma_varint_len(b.skip(k as int));
        lemma_skip_len(b.skip(k as int), tag, w, depth);
    }
}

/// Reads a field's number and wire type.
fn read_key<'a>(data: &'a [u8]) -> (r: Option<(u32, u8, &'a [u8])>)
    ensures
        match key_at(data@) {
            Some((t, w, k)) => r matches Some((tag, wire, rest)) && tag == t && wire == w && rest@
                == data@.skip(k as int),
            None => r is None,
        },
{
    match read_varint(data) {
        Some((v, rest)) => if v <= 0xffff_ffff && v % 8 <= 5 && v / 8 >= 1 {
            Some(((v / 8) as u32, (v % 8) as u8, rest))
        } else {
            None
        },
        None => None,
    }
}

/// What follows the first `n` bytes of `data`.
fn drop_bytes<'a>(data: &'a [u8], n: usize) -> (r: &'a [u8])
    requires
        n <= data@.len(),
    ensures
        r@ == data@.skip(n as int),
{
    let r = &data[n..data.len()];
    assert(r@ =~= data@.skip(n as int));
    r
}

/// What follows the value of an unknown field.
///
/// `depth` is what the nesting of the message leaves. `prost::encoding::skip_field` cannot be
/// called in place of this: outside of `prost` it can only be given the depth of a message that
/// is not nested.
fn skip_value<'a>(data: &'a [u8], tag: u32, wire_type: u8, depth: u32) -> (r: Option<&'a [u8]>)
    ensures
        match skip_len(data@, tag, wire_type, depth as nat) {
            Some(n) => r matches Some(rest) && rest@ == data@.skip(n as int),
            None => r is None,
        },
    decreases depth, data@.len(), 1nat,
{
    if depth == 0 {
        return None;
    }
    if wire_type == 0 {
        match read_varint(data) {
            Some((_, rest)) => Some(rest),
            None => None,
        }
    } else if wire_type == 1 {
        if data.len() >= 8 {
            Some(drop_bytes(data, 8))
        } else {
            None
        }
    } else if wire_type == 2 {
        match read_bytes(data) {
            Some((_, rest)) => Some(rest),
            None => None,
        }
    } else if wire_type == 3 {
        skip_group(data, tag, depth)
    } else if wire_type == 5 {
        if data.len() >= 4 {
            Some(drop_bytes(data, 4))
        } else {
            None
        }
    } else {
        None
    }
}

/// What follows the end of the group `tag`.
fn skip_group<'a>(data: &'a [u8], tag: u32, depth: u32) -> (r: Option<&'a [u8]>)
    requires
        depth > 0,
    ensures
        match group_len(data@, tag, depth as nat) {
            Some(n) => r matches Some(rest) && rest@ == data@.skip(n as int),
            None => r is None,
        },
    decreases depth, data@.len(), 0nat,
{
    proof {
        lemma_key_len(data@);
    }
    match read_key(data) {
        None => None,
        Some((t, w, rest)) => {
            if w == 4 {
                if t == tag {
                    Some(rest)
                } else {
                    None
                }
            } else {
                proof {
                    lemma_skip_len(rest@, t, w, (depth - 1) as nat);
                }
                match skip_value(rest, t, w, depth - 1) {
                    None => None,
                    Some(after) => {
                        let ghost k = key_at(data@).unwrap().2;
                        let ghost n = skip_len(rest@, t, w, (depth - 1) as nat).unwrap();
                        assert(after@ =~= data@.skip((k + n) as int));
                        let r = skip_group(after, tag, depth);
                        proof {
                            if let Some(m) = group_len(after@, tag, depth as nat) {
                                lemma_skip_len(after@, tag, 3, depth as nat);
                                assert(after@.skip(m as int) =~= data@.skip((k + n + m) as int));
                            }
                        }
                        r
                    },
                }
            }
        },
    }
}

/// The bytes behind a length prefix, and what follows them.
fn read_bytes<'a>(data: &'a [u8]) -> (r: Option<(&'a [u8], &'a [u8])>)
    ensures
        match varint(data@) {
            Some((v, n)) => if n + v <= data@.len() {
                r matches Some((bytes, rest)) && bytes@ == data@.subrange(n as int, n + v) && rest@
                    == data@.skip(n + v)
            } else {
                r is None
            },
            None => r is None,
        },
{
    proof {
        lemma_varint_len(data@);
    }
    match read_varint(data) {
        Some((v, rest)) => {
            if v > rest.len() as u64 {
                None
            } else {
                let ghost n = varint(data@).unwrap().1;
                let len: usize = v as usize;
                let bytes = &rest[0..len];
                let after = drop_bytes(rest, len);
                assert(bytes@ =~= data@.subrange(n as int, n + v));
                assert(after@ =~= data@.skip(n + v));
                Some((bytes, after))
            }
        },
        None => None,
    }
}

/// Reads one field.
fn read_field<'a>(data: &'a [u8], depth: u32) -> (r: Option<(Field, &'a [u8])>)
    ensures
        match field_at(data@, depth as nat) {
            Some((f, n)) => r matches Some((field, rest)) && field@ == f && rest@ == data@.skip(
                n as int,
            ),
            None => r is None,
        },
{
    proof {
        lemma_key_len(data@);
        lemma_field_len(data@, depth as nat);
    }
    match read_key(data) {
        None => None,
        Some((tag, w, rest)) => {
            let ghost k = key_at(data@).unwrap().2;
            proof {
                lemma_varint_len(rest@);
                lemma_skip_len(rest@, tag, w, depth as nat);
            }
            if w == 0 {
                match read_varint(rest) {
                    Some((v, after)) => {
                        let ghost n = varint(rest@).unwrap().1;
                        assert(after@ =~= data@.skip((k + n) as int));
                        Some((Field { tag, value: WireValue::Varint(v) }, after))
                    },
                    None => None,
                }
            } else if w == 2 {
                match read_bytes(rest) {
                    Some((bytes, after)) => {
                        let mut copy: Vec<u8> = Vec::new();
                        push_all(&mut copy, bytes);
                        assert(copy@ =~= bytes@);
                        let ghost n = varint(rest@).unwrap().1;
                        let ghost v = varint(rest@).unwrap().0;
                        assert(after@ =~= data@.skip((k + n + v) as int));
                        Some((Field { tag, value: WireValue::Bytes(copy) }, after))
                    },
                    None => None,
                }
            } else {
                match skip_value(rest, tag, w, depth) {
                    Some(after) => {
                        let ghost n = skip_len(rest@, tag, w, depth as nat).unwrap();
                        assert(after@ =~= data@.skip((k + n) as int));
                        Some((Field { tag, value: WireValue::Other }, after))
                    },
                    None => None,
                }
            }
        },
    }
}

/// Reads the fields of a message, to the end of `data`.
pub fn read_fields(data: &[u8], depth: u32) -> (r: Option<Vec<Field>>)
    ensures
        match r {
            Some(v) => fields(data@, depth as nat) == Some(field_values(v@)),
            None => fields(data@, depth as nat) is None,
        },
{
    let mut out: Vec<Field> = Vec::new();
    let mut rest = data;
    proof {
        if let Some(s) = fields(data@, depth as nat) {
            assert(field_values(out@) + s =~= s);
        }
    }
    while rest.len() > 0
        invariant
            fields(data@, depth as nat) == (match fields(rest@, depth as nat) {
                Some(s) => Some(field_values(out@) + s),
                None => None,
            }),
        decreases rest@.len(),
    {
        proof {
            lemma_field_len(rest@, depth as nat);
        }
        let ghost here = rest@;
        match read_field(rest, depth) {
            None => {
                return None;
            },
            Some((field, after)) => {
                let ghost old_out = field_values(out@);
                proof {
                    let n = field_at(here, depth as nat).unwrap().1;
                    if let Some(s) = fields(here.skip(n as int), depth as nat) {
                        assert(old_out + (seq![field@] + s) =~= old_out.push(field@) + s);
                    }
                    assert(field_values(out@.push(field)) =~= old_out.push(field@));
                }
                out.push(field);
                rest = after;
            },
        }
    }
    assert(field_values(out@) + Seq::<(u32, Val)>::empty() =~= field_values(out@));
    Some(out)
}

// ---------------------------------------------------------------------------
// Writing fields
// ---------------------------------------------------------------------------

/// Whether a field can be written: its number fits, and it holds a number or bytes.
pub open spec fn writable_field(f: (u32, Val)) -> bool {
    &&& 1 <= f.0 < 0x2000_0000
    &&& match f.1 {
        Val::Varint(_) => true,
        Val::Bytes(b) => b.len() <= u64::MAX,
        Val::Other => false,
    }
}

/// How a field is written.
pub open spec fn field_bytes(f: (u32, Val)) -> Seq<u8> {
    match f.1 {
        Val::Varint(v) => varint_bytes((f.0 * 8) as nat) + varint_bytes(v as nat),
        Val::Bytes(b) => varint_bytes((f.0 * 8 + 2) as nat) + varint_bytes(b.len()) + b,
        Val::Other => Seq::empty(),
    }
}

/// How a sequence of fields is written.
pub open spec fn fields_bytes(fs: Seq<(u32, Val)>) -> Seq<u8>
    decreases fs.len(),
{
    if fs.len() == 0 {
        Seq::empty()
    } else {
        field_bytes(fs[0]) + fields_bytes(fs.skip(1))
    }
}

/// Appends a number field.
pub fn write_varint_field(out: &mut Vec<u8>, tag: u32, v: u64)
    requires
        1 <= tag < 0x2000_0000,
    ensures
        final(out)@ == old(out)@ + field_bytes((tag, Val::Varint(v))),
{
    write_varint(out, tag as u64 * 8);
    write_varint(out, v);
    assert(out@ =~= old(out)@ + field_bytes((tag, Val::Varint(v))));
}

/// Appends a bytes field.
pub fn write_bytes_field(out: &mut Vec<u8>, tag: u32, b: &[u8])
    requires
        1 <= tag < 0x2000_0000,
    ensures
        final(out)@ == old(out)@ + field_bytes((tag, Val::Bytes(b@))),
{
    write_varint(out, tag as u64 * 8 + 2);
    write_varint(out, b.len() as u64);
    push_all(out, b);
    assert(out@ =~= old(out)@ + field_bytes((tag, Val::Bytes(b@))));
}

/// `fields_bytes` of one field more.
pub proof fn lemma_fields_bytes_push(fs: Seq<(u32, Val)>, f: (u32, Val))
    ensures
        fields_bytes(fs.push(f)) == fields_bytes(fs) + field_bytes(f),
    decreases fs.len(),
{
    let s = fs.push(f);
    if fs.len() == 0 {
        assert(s.skip(1) =~= Seq::empty());
        assert(fields_bytes(s.skip(1)) =~= Seq::empty());
        assert(fields_bytes(s) =~= field_bytes(f));
        assert(fields_bytes(fs) + field_bytes(f) =~= field_bytes(f));
    } else {
        assert(s.skip(1) =~= fs.skip(1).push(f));
        lemma_fields_bytes_push(fs.skip(1), f);
        assert(fields_bytes(s) =~= fields_bytes(fs) + field_bytes(f));
    }
}

proof fn lemma_field_round_trip(f: (u32, Val), rest: Seq<u8>, depth: nat)
    requires
        writable_field(f),
    ensures
        field_at(field_bytes(f) + rest, depth) == Some((f, field_bytes(f).len())),
        field_bytes(f).len() > 0,
{
    let s = field_bytes(f) + rest;
    match f.1 {
        Val::Varint(v) => {
            let head = varint_bytes((f.0 * 8) as nat);
            let tail = varint_bytes(v as nat);
            law_varint_round_trip((f.0 * 8) as u64, tail + rest);
            assert(s =~= head + (tail + rest));
            assert(s.skip(head.len() as int) =~= tail + rest);
            law_varint_round_trip(v, rest);
            lemma_varint_len(s);
        },
        Val::Bytes(b) => {
            let head = varint_bytes((f.0 * 8 + 2) as nat);
            let size = varint_bytes(b.len());
            law_varint_round_trip((f.0 * 8 + 2) as u64, size + (b + rest));
            assert(s =~= head + (size + (b + rest)));
            assert(s.skip(head.len() as int) =~= size + (b + rest));
            law_varint_round_trip(b.len() as u64, b + rest);
            lemma_varint_len(s);
            let r = size + (b + rest);
            assert(r.subrange(size.len() as int, (size.len() + b.len()) as int) =~= b);
        },
        Val::Other => {},
    }
}

proof fn lemma_fields_step(f: (u32, Val), rest: Seq<u8>, depth: nat)
    requires
        writable_field(f),
    ensures
        fields(field_bytes(f) + rest, depth) == (match fields(rest, depth) {
            Some(fs) => Some(seq![f] + fs),
            None => None,
        }),
{
    let b = field_bytes(f) + rest;
    lemma_field_round_trip(f, rest, depth);
    assert(b.skip(field_bytes(f).len() as int) =~= rest);
}

/// Reading what was written gives the same fields.
pub proof fn law_fields_round_trip(fs: Seq<(u32, Val)>, depth: nat)
    requires
        forall|i: int| 0 <= i < fs.len() ==> writable_field(#[trigger] fs[i]),
    ensures
        fields(fields_bytes(fs), depth) == Some(fs),
    decreases fs.len(),
{
    if fs.len() == 0 {
        assert(fs =~= Seq::empty());
    } else {
        let rest = fs.skip(1);
        assert forall|i: int| 0 <= i < rest.len() implies writable_field(#[trigger] rest[i]) by {
            assert(rest[i] == fs[i + 1]);
        }
        law_fields_round_trip(rest, depth);
        assert(writable_field(fs[0]));
        lemma_fields_step(fs[0], fields_bytes(rest), depth);
        assert(seq![fs[0]] + rest =~= fs);
    }
}

/// Numbers below 128 are one byte; every other byte but the last has its high bit set and
/// carries seven bits, the low ones first.
pub proof fn law_varint_bytes(v: nat)
    ensures
        v < 128 ==> varint_bytes(v) == seq![v as u8],
        v >= 128 ==> varint_bytes(v)[0] == 128 + v % 128 && varint_bytes(v).skip(1)
            == varint_bytes(v / 128),
{
    if v >= 128 {
        assert(varint_bytes(v).skip(1) =~= varint_bytes(v / 128));
    }
}

/// A field is written as its number and kind, and then its value: a number, or the length of
/// bytes and the bytes.
pub proof fn law_field_layout(tag: u32, v: u64, b: Seq<u8>)
    requires
        1 <= tag <= 15,
        b.len() < 128,
    ensures
        field_bytes((tag, Val::Varint(v))) == seq![(8 * tag) as u8] + varint_bytes(v as nat),
        field_bytes((tag, Val::Bytes(b))) == seq![(8 * tag + 2) as u8, b.len() as u8] + b,
{
    assert(field_bytes((tag, Val::Bytes(b))) =~= seq![(8 * tag + 2) as u8, b.len() as u8] + b);
}

/// Fields that nobody knows are passed over, whatever their kind: eight bytes for one kind, four
/// for another.
pub proof fn law_unknown_kinds_are_passed_over(tag: u32, b: Seq<u8>, depth: nat)
    requires
        depth > 0,
    ensures
        skip_len(b, tag, 1, depth) == (if b.len() >= 8 {
            Some(8nat)
        } else {
            None
        }),
        skip_len(b, tag, 5, depth) == (if b.len() >= 4 {
            Some(4nat)
        } else {
            None
        }),
        skip_len(b, tag, 4, depth) is None,
{
}

} // verus!
