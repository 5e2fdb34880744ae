//! Sequences of bytes.
use vstd::arithmetic::power::pow;
use vstd::prelude::*;

verus! {

/// Appends `data` to `out`.
pub fn push_all(out: &mut Vec<u8>, data: &[u8])
    ensures
        final(out)@ == old(out)@ + data@,
{
    for i in 0..data.len()
        invariant
            out@ == old(out)@ + data@.take(i as int),
    {
        out.push(data[i]);
        assert(out@ =~= old(out)@ + data@.take(i + 1));
    }
    assert(data@.take(data@.len() as int) =~= data@);
}

/// A copy of `data`.
pub fn to_vec(data: &[u8]) -> (r: Vec<u8>)
    ensures
        r@ == data@,
{
    let mut r: Vec<u8> = Vec::new();
    push_all(&mut r, data);
    assert(r@ =~= data@);
    r
}

/// `data` as an array, where it has exactly 32 bytes.
pub fn to_array32(data: &[u8]) -> (r: Option<[u8; 32]>)
    ensures
        match r {
            Some(a) => data@.len() == 32 && a@ == data@,
            None => data@.len() != 32,
        },
{
    if data.len() != 32 {
        return None;
    }
    let mut a: [u8; 32] = [0; 32];
    for i in 0..32
        invariant
            data@.len() == 32,
            forall|j: int| 0 <= j < i ==> a@[j] == data@[j],
    {
        a[i] = data[i];
    }
    assert(a@ =~= data@);
    Some(a)
}

/// `data` as an array, where it has exactly 16 bytes.
pub fn to_array16(data: &[u8]) -> (r: Option<[u8; 16]>)
    ensures
        match r {
            Some(a) => data@.len() == 16 && a@ == data@,
            None => data@.len() != 16,
        },
{
    if data.len() != 16 {
        return None;
    }
    let mut a: [u8; 16] = [0; 16];
    for i in 0..16
        invariant
            data@.len() == 16,
            forall|j: int| 0 <= j < i ==> a@[j] == data@[j],
    {
        a[i] = data[i];
    }
    assert(a@ =~= data@);
    Some(a)
}

// ---------------------------------------------------------------------------
// Numbers, most significant byte first
// ---------------------------------------------------------------------------

/// The low `n` bytes of `v`, most significant first.
pub open spec fn be_bytes(v: nat, n: nat) -> Seq<u8>
    decreases n,
{
    if n == 0 {
        Seq::empty()
    } else {
        be_bytes(v / 256, (n - 1) as nat).push((v % 256) as u8)
    }
}

/// The number whose bytes, most significant first, are `b`.
pub open spec fn be_value(b: Seq<u8>) -> nat
    decreases b.len(),
{
    if b.len() == 0 {
        0
    } else {
        be_value(b.drop_last()) * 256 + b.last() as nat
    }
}

/// The length of `be_bytes`, and what it reads back as: the number, where it fits.
pub proof fn lemma_be_bytes(v: nat, n: nat)
    ensures
        be_bytes(v, n).len() == n,
        v < pow(256, n) ==> be_value(be_bytes(v, n)) == v,
    decreases n,
{
    reveal(pow);
    if n > 0 {
        lemma_be_bytes(v / 256, (n - 1) as nat);
        assert(be_bytes(v, n).drop_last() =~= be_bytes(v / 256, (n - 1) as nat));
        if v < pow(256, n) {
            assert(v / 256 < pow(256, (n - 1) as nat)) by (nonlinear_arith)
                requires
                    v < 256 * pow(256, (n - 1) as nat),
            ;
        }
    }
}

/// Bytes are those of the number that they write.
pub proof fn lemma_be_value_bytes(b: Seq<u8>)
    ensures
        be_bytes(be_value(b), b.len()) == b,
        be_value(b) < pow(256, b.len()),
    decreases b.len(),
{
    reveal(pow);
    if b.len() > 0 {
        lemma_be_value_bytes(b.drop_last());
        let v = be_value(b);
        assert(v / 256 == be_value(b.drop_last()) && v % 256 == b.last() as nat);
        assert(b.drop_last().push(b.last()) =~= b);
    } else {
        assert(b =~= Seq::empty());
    }
}

/// Eight bytes hold a 64-bit number.
pub proof fn lemma_be_u64(v: u64)
    ensures
        be_bytes(v as nat, 8).len() == 8,
        be_value(be_bytes(v as nat, 8)) == v,
{
    lemma_pow_64();
    lemma_be_bytes(v as nat, 8);
}

/// Four bytes hold a 32-bit number.
pub proof fn lemma_be_u32(v: u32)
    ensures
        be_bytes(v as nat, 4).len() == 4,
        be_value(be_bytes(v as nat, 4)) == v,
{
    lemma_pow_64();
    lemma_be_bytes(v as nat, 4);
}

proof fn lemma_pow_64()
    ensures
        pow(256, 4) == 0x1_0000_0000,
        pow(256, 8) == 0x1_0000_0000_0000_0000,
{
    reveal_with_fuel(pow, 9);
}

/// The eight bytes of `v`, most significant first.
pub fn u64_to_be(v: u64) -> (r: [u8; 8])
    ensures
        r@ == be_bytes(v as nat, 8),
{
    let v1: u64 = v / 256;
    let v2: u64 = v1 / 256;
    let v3: u64 = v2 / 256;
    let v4: u64 = v3 / 256;
    let v5: u64 = v4 / 256;
    let v6: u64 = v5 / 256;
    let v7: u64 = v6 / 256;
    let r = [
        (v7 % 256) as u8,
        (v6 % 256) as u8,
        (v5 % 256) as u8,
        (v4 % 256) as u8,
        (v3 % 256) as u8,
        (v2 % 256) as u8,
        (v1 % 256) as u8,
        (v % 256) as u8,
    ];
    proof {
        reveal_with_fuel(be_bytes, 9);
        assert(r@ =~= be_bytes(v as nat, 8));
    }
    r
}

/// The four bytes of `v`, most significant first.
pub fn u32_to_be(v: u32) -> (r: [u8; 4])
    ensures
        r@ == be_bytes(v as nat, 4),
{
    let v1: u32 = v / 256;
    let v2: u32 = v1 / 256;
    let v3: u32 = v2 / 256;
    let r = [(v3 % 256) as u8, (v2 % 256) as u8, (v1 % 256) as u8, (v % 256) as u8];
    proof {
        reveal_with_fuel(be_bytes, 5);
        assert(r@ =~= be_bytes(v as nat, 4));
    }
    r
}

/// The number whose bytes, most significant first, are `b`.
pub fn u64_from_be(b: &[u8]) -> (r: u64)
    requires
        b@.len() <= 8,
    ensures
        r == be_value(b@),
{
    let mut r: u64 = 0;
    assert(b@.take(0) =~= Seq::empty());
    for i in 0..b.len()
        invariant
            b@.len() <= 8,
            r == be_value(b@.take(i as int)),
    {
        assert(b@.take(i + 1).drop_last() =~= b@.take(i as int));
        proof {
            lemma_be_value_bytes(b@.take(i as int));
            lemma_pow_mono(i as nat, 7);
        }
        r = r * 256 + b[i] as u64;
    }
    assert(b@.take(b@.len() as int) =~= b@);
    r
}

proof fn lemma_pow_mono(a: nat, b: nat)
    requires
        a <= b <= 7,
    ensures
        pow(256, a) <= 0x100_0000_0000_0000,
{
    reveal_with_fuel(pow, 8);
}

/// A number is written most significant byte first: four bytes, and eight.
pub proof fn law_most_significant_first(v: u64, w: u32)
    ensures
        be_bytes(w as nat, 4) == seq![
            (w / 0x100_0000) as u8,
            (w / 0x1_0000 % 256) as u8,
            (w / 256 % 256) as u8,
            (w % 256) as u8,
        ],
        be_bytes(v as nat, 8).len() == 8,
        be_bytes(v as nat, 8)[0] == v / 0x100_0000_0000_0000,
        be_bytes(v as nat, 8)[3] == v / 0x1_0000_0000 % 256,
        be_bytes(v as nat, 8)[6] == v / 256 % 256,
        be_bytes(v as nat, 8)[7] == v % 256,
{
    reveal_with_fuel(be_bytes, 9);
    assert(be_bytes(w as nat, 4) =~= seq![
        (w / 0x100_0000) as u8,
        (w / 0x1_0000 % 256) as u8,
        (w / 256 % 256) as u8,
        (w % 256) as u8,
    ]);
}

/// The bytes of a number weigh 256 times more with each place towards the front.
pub proof fn law_bytes_weigh(b: Seq<u8>, last: u8)
    ensures
        be_value(Seq::empty()) == 0,
        be_value(b.push(last)) == 256 * be_value(b) + last,
{
    assert(b.push(last).drop_last() =~= b);
}

} // verus!
