//! Bytes as hexadecimal text.
use vstd::prelude::*;

use crate::text::chars_of;

verus! {

/// The value of a hexadecimal digit, in either letter case.
pub open spec fn hex_digit(c: char) -> Option<u8> {
    if '0' <= c <= '9' {
        Some((c as u8 - 48) as u8)
    } else if 'a' <= c <= 'f' {
        Some((c as u8 - 87) as u8)
    } else if 'A' <= c <= 'F' {
        Some((c as u8 - 55) as u8)
    } else {
        None
    }
}

/// The byte that two characters write: two digits, or one behind a plus sign.
pub open spec fn hex_pair(a: char, b: char) -> Option<u8> {
    match (hex_digit(a), hex_digit(b)) {
        (Some(x), Some(y)) => Some((x * 16 + y) as u8),
        (None, Some(y)) => if a == '+' {
            Some(y)
        } else {
            None
        },
        _ => None,
    }
}

/// The bytes that `s` writes, two characters each.
pub open spec fn hex_value(s: Seq<char>) -> Option<Seq<u8>>
    decreases s.len(),
{
    if s.len() == 0 {
        Some(Seq::empty())
    } else if s.len() == 1 {
        None
    } else {
        match (hex_pair(s[0], s[1]), hex_value(s.skip(2))) {
            (Some(b), Some(rest)) => Some(seq![b] + rest),
            _ => None,
        }
    }
}

/// The lower-case hexadecimal digit for `d`, which is below sixteen.
pub open spec fn hex_char(d: u8) -> char {
    if d < 10 {
        (48 + d) as u8 as char
    } else {
        (87 + d) as u8 as char
    }
}

/// `bytes` as hexadecimal text: two lower-case digits each.
pub open spec fn hex_text(bytes: Seq<u8>) -> Seq<char>
    decreases bytes.len(),
{
    if bytes.len() == 0 {
        Seq::empty()
    } else {
        hex_text(bytes.drop_last()).push(hex_char(bytes.last() / 16)).push(
            hex_char(bytes.last() % 16),
        )
    }
}

/// The value of a hexadecimal digit.
fn digit(c: char) -> (r: Option<u8>)
    ensures
        r == hex_digit(c),
{
    if '0' <= c && c <= '9' {
        Some(c as u8 - 48)
    } else if 'a' <= c && c <= 'f' {
        Some(c as u8 - 87)
    } else if 'A' <= c && c <= 'F' {
        Some(c as u8 - 55)
    } else {
        None
    }
}

/// The byte that two characters write.
fn pair(a: char, b: char) -> (r: Option<u8>)
    ensures
        r == hex_pair(a, b),
{
    match (digit(a), digit(b)) {
        (Some(x), Some(y)) => Some(x * 16 + y),
        (None, Some(y)) => if a == '+' {
            Some(y)
        } else {
            None
        },
        _ => None,
    }
}

/// The bytes that `s` writes in hexadecimal. `None` where the text has an odd length or
/// holds anything but hexadecimal pairs.
pub fn hex_decode(s: &str) -> (r: Option<Vec<u8>>)
    ensures
        match r {
            Some(bytes) => hex_value(s@) == Some(bytes@),
            None => hex_value(s@) is None,
        },
{
    let cs = chars_of(s);
    let n: usize = cs.len();
    let mut out: Vec<u8> = Vec::new();
    let mut i: usize = 0;
    proof {
        assert(s@.skip(0) =~= s@);
        if let Some(rest) = hex_value(s@) {
            assert(out@ + rest =~= rest);
        }
    }
    while i < n
        invariant
            i <= n == cs@.len(),
            cs@ == s@,
            hex_value(s@) == (match hex_value(s@.skip(i as int)) {
                Some(rest) => Some(out@ + rest),
                None => None,
            }),
        decreases n - i,
    {
        let ghost here = s@.skip(i as int);
        if n - i < 2 {
            return None;
        }
        assert(here[0] == cs@[i as int] && here[1] == cs@[i + 1]);
        assert(here.skip(2) =~= s@.skip(i + 2));
        match pair(cs[i], cs[i + 1]) {
            Some(b) => {
                proof {
                    if let Some(rest) = hex_value(s@.skip(i + 2)) {
                        assert(out@ + (seq![b] + rest) =~= out@.push(b) + rest);
                    }
                }
                out.push(b);
            },
            None => {
                return None;
            },
        }
        i = i + 2;
    }
    assert(out@ + Seq::<u8>::empty() =~= out@);
    Some(out)
}

/// `bytes` as hexadecimal text: two lower-case digits each.
pub fn hex_encode(bytes: &[u8]) -> (r: String)
    ensures
        r@ == hex_text(bytes@),
{
    let mut r: String = String::new();
    assert(bytes@.take(0) =~= Seq::empty());
    for i in 0..bytes.len()
        invariant
            r@ == hex_text(bytes@.take(i as int)),
    {
        let b: u8 = bytes[i];
        assert(bytes@.take(i + 1).drop_last() =~= bytes@.take(i as int));
        r.push(lower_digit(b / 16));
        r.push(lower_digit(b % 16));
    }
    assert(bytes@.take(bytes@.len() as int) =~= bytes@);
    r
}

/// The lower-case hexadecimal digit for `d`.
fn lower_digit(d: u8) -> (r: char)
    requires
        d < 16,
    ensures
        r == hex_char(d),
{
    if d < 10 {
        (48 + d) as char
    } else {
        (87 + d) as char
    }
}

proof fn lemma_hex_value_concat(a: Seq<char>, b: Seq<char>)
    requires
        a.len() % 2 == 0,
    ensures
        hex_value(a + b) == (match (hex_value(a), hex_value(b)) {
            (Some(x), Some(y)) => Some(x + y),
            _ => None,
        }),
    decreases a.len(),
{
    if a.len() == 0 {
        assert(a + b =~= b);
        if let Some(y) = hex_value(b) {
            assert(Seq::<u8>::empty() + y =~= y);
        }
    } else {
        assert((a + b).skip(2) =~= a.skip(2) + b);
        lemma_hex_value_concat(a.skip(2), b);
        if let (Some(x), Some(y)) = (hex_value(a.skip(2)), hex_value(b)) {
            if let Some(h) = hex_pair(a[0], a[1]) {
                assert(seq![h] + (x + y) =~= (seq![h] + x) + y);
            }
        }
    }
}

/// Decoding what was encoded gives the bytes back, and the text is twice as long.
pub proof fn law_hex_round_trip(bytes: Seq<u8>)
    ensures
        hex_value(hex_text(bytes)) == Some(bytes),
        hex_text(bytes).len() == 2 * bytes.len(),
    decreases bytes.len(),
{
    if bytes.len() > 0 {
        let b = bytes.last();
        let init = bytes.drop_last();
        law_hex_round_trip(init);
        let two = seq![hex_char(b / 16), hex_char(b % 16)];
        assert(hex_text(bytes) =~= hex_text(init) + two);
        lemma_hex_value_concat(hex_text(init), two);
        assert(hex_pair(two[0], two[1]) == Some(b));
        assert(two.skip(2) =~= Seq::empty());
        assert(seq![b] + Seq::<u8>::empty() =~= seq![b]);
        assert(hex_value(two.skip(2)) == Some(Seq::<u8>::empty()));
        assert(hex_value(two) == Some(seq![b]));
        assert(init + seq![b] =~= bytes);
    } else {
        assert(hex_text(bytes) =~= Seq::empty());
        assert(bytes =~= Seq::empty());
    }
}

/// Hexadecimal text holds hexadecimal digits only.
pub proof fn lemma_hex_chars(bytes: Seq<u8>)
    ensures
        hex_text(bytes).len() == 2 * bytes.len(),
        forall|i: int|
            0 <= i < hex_text(bytes).len() ==> hex_digit(#[trigger] hex_text(bytes)[i]) is Some,
    decreases bytes.len(),
{
    if bytes.len() > 0 {
        lemma_hex_chars(bytes.drop_last());
        let b = bytes.last();
        let t = hex_text(bytes);
        let init = hex_text(bytes.drop_last());
        assert forall|i: int| 0 <= i < t.len() implies hex_digit(#[trigger] t[i]) is Some by {
            if i < init.len() {
                assert(t[i] == init[i]);
            } else if i == init.len() {
                assert(t[i] == hex_char(b / 16));
            } else {
                assert(t[i] == hex_char(b % 16));
            }
        }
    }
}

/// A byte is written as two digits, the high one first: digits, then the letters `a` to `f`.
pub proof fn law_hex_digits(bytes: Seq<u8>, i: int)
    requires
        0 <= i < bytes.len(),
    ensures
        hex_text(bytes).len() == 2 * bytes.len(),
        hex_text(bytes)[2 * i] == "0123456789abcdef"@[bytes[i] as int / 16],
        hex_text(bytes)[2 * i + 1] == "0123456789abcdef"@[bytes[i] as int % 16],
    decreases bytes.len(),
{
    reveal_strlit("0123456789abcdef");
    law_hex_round_trip(bytes);
    let init = bytes.drop_last();
    law_hex_round_trip(init);
    if i < init.len() {
        law_hex_digits(init, i);
        assert(hex_text(bytes)[2 * i] == hex_text(init)[2 * i]);
        assert(hex_text(bytes)[2 * i + 1] == hex_text(init)[2 * i + 1]);
    }
}

/// Digits are read in either letter case, and text of odd length is refused.
pub proof fn law_hex_reading(s: Seq<char>, a: char, b: char)
    ensures
        s.len() % 2 == 1 ==> hex_value(s) is None,
        'a' <= a <= 'f' && '0' <= b <= '9' ==> hex_pair(a, b) == Some(
            ((a as u8 - 87) * 16 + (b as u8 - 48)) as u8,
        ),
        'A' <= a <= 'F' && '0' <= b <= '9' ==> hex_pair(a, b) == Some(
            ((a as u8 - 55) * 16 + (b as u8 - 48)) as u8,
        ),
        'G' <= b <= 'Z' || 'g' <= b <= 'z' ==> hex_pair(a, b) is None,
    decreases s.len(),
{
    if s.len() >= 2 {
        law_hex_reading(s.skip(2), a, b);
    }
}

} // verus!
