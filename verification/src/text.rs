//! Text as sequences of characters.
//!
//! Every function here has two faces: a spec function on `Seq<char>`, which the
//! contracts of the other modules use, and an executable function on `&str` that
//! is proved to compute it.
use vstd::prelude::*;

verus! {

/// `String::push` appends one character at the end.
pub assume_specification[ String::push ](s: &mut String, c: char)
    ensures
        final(s)@ == old(s)@.push(c),
;

// ---------------------------------------------------------------------------
// Characters
// ---------------------------------------------------------------------------

/// The characters with the Unicode property `White_Space`.
pub open spec fn is_white(c: char) -> bool {
    ||| '\u{9}' <= c <= '\u{d}'
    ||| c == '\u{20}'
    ||| c == '\u{85}'
    ||| c == '\u{a0}'
    ||| c == '\u{1680}'
    ||| '\u{2000}' <= c <= '\u{200a}'
    ||| c == '\u{2028}'
    ||| c == '\u{2029}'
    ||| c == '\u{202f}'
    ||| c == '\u{205f}'
    ||| c == '\u{3000}'
}

/// Whether `c` is white space.
pub fn is_whitespace(c: char) -> (r: bool)
    ensures
        r == is_white(c),
{
    ('\u{9}' <= c && c <= '\u{d}') || c == '\u{20}' || c == '\u{85}' || c == '\u{a0}' || c
        == '\u{1680}' || ('\u{2000}' <= c && c <= '\u{200a}') || c == '\u{2028}' || c == '\u{2029}'
        || c == '\u{202f}' || c == '\u{205f}' || c == '\u{3000}'
}

/// Whether `c` is a decimal digit.
pub open spec fn is_digit(c: char) -> bool {
    '0' <= c <= '9'
}

/// The number that a decimal digit stands for.
pub open spec fn digit_value(c: char) -> nat {
    (c as u32 - 48) as nat
}

/// The decimal digit for `d`, which is below ten.
pub open spec fn digit_char(d: nat) -> char {
    (48 + d) as u8 as char
}

/// ASCII upper-case letters turned to lower case; every other character as it is.
pub open spec fn lower_char(c: char) -> char {
    if 'A' <= c <= 'Z' {
        (c as u8 + 32) as u8 as char
    } else {
        c
    }
}

/// `s` with ASCII upper-case letters turned to lower case.
pub open spec fn lower(s: Seq<char>) -> Seq<char> {
    s.map_values(|c: char| lower_char(c))
}

// ---------------------------------------------------------------------------
// Strings and their characters
// ---------------------------------------------------------------------------

/// The characters of `s`.
pub fn chars_of(s: &str) -> (v: Vec<char>)
    ensures
        v@ == s@,
{
    let mut v: Vec<char> = Vec::new();
    for c in it: s.chars()
        invariant
            v@ == it.seq().take(it.index()),
            it.seq() == s@,
    {
        v.push(c);
    }
    v
}

/// The string made of `cs[from..to]`.
pub fn substring(cs: &Vec<char>, from: usize, to: usize) -> (s: String)
    requires
        from <= to <= cs@.len(),
    ensures
        s@ == cs@.subrange(from as int, to as int),
{
    let mut s: String = String::new();
    let mut i: usize = from;
    while i < to
        invariant
            from <= i <= to <= cs@.len(),
            s@ == cs@.subrange(from as int, i as int),
        decreases to - i,
    {
        s.push(cs[i]);
        i = i + 1;
    }
    s
}

/// Whether `a` and `b` are the same text.
pub fn text_eq(a: &str, b: &str) -> (r: bool)
    ensures
        r == (a@ == b@),
{
    a.to_owned() == b.to_owned()
}

/// The texts that a vector of strings holds.
pub open spec fn texts(v: Seq<String>) -> Seq<Seq<char>> {
    v.map_values(|s: String| s@)
}

/// `texts` of a vector that has grown by one string.
pub proof fn lemma_texts_push(v: Seq<String>, s: String)
    ensures
        texts(v.push(s)) == texts(v).push(s@),
{
    assert(texts(v.push(s)) =~= texts(v).push(s@));
}

/// A copy of `s` in which ASCII upper-case letters are lower case.
pub fn to_lower(s: &str) -> (r: String)
    ensures
        r@ == lower(s@),
{
    let cs = chars_of(s);
    let mut r: String = String::new();
    for i in 0..cs.len()
        invariant
            cs@ == s@,
            r@ == lower(s@).take(i as int),
    {
        let c = cs[i];
        if 'A' <= c && c <= 'Z' {
            r.push((c as u8 + 32) as char);
        } else {
            r.push(c);
        }
        assert(lower(s@).take(i + 1) =~= lower(s@).take(i as int).push(lower_char(c)));
    }
    assert(lower(s@).take(cs@.len() as int) =~= lower(s@));
    r
}

// ---------------------------------------------------------------------------
// Prefixes and suffixes
// ---------------------------------------------------------------------------

/// Whether `s` begins with `p`.
pub open spec fn starts_with(s: Seq<char>, p: Seq<char>) -> bool {
    p.len() <= s.len() && s.take(p.len() as int) == p
}

/// Whether `s` ends with `p`.
pub open spec fn ends_with(s: Seq<char>, p: Seq<char>) -> bool {
    p.len() <= s.len() && s.skip(s.len() - p.len()) == p
}

/// What follows `prefix` in `s`, where `s` begins with it.
pub fn strip_prefix<'a>(s: &'a str, prefix: &str) -> (r: Option<&'a str>)
    ensures
        starts_with(s@, prefix@) <==> r is Some,
        r matches Some(rest) ==> rest@ == s@.skip(prefix@.len() as int),
{
    let n: usize = s.unicode_len();
    let k: usize = prefix.unicode_len();
    if k > n {
        return None;
    }
    let head = s.substring_char(0, k);
    assert(s@.take(k as int) =~= s@.subrange(0, k as int));
    if text_eq(head, prefix) {
        assert(s@.skip(k as int) =~= s@.subrange(k as int, n as int));
        Some(s.substring_char(k, n))
    } else {
        None
    }
}

/// What precedes `suffix` in `s`, where `s` ends with it.
pub fn strip_suffix<'a>(s: &'a str, suffix: &str) -> (r: Option<&'a str>)
    ensures
        ends_with(s@, suffix@) <==> r is Some,
        r matches Some(rest) ==> rest@ == s@.take(s@.len() - suffix@.len()),
{
    let n: usize = s.unicode_len();
    let k: usize = suffix.unicode_len();
    if k > n {
        return None;
    }
    let tail = s.substring_char(n - k, n);
    assert(s@.skip(n - k) =~= s@.subrange(n - k, n as int));
    if text_eq(tail, suffix) {
        assert(s@.take(n - k) =~= s@.subrange(0, n - k));
        Some(s.substring_char(0, n - k))
    } else {
        None
    }
}

// ---------------------------------------------------------------------------
// Trimming
// ---------------------------------------------------------------------------

/// `s` without the white space at its beginning.
pub open spec fn trim_start(s: Seq<char>) -> Seq<char>
    decreases s.len(),
{
    if s.len() > 0 && is_white(s[0]) {
        trim_start(s.skip(1))
    } else {
        s
    }
}

/// `s` without the white space at its end.
pub open spec fn trim_end(s: Seq<char>) -> Seq<char>
    decreases s.len(),
{
    if s.len() > 0 && is_white(s.last()) {
        trim_end(s.drop_last())
    } else {
        s
    }
}

/// `s` without the white space at either end.
pub open spec fn trim(s: Seq<char>) -> Seq<char> {
    trim_end(trim_start(s))
}

/// `s` without the white space at its end.
pub fn trim_tail<'a>(s: &'a str) -> (r: &'a str)
    ensures
        r@ == trim_end(s@),
{
    let cs = chars_of(s);
    let mut to: usize = cs.len();
    assert(cs@.take(to as int) =~= s@);
    while to > 0 && is_whitespace(cs[to - 1])
        invariant
            to <= cs@.len(),
            cs@ == s@,
            trim_end(s@) == trim_end(s@.take(to as int)),
        decreases to,
    {
        assert(s@.take(to as int).drop_last() =~= s@.take(to - 1));
        to = to - 1;
    }
    assert(s@.take(to as int) =~= s@.subrange(0, to as int));
    s.substring_char(0, to)
}

/// `s` without the white space at either end.
pub fn trim_both<'a>(s: &'a str) -> (r: &'a str)
    ensures
        r@ == trim(s@),
{
    let cs = chars_of(s);
    let n: usize = cs.len();
    let mut from: usize = 0;
    assert(s@.skip(0) =~= s@);
    while from < n && is_whitespace(cs[from])
        invariant
            from <= n == cs@.len(),
            cs@ == s@,
            trim_start(s@) == trim_start(s@.skip(from as int)),
        decreases n - from,
    {
        assert(s@.skip(from as int).skip(1) =~= s@.skip(from + 1));
        from = from + 1;
    }
    assert(s@.skip(from as int) =~= s@.subrange(from as int, n as int));
    trim_tail(s.substring_char(from, n))
}

// ---------------------------------------------------------------------------
// Searching and splitting
// ---------------------------------------------------------------------------

/// The place of the first `c` in `s`, or the length of `s` where there is none.
pub open spec fn first_index(s: Seq<char>, c: char) -> nat
    decreases s.len(),
{
    if s.len() == 0 || s[0] == c {
        0
    } else {
        1 + first_index(s.skip(1), c)
    }
}

/// The place of the last `c` in `s`, or -1 where there is none.
pub open spec fn last_index(s: Seq<char>, c: char) -> int
    decreases s.len(),
{
    if s.len() == 0 {
        -1
    } else if s.last() == c {
        s.len() - 1
    } else {
        last_index(s.drop_last(), c)
    }
}

/// What `first_index` promises: the place lies in range, holds `c` unless it is the
/// end, and no earlier place does.
pub proof fn lemma_first_index(s: Seq<char>, c: char)
    ensures
        0 <= first_index(s, c) <= s.len(),
        first_index(s, c) < s.len() ==> s[first_index(s, c) as int] == c,
        forall|i: int| 0 <= i < first_index(s, c) ==> s[i] != c,
    decreases s.len(),
{
    if s.len() > 0 && s[0] != c {
        lemma_first_index(s.skip(1), c);
        assert forall|i: int| 0 <= i < first_index(s, c) implies s[i] != c by {
            if i > 0 {
                assert(s[i] == s.skip(1)[i - 1]);
            }
        }
    }
}

/// A place that holds `c` with none before it is the first index.
pub proof fn lemma_first_index_is(s: Seq<char>, c: char, k: int)
    requires
        0 <= k <= s.len(),
        k < s.len() ==> s[k] == c,
        forall|i: int| 0 <= i < k ==> s[i] != c,
    ensures
        first_index(s, c) == k,
{
    lemma_first_index(s, c);
    let f = first_index(s, c) as int;
    if f < k {
        assert(s[f] != c);
    }
    if k < f {
        assert(s[k] != c);
    }
}

/// The place of the first `c` in `cs` at or after `from`, or the length of `cs`.
pub fn find_from(cs: &Vec<char>, from: usize, c: char) -> (r: usize)
    requires
        from <= cs@.len(),
    ensures
        from <= r <= cs@.len(),
        r - from == first_index(cs@.skip(from as int), c),
        r < cs@.len() ==> cs@[r as int] == c,
        forall|i: int| from <= i < r ==> cs@[i] != c,
{
    let n: usize = cs.len();
    let mut i: usize = from;
    while i < n && cs[i] != c
        invariant
            from <= i <= n == cs@.len(),
            forall|j: int| from <= j < i ==> cs@[j] != c,
        decreases n - i,
    {
        i = i + 1;
    }
    proof {
        let rest = cs@.skip(from as int);
        assert forall|j: int| 0 <= j < i - from implies rest[j] != c by {
            assert(rest[j] == cs@[from + j]);
        }
        lemma_first_index_is(rest, c, i - from);
    }
    i
}

/// The place of the last `c` in `cs`, where there is one.
pub fn rfind(cs: &Vec<char>, c: char) -> (r: Option<usize>)
    ensures
        r is None <==> last_index(cs@, c) < 0,
        r matches Some(i) ==> i == last_index(cs@, c) && i < cs@.len(),
{
    let mut to: usize = cs.len();
    assert(cs@.take(to as int) =~= cs@);
    while to > 0
        invariant
            to <= cs@.len(),
            last_index(cs@, c) == last_index(cs@.take(to as int), c),
        decreases to,
    {
        assert(cs@.take(to as int).drop_last() =~= cs@.take(to - 1));
        if cs[to - 1] == c {
            return Some(to - 1);
        }
        to = to - 1;
    }
    None
}

/// The parts of `s` between the occurrences of `c`: one more than there are `c`s.
pub open spec fn split_on(s: Seq<char>, c: char) -> Seq<Seq<char>>
    decreases s.len(),
{
    let k = first_index(s, c) as int;
    if k >= s.len() {
        seq![s]
    } else {
        seq![s.take(k)] + split_on(s.skip(k + 1), c)
    }
}

/// The parts of `s` between the occurrences of `c`.
pub fn split_text(s: &str, c: char) -> (r: Vec<String>)
    ensures
        texts(r@) == split_on(s@, c),
        r@.len() > 0,
{
    let cs = chars_of(s);
    let n: usize = cs.len();
    let mut r: Vec<String> = Vec::new();
    let mut start: usize = 0;
    proof {
        assert(s@.skip(0) =~= s@);
        assert(texts(r@) + split_on(s@, c) =~= split_on(s@, c));
    }
    loop
        invariant_except_break
            texts(r@) + split_on(s@.skip(start as int), c) == split_on(s@, c),
        invariant
            start <= n == cs@.len(),
            cs@ == s@,
        ensures
            texts(r@) == split_on(s@, c),
            r@.len() > 0,
        decreases n - start,
    {
        let ghost rest = s@.skip(start as int);
        let ghost done = texts(r@);
        let k: usize = find_from(&cs, start, c);
        let part = substring(&cs, start, k);
        assert(part@ =~= rest.take(k - start));
        proof {
            lemma_texts_push(r@, part);
        }
        r.push(part);
        if k == n {
            assert(part@ =~= rest);
            assert(done + seq![rest] =~= done.push(rest));
            break;
        }
        assert(rest.skip(k - start + 1) =~= s@.skip(k + 1));
        assert(done + (seq![part@] + split_on(s@.skip(k + 1), c)) =~= done.push(part@) + split_on(
            s@.skip(k + 1),
            c,
        ));
        start = k + 1;
    }
    r
}

/// Text without `c` in front of a `c` is the first part.
pub proof fn lemma_split_first(a: Seq<char>, b: Seq<char>, c: char)
    requires
        forall|i: int| 0 <= i < a.len() ==> a[i] != c,
    ensures
        split_on(a.push(c) + b, c) == seq![a] + split_on(b, c),
        split_on(a, c) == seq![a],
{
    let s = a.push(c) + b;
    assert forall|i: int| 0 <= i < a.len() implies s[i] != c by {
        assert(s[i] == a[i]);
    }
    lemma_first_index_is(s, c, a.len() as int);
    lemma_first_index_is(a, c, a.len() as int);
    assert(s.take(a.len() as int) =~= a);
    assert(s.skip(a.len() as int + 1) =~= b);
}

/// The part of `s` before the first `c`, or all of it.
pub open spec fn before(s: Seq<char>, c: char) -> Seq<char> {
    s.take(first_index(s, c) as int)
}

/// The part of `s` before the first `c`, or all of it.
pub fn text_before<'a>(s: &'a str, c: char) -> (r: &'a str)
    ensures
        r@ == before(s@, c),
{
    let cs = chars_of(s);
    let k: usize = find_from(&cs, 0, c);
    assert(s@.skip(0) =~= s@);
    assert(s@.take(k as int) =~= s@.subrange(0, k as int));
    s.substring_char(0, k)
}

/// The text before and after the first `c` in `s`, where there is one.
pub fn split_once<'a>(s: &'a str, c: char) -> (r: Option<(&'a str, &'a str)>)
    ensures
        r is None <==> first_index(s@, c) == s@.len(),
        r matches Some((a, b)) ==> {
            &&& a@ == s@.take(first_index(s@, c) as int)
            &&& b@ == s@.skip(first_index(s@, c) as int + 1)
        },
{
    let cs = chars_of(s);
    let n: usize = cs.len();
    let k: usize = find_from(&cs, 0, c);
    assert(s@.skip(0) =~= s@);
    if k == n {
        return None;
    }
    assert(s@.take(k as int) =~= s@.subrange(0, k as int));
    assert(s@.skip(k + 1) =~= s@.subrange(k + 1, n as int));
    Some((s.substring_char(0, k), s.substring_char(k + 1, n)))
}

// ---------------------------------------------------------------------------
// Lines and words
// ---------------------------------------------------------------------------

/// `s` without the carriage return at its end, if it has one.
pub open spec fn strip_cr(s: Seq<char>) -> Seq<char> {
    if s.len() > 0 && s.last() == '\r' {
        s.drop_last()
    } else {
        s
    }
}

/// The lines of `s`. A line ends at a line feed, or at a carriage return followed by
/// one; the last line needs no ending, and text that ends in a line feed has no empty
/// line after it.
pub open spec fn lines(s: Seq<char>) -> Seq<Seq<char>>
    decreases s.len(),
{
    if s.len() == 0 {
        Seq::empty()
    } else {
        let k = first_index(s, '\n') as int;
        if k >= s.len() {
            seq![s]
        } else {
            seq![strip_cr(s.take(k))] + lines(s.skip(k + 1))
        }
    }
}

/// The lines of `s`.
pub fn lines_of(s: &str) -> (r: Vec<String>)
    ensures
        texts(r@) == lines(s@),
{
    let cs = chars_of(s);
    let n: usize = cs.len();
    let mut r: Vec<String> = Vec::new();
    let mut start: usize = 0;
    proof {
        assert(s@.skip(0) =~= s@);
        assert(texts(r@) + lines(s@) =~= lines(s@));
    }
    while start < n
        invariant
            start <= n == cs@.len(),
            cs@ == s@,
            texts(r@) + lines(s@.skip(start as int)) == lines(s@),
        decreases n - start,
    {
        let ghost rest = s@.skip(start as int);
        let ghost before = texts(r@);
        let k: usize = find_from(&cs, start, '\n');
        if k == n {
            let line = substring(&cs, start, n);
            assert(line@ =~= rest);
            proof {
                lemma_texts_push(r@, line);
            }
            r.push(line);
            start = n;
            assert(before + seq![rest] =~= before.push(rest));
            assert(lines(s@.skip(n as int)) =~= Seq::empty());
            assert(texts(r@) + Seq::empty() =~= texts(r@));
        } else {
            let end: usize = if k > start && cs[k - 1] == '\r' {
                k - 1
            } else {
                k
            };
            let line = substring(&cs, start, end);
            assert(rest.take(k - start) =~= cs@.subrange(start as int, k as int));
            assert(line@ =~= strip_cr(rest.take(k - start)));
            assert(rest.skip(k - start + 1) =~= s@.skip(k + 1));
            proof {
                lemma_texts_push(r@, line);
            }
            r.push(line);
            assert(before + (seq![line@] + lines(s@.skip(k + 1))) =~= before.push(line@) + lines(
                s@.skip(k + 1),
            ));
            start = k + 1;
        }
    }
    assert(lines(s@.skip(start as int)) =~= Seq::empty());
    assert(texts(r@) + Seq::empty() =~= texts(r@));
    r
}

/// The length of the longest beginning of `s` without white space.
pub open spec fn word_len(s: Seq<char>) -> nat
    decreases s.len(),
{
    if s.len() == 0 || is_white(s[0]) {
        0
    } else {
        1 + word_len(s.skip(1))
    }
}

/// The words of `s`: its longest stretches without white space, in order.
pub open spec fn words(s: Seq<char>) -> Seq<Seq<char>>
    decreases s.len(),
    via words_decreases
{
    if s.len() == 0 {
        Seq::empty()
    } else if is_white(s[0]) {
        words(s.skip(1))
    } else {
        let k = word_len(s) as int;
        seq![s.take(k)] + words(s.skip(k))
    }
}

#[via_fn]
proof fn words_decreases(s: Seq<char>) {
    lemma_word_len(s);
}

/// A word lies within the text, and is not empty where the text begins with it.
pub proof fn lemma_word_len(s: Seq<char>)
    ensures
        word_len(s) <= s.len(),
        s.len() > 0 && !is_white(s[0]) ==> word_len(s) > 0,
    decreases s.len(),
{
    if s.len() > 0 && !is_white(s[0]) {
        lemma_word_len(s.skip(1));
    }
}

/// A stretch without white space, up to white space or the end, is the first word.
pub proof fn lemma_word_len_is(s: Seq<char>, k: nat)
    requires
        k <= s.len(),
        forall|i: int| 0 <= i < k ==> !is_white(s[i]),
        k < s.len() ==> is_white(s[k as int]),
    ensures
        word_len(s) == k,
    decreases k,
{
    if k > 0 {
        let rest = s.skip(1);
        assert forall|i: int| 0 <= i < k - 1 implies !is_white(rest[i]) by {
            assert(rest[i] == s[i + 1]);
        }
        lemma_word_len_is(rest, (k - 1) as nat);
    }
}

/// Text without white space in front of a space is the first word.
pub proof fn lemma_words_first(w: Seq<char>, rest: Seq<char>)
    requires
        w.len() > 0,
        forall|i: int| 0 <= i < w.len() ==> !is_white(w[i]),
    ensures
        words(w.push(' ') + rest) == seq![w] + words(rest),
        words(w) == seq![w],
        words(seq![' '] + rest) == words(rest),
{
    let s = w.push(' ') + rest;
    assert forall|i: int| 0 <= i < w.len() implies !is_white(s[i]) by {
        assert(s[i] == w[i]);
    }
    assert(!is_white(w[0]) && !is_white(s[0]));
    lemma_word_len_is(s, w.len());
    lemma_word_len_is(w, w.len());
    assert(s.take(w.len() as int) =~= w);
    let tail = s.skip(w.len() as int);
    assert(tail =~= seq![' '] + rest);
    assert(tail.skip(1) =~= rest);
    assert(words(tail) == words(rest));
    assert(w.take(w.len() as int) =~= w);
    assert(w.skip(w.len() as int) =~= Seq::empty());
    assert(words(w.skip(w.len() as int)) =~= Seq::empty());
    assert(words(w) =~= seq![w]);
}

/// The words of `s`.
pub fn words_of(s: &str) -> (r: Vec<String>)
    ensures
        texts(r@) == words(s@),
{
    let cs = chars_of(s);
    let n: usize = cs.len();
    let mut r: Vec<String> = Vec::new();
    let mut start: usize = 0;
    proof {
        assert(s@.skip(0) =~= s@);
        assert(texts(r@) + words(s@) =~= words(s@));
    }
    while start < n
        invariant
            start <= n == cs@.len(),
            cs@ == s@,
            texts(r@) + words(s@.skip(start as int)) == words(s@),
        decreases n - start,
    {
        let ghost rest = s@.skip(start as int);
        let ghost done = texts(r@);
        if is_whitespace(cs[start]) {
            assert(rest.skip(1) =~= s@.skip(start + 1));
            start = start + 1;
        } else {
            let mut end: usize = start;
            while end < n && !is_whitespace(cs[end])
                invariant
                    start <= end <= n == cs@.len(),
                    cs@ == s@,
                    rest == s@.skip(start as int),
                    word_len(rest) == (end - start) + word_len(s@.skip(end as int)),
                decreases n - end,
            {
                assert(s@.skip(end as int).skip(1) =~= s@.skip(end + 1));
                end = end + 1;
            }
            assert(word_len(rest) == end - start);
            assert(rest.take(end - start) =~= cs@.subrange(start as int, end as int));
            assert(rest.skip(end - start) =~= s@.skip(end as int));
            let word = substring(&cs, start, end);
            proof {
                lemma_texts_push(r@, word);
            }
            r.push(word);
            assert(done + (seq![word@] + words(s@.skip(end as int))) =~= done.push(word@) + words(
                s@.skip(end as int),
            ));
            start = end;
        }
    }
    assert(words(s@.skip(start as int)) =~= Seq::empty());
    assert(texts(r@) + Seq::empty() =~= texts(r@));
    r
}

// ---------------------------------------------------------------------------
// Decimal numbers
// ---------------------------------------------------------------------------

/// Whether `s` holds decimal digits only.
pub open spec fn all_digits(s: Seq<char>) -> bool {
    forall|i: int| 0 <= i < s.len() ==> is_digit(#[trigger] s[i])
}

/// The number that the decimal digits `s` stand for.
pub open spec fn digits_value(s: Seq<char>) -> nat
    decreases s.len(),
{
    if s.len() == 0 {
        0
    } else {
        digits_value(s.drop_last()) * 10 + digit_value(s.last())
    }
}

/// `s` without a leading plus sign.
pub open spec fn without_plus(s: Seq<char>) -> Seq<char> {
    if s.len() > 0 && s[0] == '+' {
        s.skip(1)
    } else {
        s
    }
}

/// The number that `s` writes in decimal, where it is one or more digits with an
/// optional plus sign before them and the number is at most `max`.
pub open spec fn unsigned_value(s: Seq<char>, max: nat) -> Option<nat> {
    let d = without_plus(s);
    if d.len() > 0 && all_digits(d) && digits_value(d) <= max {
        Some(digits_value(d))
    } else {
        None
    }
}

/// More digits never make a smaller number.
pub proof fn lemma_digits_value_grows(s: Seq<char>, k: int)
    requires
        0 <= k <= s.len(),
    ensures
        digits_value(s.take(k)) <= digits_value(s),
    decreases s.len() - k,
{
    if k < s.len() {
        lemma_digits_value_grows(s, k + 1);
        assert(s.take(k + 1).drop_last() =~= s.take(k));
    } else {
        assert(s.take(k) =~= s);
    }
}

/// The number that `s` writes in decimal, where it is at most `max`.
pub fn parse_unsigned(s: &str, max: u64) -> (r: Option<u64>)
    ensures
        match r {
            Some(n) => unsigned_value(s@, max as nat) == Some(n as nat),
            None => unsigned_value(s@, max as nat) is None,
        },
{
    let cs = chars_of(s);
    let n: usize = cs.len();
    let start: usize = if n > 0 && cs[0] == '+' {
        1
    } else {
        0
    };
    let ghost d = without_plus(s@);
    assert(d =~= s@.skip(start as int));
    if start == n {
        return None;
    }
    let mut value: u64 = 0;
    let mut i: usize = start;
    while i < n
        invariant
            start <= i <= n == cs@.len(),
            cs@ == s@,
            d == without_plus(s@),
            d == s@.skip(start as int),
            d.len() > 0,
            value == digits_value(d.take(i - start)),
            value <= max,
            forall|j: int| 0 <= j < i - start ==> is_digit(#[trigger] d[j]),
        decreases n - i,
    {
        let c = cs[i];
        assert(d[i - start] == c);
        if c < '0' || c > '9' {
            return None;
        }
        assert(d.take(i + 1 - start).drop_last() =~= d.take(i - start));
        let digit: u64 = (c as u32 - 48) as u64;
        proof {
            lemma_digits_value_grows(d, i + 1 - start);
        }
        if value > max / 10 {
            assert(value * 10 > max);
            return None;
        }
        let tens: u64 = value * 10;
        if digit > max - tens {
            return None;
        }
        value = tens + digit;
        i = i + 1;
    }
    assert(d.take(n - start) =~= d);
    Some(value)
}

/// The port number, or other 16-bit number, that `s` writes in decimal.
pub fn parse_u16(s: &str) -> (r: Option<u16>)
    ensures
        match r {
            Some(n) => unsigned_value(s@, u16::MAX as nat) == Some(n as nat),
            None => unsigned_value(s@, u16::MAX as nat) is None,
        },
{
    match parse_unsigned(s, 65535) {
        Some(n) => Some(n as u16),
        None => None,
    }
}

/// The decimal digits of `n`, without leading zeros.
pub open spec fn decimal(n: nat) -> Seq<char>
    decreases n,
{
    if n < 10 {
        seq![digit_char(n)]
    } else {
        decimal(n / 10).push(digit_char(n % 10))
    }
}

/// The decimal digits of `n`.
pub fn decimal_text(n: u64) -> (s: String)
    ensures
        s@ == decimal(n as nat),
    decreases n,
{
    if n < 10 {
        let mut s: String = String::new();
        s.push((48 + n as u8) as char);
        assert(s@ =~= decimal(n as nat));
        s
    } else {
        let mut s: String = decimal_text(n / 10);
        s.push((48 + (n % 10) as u8) as char);
        s
    }
}

/// Writing a number in decimal and reading it back gives the number.
pub proof fn lemma_decimal_value(n: nat)
    ensures
        decimal(n).len() > 0,
        all_digits(decimal(n)),
        digits_value(decimal(n)) == n,
        forall|max: nat| n <= max ==> #[trigger] unsigned_value(decimal(n), max) == Some(n),
    decreases n,
{
    if n >= 10 {
        lemma_decimal_value(n / 10);
        assert(decimal(n).drop_last() =~= decimal(n / 10));
    } else {
        assert(decimal(n).drop_last() =~= Seq::<char>::empty());
        assert(digits_value(Seq::<char>::empty()) == 0);
    }
    assert(is_digit(decimal(n)[0]));
    assert(without_plus(decimal(n)) == decimal(n));
}

// ---------------------------------------------------------------------------
// Laws
// ---------------------------------------------------------------------------

/// A number is written digit by digit, the last digit last, without leading zeros.
pub proof fn law_decimal_digits(n: nat)
    ensures
        decimal(n).last() as u32 == 48 + n % 10,
        n >= 10 ==> decimal(n).drop_last() == decimal(n / 10),
        n < 10 ==> decimal(n).len() == 1,
        n > 0 ==> decimal(n)[0] != '0',
    decreases n,
{
    if n >= 10 {
        law_decimal_digits(n / 10);
        lemma_decimal_value(n / 10);
        assert(decimal(n).drop_last() =~= decimal(n / 10));
        assert(decimal(n)[0] == decimal(n / 10)[0]);
    }
}

/// Digits are read with the weight of ten per place, behind an optional plus sign, and
/// nothing else is read as a number.
pub proof fn law_reading_numbers(s: Seq<char>, c: char, max: nat)
    ensures
        is_digit(c) && all_digits(s) ==> digits_value(s.push(c)) == 10 * digits_value(s) + (
        c as u32 - 48),
        digits_value(Seq::empty()) == 0,
        unsigned_value(s, max) matches Some(n) ==> n <= max && s.len() > 0,
        s.len() > 0 && !('0' <= s[0] <= '9') && s[0] != '+' ==> unsigned_value(s, max) is None,
        s.len() == 0 ==> unsigned_value(s, max) is None,
{
    assert(s.push(c).drop_last() =~= s);
    if s.len() > 0 && !is_digit(s[0]) && s[0] != '+' {
        assert(!is_digit(without_plus(s)[0]));
    }
}

/// Trimming takes white space from the two ends and nothing else: what is left has none at
/// its ends, and is a stretch of the text with only white space around it.
pub proof fn law_trim(s: Seq<char>)
    ensures
        trim(s).len() > 0 ==> !is_white(trim(s)[0]) && !is_white(trim(s).last()),
        exists|a: int, b: int|
            0 <= a <= b <= s.len() && trim(s) == #[trigger] s.subrange(a, b) && (forall|i: int|
                0 <= i < a || b <= i < s.len() ==> is_white(#[trigger] s[i])),
{
    let t = trim_start(s);
    let a = lemma_trim_start(s);
    let b = lemma_trim_end_at(t);
    assert(trim(s) =~= s.subrange(a, a + b));
    assert forall|i: int| 0 <= i < a || a + b <= i < s.len() implies is_white(#[trigger] s[i]) by {
        if i >= a + b {
            assert(s[i] == t[i - a]);
        }
    }
    if trim(s).len() > 0 {
        assert(trim(s)[0] == t[0]);
    }
}

/// How much white space stands at the beginning.
proof fn lemma_trim_start(s: Seq<char>) -> (a: int)
    ensures
        0 <= a <= s.len(),
        trim_start(s) == s.skip(a),
        forall|i: int| 0 <= i < a ==> is_white(#[trigger] s[i]),
        a < s.len() ==> !is_white(s[a]),
    decreases s.len(),
{
    if s.len() > 0 && is_white(s[0]) {
        let a = lemma_trim_start(s.skip(1));
        assert(s.skip(1).skip(a) =~= s.skip(a + 1));
        assert forall|i: int| 0 <= i < a + 1 implies is_white(#[trigger] s[i]) by {
            if i > 0 {
                assert(s[i] == s.skip(1)[i - 1]);
            }
        }
        a + 1
    } else {
        assert(s.skip(0) =~= s);
        0
    }
}

/// Where the white space at the end begins.
proof fn lemma_trim_end_at(s: Seq<char>) -> (b: int)
    ensures
        0 <= b <= s.len(),
        trim_end(s) == s.take(b),
        forall|i: int| b <= i < s.len() ==> is_white(#[trigger] s[i]),
        b > 0 ==> !is_white(s[b - 1]),
    decreases s.len(),
{
    if s.len() > 0 && is_white(s.last()) {
        let b = lemma_trim_end_at(s.drop_last());
        assert(s.drop_last().take(b) =~= s.take(b));
        assert forall|i: int| b <= i < s.len() implies is_white(#[trigger] s[i]) by {
            if i < s.len() - 1 {
                assert(s[i] == s.drop_last()[i]);
            }
        }
        b
    } else {
        assert(s.take(s.len() as int) =~= s);
        s.len() as int
    }
}

/// Space, tab, line feed and carriage return are white space; letters, digits and visible
/// ASCII signs are not.
pub proof fn law_white_space(c: char)
    ensures
        c == ' ' || c == '\t' || c == '\n' || c == '\r' ==> is_white(c),
        '!' <= c <= '~' ==> !is_white(c),
{
}

/// Lower case changes the letters A to Z, each to its small letter, and nothing else.
pub proof fn law_lower(s: Seq<char>, i: int)
    requires
        0 <= i < s.len(),
    ensures
        lower(s).len() == s.len(),
        'A' <= s[i] <= 'Z' ==> lower(s)[i] as u32 == s[i] as u32 + 32,
        !('A' <= s[i] <= 'Z') ==> lower(s)[i] == s[i],
{
}

/// Parts with the separator between them are the text again, and none holds the separator.
pub proof fn law_split(a: Seq<char>, b: Seq<char>, c: char)
    requires
        forall|i: int| 0 <= i < a.len() ==> a[i] != c,
    ensures
        split_on(a, c) == seq![a],
        split_on(a.push(c) + b, c) == seq![a] + split_on(b, c),
{
    lemma_split_first(a, b, c);
}

/// Text without a line feed is one line; a line feed, alone or behind a carriage return, ends
/// a line and is not part of it.
pub proof fn law_lines(a: Seq<char>, b: Seq<char>)
    requires
        forall|i: int| 0 <= i < a.len() ==> a[i] != '\n',
    ensures
        a.len() > 0 ==> lines(a) == seq![a],
        lines(a.push('\n') + b) == seq![
            if a.len() > 0 && a.last() == '\r' {
                a.drop_last()
            } else {
                a
            },
        ] + lines(b),
        lines(Seq::empty()) == Seq::<Seq<char>>::empty(),
{
    lemma_first_index_is(a, '\n', a.len() as int);
    let s = a.push('\n') + b;
    assert forall|i: int| 0 <= i < a.len() implies s[i] != '\n' by {
        assert(s[i] == a[i]);
    }
    lemma_first_index_is(s, '\n', a.len() as int);
    assert(s.take(a.len() as int) =~= a);
    assert(s.skip(a.len() as int + 1) =~= b);
}

/// A number holds digits only, but for a plus sign in front.
pub proof fn law_numbers_hold_digits(s: Seq<char>, max: nat, i: int)
    requires
        0 <= i < s.len(),
        !('0' <= s[i] <= '9'),
        i > 0 || s[i] != '+',
    ensures
        unsigned_value(s, max) is None,
{
    let d = without_plus(s);
    if s[0] == '+' {
        assert(d[i - 1] == s[i]);
        assert(!is_digit(d[i - 1]));
    } else {
        assert(!is_digit(d[i]));
    }
}

/// Words are the stretches between white space: white space in front of text makes no
/// difference, and text without white space is one word, up to the next space.
pub proof fn law_words(w: Seq<char>, rest: Seq<char>, c: char)
    requires
        w.len() > 0,
        forall|i: int| 0 <= i < w.len() ==> !is_white(w[i]),
        is_white(c),
    ensures
        words(w) == seq![w],
        words(w.push(' ') + rest) == seq![w] + words(rest),
        words(seq![c] + rest) == words(rest),
        words(Seq::empty()) == Seq::<Seq<char>>::empty(),
{
    lemma_words_first(w, rest);
    assert((seq![c] + rest).skip(1) =~= rest);
}

} // verus!
