//! The local terminal: the escape sequence that ends a session, and how the terminal is
//! put back in order afterwards.
use vstd::prelude::*;

verus! {

// ---------------------------------------------------------------------------
// Escape sequences in the input
// ---------------------------------------------------------------------------

/// The escape character. At the start of a line, followed by a dot, it ends the session.
pub const ESCAPE_CHAR: u8 = 0x7e;

/// Filters the bytes that are typed.
#[derive(Debug, Clone, Copy, PartialEq, Eq, Structural)]
pub struct EscapeFilter {
    /// Whether the next byte starts a line.
    pub at_line_start: bool,
    /// Whether an escape character at the start of a line has been typed, and what it means
    /// is still open.
    pub escape_pending: bool,
}

/// Whether `b` ends a line.
pub open spec fn ends_line(b: u8) -> bool {
    b == 13 || b == 10
}

/// What the byte `b` does: the filter after it and the bytes to send, or `None` where it
/// ends the session.
pub open spec fn escape_step(f: EscapeFilter, b: u8) -> Option<(EscapeFilter, Seq<u8>)> {
    if f.escape_pending {
        if b == 46 {
            None
        } else if b == ESCAPE_CHAR {
            Some((EscapeFilter { at_line_start: false, escape_pending: false }, seq![ESCAPE_CHAR]))
        } else {
            Some(
                (
                    EscapeFilter { at_line_start: ends_line(b), escape_pending: false },
                    seq![ESCAPE_CHAR, b],
                ),
            )
        }
    } else if b == ESCAPE_CHAR && f.at_line_start {
        Some((EscapeFilter { escape_pending: true, ..f }, Seq::empty()))
    } else {
        Some((EscapeFilter { at_line_start: ends_line(b), escape_pending: false }, seq![b]))
    }
}

/// What the bytes `input` do, one after the other.
pub open spec fn escape_run(f: EscapeFilter, input: Seq<u8>) -> Option<(EscapeFilter, Seq<u8>)>
    decreases input.len(),
{
    if input.len() == 0 {
        Some((f, Seq::empty()))
    } else {
        match escape_run(f, input.drop_last()) {
            None => None,
            Some((g, out)) => match escape_step(g, input.last()) {
                None => None,
                Some((h, more)) => Some((h, out + more)),
            },
        }
    }
}

impl EscapeFilter {
    /// The filter before anything is typed.
    pub fn new() -> (r: Self)
        ensures
            r == (EscapeFilter { at_line_start: true, escape_pending: false }),
    {
        EscapeFilter { at_line_start: true, escape_pending: false }
    }

    /// Takes bytes that were typed and returns those to send; `None` where the session is
    /// to end, and then nothing of `input` is sent and the filter stays as it was.
    pub fn feed(&mut self, input: &[u8]) -> (r: Option<Vec<u8>>)
        ensures
            match escape_run(*old(self), input@) {
                None => r is None && *final(self) == *old(self),
                Some((f, out)) => r matches Some(v) && v@ == out && *final(self) == f,
            },
    {
        let mut out: Vec<u8> = Vec::new();
        let start = *self;
        assert(input@.take(0) =~= Seq::empty());
        for i in 0..input.len()
            invariant
                start == *old(self),
                escape_run(start, input@.take(i as int)) == Some((*self, out@)),
        {
            let b: u8 = input[i];
            assert(input@.take(i + 1).drop_last() =~= input@.take(i as int));
            let ghost before = out@;
            if self.escape_pending {
                self.escape_pending = false;
                if b == 46 {
                    proof {
                        lemma_run_ends(start, input@, i + 1);
                    }
                    *self = start;
                    return None;
                } else if b == ESCAPE_CHAR {
                    out.push(ESCAPE_CHAR);
                    self.at_line_start = false;
                    assert(out@ =~= before + seq![ESCAPE_CHAR]);
                } else {
                    out.push(ESCAPE_CHAR);
                    out.push(b);
                    self.at_line_start = b == 13 || b == 10;
                    assert(out@ =~= before + seq![ESCAPE_CHAR, b]);
                }
            } else if b == ESCAPE_CHAR && self.at_line_start {
                self.escape_pending = true;
                assert(out@ =~= before + Seq::<u8>::empty());
            } else {
                out.push(b);
                self.at_line_start = b == 13 || b == 10;
                assert(out@ =~= before + seq![b]);
            }
        }
        assert(input@.take(input@.len() as int) =~= input@);
        Some(out)
    }
}

proof fn lemma_run_ends(f: EscapeFilter, input: Seq<u8>, k: int)
    requires
        0 <= k <= input.len(),
        escape_run(f, input.take(k)) is None,
    ensures
        escape_run(f, input) is None,
    decreases input.len() - k,
{
    if k == input.len() {
        assert(input.take(k) =~= input);
    } else {
        assert(input.take(k + 1).drop_last() =~= input.take(k));
        lemma_run_ends(f, input, k + 1);
    }
}

/// It does not matter in which pieces the bytes come.
pub proof fn law_escape_in_pieces(f: EscapeFilter, a: Seq<u8>, b: Seq<u8>)
    ensures
        escape_run(f, a + b) == (match escape_run(f, a) {
            None => None,
            Some((g, x)) => match escape_run(g, b) {
                None => None,
                Some((h, y)) => Some((h, x + y)),
            },
        }),
    decreases b.len(),
{
    if b.len() == 0 {
        assert(a + b =~= a);
        if let Some((g, x)) = escape_run(f, a) {
            assert(x + Seq::<u8>::empty() =~= x);
        }
    } else {
        assert((a + b).drop_last() =~= a + b.drop_last());
        law_escape_in_pieces(f, a, b.drop_last());
        if let Some((g, x)) = escape_run(f, a) {
            if let Some((h, y)) = escape_run(g, b.drop_last()) {
                if let Some((k, z)) = escape_step(h, b.last()) {
                    assert((x + y) + z =~= x + (y + z));
                }
            }
        }
    }
}

/// Whether place `i` of what was typed starts a line.
pub open spec fn starts_line(input: Seq<u8>, i: int) -> bool {
    i == 0 || ends_line(input[i - 1])
}

/// Whether at place `i` an escape character starts a line and a dot follows.
pub open spec fn quits_at(input: Seq<u8>, i: int) -> bool {
    &&& 0 <= i < input.len() - 1
    &&& starts_line(input, i)
    &&& input[i] == ESCAPE_CHAR
    &&& input[i + 1] == 46
}

/// Whether an escape character that starts a line, and a dot behind it, were typed.
pub open spec fn has_quit(input: Seq<u8>) -> bool {
    exists|i: int| #[trigger] quits_at(input, i)
}

/// The session ends if and only if, at the start of a line, the escape character and a dot
/// are typed.
pub proof fn law_quit_exactly(input: Seq<u8>)
    ensures
        escape_run(EscapeFilter { at_line_start: true, escape_pending: false }, input) is None
            <==> has_quit(input),
{
    lemma_quit(input);
}

proof fn lemma_quit(input: Seq<u8>)
    ensures
        ({
            let f = EscapeFilter { at_line_start: true, escape_pending: false };
            let n = input.len() as int;
            match escape_run(f, input) {
                None => has_quit(input),
                Some((g, out)) => {
                    &&& !has_quit(input)
                    &&& g.escape_pending == (n > 0 && input[n - 1] == ESCAPE_CHAR && starts_line(
                        input,
                        n - 1,
                    ))
                    &&& !g.escape_pending ==> g.at_line_start == starts_line(input, n)
                },
            }
        }),
    decreases input.len(),
{
    let f = EscapeFilter { at_line_start: true, escape_pending: false };
    let n = input.len() as int;
    if n == 0 {
        assert(forall|i: int| !quits_at(input, i));
    } else {
        lemma_quit(input.drop_last());
        lemma_has_quit(input);
    }
}

proof fn lemma_has_quit(input: Seq<u8>)
    requires
        input.len() > 0,
    ensures
        has_quit(input) <==> has_quit(input.drop_last()) || quits_at(input, input.len() - 2),
{
    let init = input.drop_last();
    let n = input.len() as int;
    if has_quit(init) {
        let i = choose|i: int| #[trigger] quits_at(init, i);
        assert(quits_at(input, i));
    }
    if has_quit(input) {
        let i = choose|i: int| #[trigger] quits_at(input, i);
        if i < n - 2 {
            assert(quits_at(init, i));
        }
    }
}

/// Bytes without the escape character are sent as they are typed.
pub proof fn law_plain_input_passes(f: EscapeFilter, input: Seq<u8>)
    requires
        !f.escape_pending,
        forall|i: int| 0 <= i < input.len() ==> input[i] != ESCAPE_CHAR,
    ensures
        escape_run(f, input) matches Some((g, out)) && out == input && !g.escape_pending,
    decreases input.len(),
{
    if input.len() > 0 {
        assert forall|i: int| 0 <= i < input.drop_last().len() implies input.drop_last()[i]
            != ESCAPE_CHAR by {
            assert(input.drop_last()[i] == input[i]);
        }
        law_plain_input_passes(f, input.drop_last());
        assert(input.drop_last() + seq![input.last()] =~= input);
    } else {
        assert(input =~= Seq::empty());
    }
}

// ---------------------------------------------------------------------------
// Restoring the terminal
// ---------------------------------------------------------------------------

/// Resets every mode that a program on the far side may have left set: mouse reports,
/// bracketed paste, application keys, no wrapping, hidden cursor, colours. The cursor stays
/// where it is.
pub const TERM_RESET_MODES: &'static str =
    "\u{1b}[?1000l\u{1b}[?1002l\u{1b}[?1003l\u{1b}[?1006l\u{1b}[?1015l\u{1b}[?2004l\u{1b}[?1l\u{1b}>\u{1b}[?7h\u{1b}[?25h\u{1b}[0m";

/// Leaves the alternate screen and resets the scrolling region, which moves the cursor.
pub const TERM_RESET_SCREEN: &'static str = "\u{1b}[?1049l\u{1b}[r";

/// The bytes that put the terminal back in order: none where it was never changed; with
/// `reset_screen`, the screen first.
pub open spec fn restore_text(raw_ever_enabled: bool, reset_screen: bool) -> Seq<char> {
    if !raw_ever_enabled {
        Seq::empty()
    } else if reset_screen {
        TERM_RESET_SCREEN@ + TERM_RESET_MODES@
    } else {
        TERM_RESET_MODES@
    }
}

/// The text to write to put the terminal back in order when a session is over.
///
/// `reset_screen` is for sessions that did not end cleanly, where a program may still hold
/// the alternate screen.
pub fn restore_terminal(raw_ever_enabled: bool, reset_screen: bool) -> (r: String)
    ensures
        r@ == restore_text(raw_ever_enabled, reset_screen),
{
    let mut out: String = String::new();
    if raw_ever_enabled {
        if reset_screen {
            out.append(TERM_RESET_SCREEN);
        }
        out.append(TERM_RESET_MODES);
    }
    assert(out@ =~= restore_text(raw_ever_enabled, reset_screen));
    out
}

/// The escape character twice at the start of a line sends one; followed by another byte than
/// a dot it is sent with that byte; and away from the start of a line it is sent at once, and
/// ends nothing.
pub proof fn law_escape_character(f: EscapeFilter, b: u8)
    requires
        !f.escape_pending,
    ensures
        f.at_line_start ==> (escape_run(f, seq![0x7eu8, 0x7eu8]) matches Some(x) && x.1 == seq![
            0x7eu8,
        ] && !x.0.escape_pending),
        f.at_line_start && b != 0x2e && b != 0x7e ==> (escape_run(
            f,
            seq![0x7eu8, b],
        ) matches Some(x) && x.1 == seq![0x7eu8, b]),
        f.at_line_start ==> escape_run(f, seq![0x7eu8, 0x2eu8]) is None,
        !f.at_line_start ==> (escape_run(f, seq![0x7eu8, b]) matches Some(x) && x.1 == seq![
            0x7eu8,
            b,
        ]),
{
    reveal_with_fuel(escape_run, 3);
    assert(seq![0x7eu8, b].drop_last() =~= seq![0x7eu8]);
    assert(seq![0x7eu8].drop_last() =~= Seq::empty());
    assert(seq![0x7eu8, 0x7eu8].drop_last() =~= seq![0x7eu8]);
    assert(seq![0x7eu8, 0x2eu8].drop_last() =~= seq![0x7eu8]);
    assert(Seq::<u8>::empty() + seq![0x7eu8] =~= seq![0x7eu8]);
    assert(Seq::<u8>::empty() + Seq::<u8>::empty() =~= Seq::<u8>::empty());
    assert(seq![0x7eu8] + seq![b] =~= seq![0x7eu8, b]);
    assert(Seq::<u8>::empty() + seq![0x7eu8, b] =~= seq![0x7eu8, b]);
}

/// A carriage return or a line feed starts a line, and nothing else does.
pub proof fn law_line_starts(f: EscapeFilter, b: u8)
    requires
        !f.escape_pending,
        !(f.at_line_start && b == 0x7e),
    ensures
        escape_run(f, seq![b]) matches Some(x) && x.1 == seq![b] && (x.0.at_line_start <==> b == 13
            || b == 10),
{
    reveal_with_fuel(escape_run, 2);
    assert(seq![b].drop_last() =~= Seq::empty());
    assert(Seq::<u8>::empty() + seq![b] =~= seq![b]);
}

/// Nothing is lost and nothing is made up: as long as the session goes on, the bytes sent, and
/// the escape character where its meaning is open, are as many as were typed, less one for
/// every escape character that was typed twice; they are never more.
pub proof fn law_nothing_made_up(f: EscapeFilter, input: Seq<u8>)
    ensures
        escape_run(f, input) matches Some(x) ==> x.1.len() <= input.len() + (if f.escape_pending {
            1int
        } else {
            0int
        }) - (if x.0.escape_pending {
            1int
        } else {
            0int
        }),
    decreases input.len(),
{
    if input.len() > 0 {
        law_nothing_made_up(f, input.drop_last());
    }
}

/// A terminal that was never switched gets nothing; one that was gets its modes back, and its
/// screen only where that is asked for, before the modes.
pub proof fn law_restoring()
    ensures
        restore_text(false, false).len() == 0,
        restore_text(false, true).len() == 0,
        restore_text(true, false) == TERM_RESET_MODES@,
        restore_text(true, true) == TERM_RESET_SCREEN@ + TERM_RESET_MODES@,
{
}

} // verus!
