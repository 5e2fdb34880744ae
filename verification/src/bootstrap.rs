//! Starting the server over SSH: what the client runs and sends, what the server reads
//! and reports, and what the client reads back.
use vstd::prelude::*;

use crate::addrfam::{law_wire_round_trip, wire_pref, AddrPref};
use crate::bytes::to_array16;
use crate::forward::port_of;
use crate::hex::{
    hex_decode, hex_digit, hex_encode, hex_text, hex_value, law_hex_round_trip, lemma_hex_chars,
};
use crate::text::{
    decimal, decimal_text, is_digit, is_white, lemma_decimal_value, lemma_split_first,
    lemma_texts_push, lemma_words_first, lines, lines_of, parse_u16, split_on, split_text,
    starts_with, strip_prefix, text_eq, texts, trim, trim_both, words, words_of,
};

verus! {

// ---------------------------------------------------------------------------
// Client: starting the server
// ---------------------------------------------------------------------------

/// `n` times the letter v, behind a dash; nothing for zero.
pub open spec fn verbose_flag(n: nat) -> Seq<Seq<char>> {
    if n == 0 {
        Seq::empty()
    } else {
        seq![seq!['-'] + Seq::new(n, |i: int| 'v')]
    }
}

/// The arguments of `ssh`.
pub open spec fn ssh_arguments(
    target: Seq<char>,
    port: u16,
    family_flag: Option<Seq<char>>,
    server_path: Seq<char>,
    log_path: Option<Seq<char>>,
    verbose: u8,
) -> Seq<Seq<char>> {
    seq!["-p"@, decimal(port as nat)] + (match family_flag {
        Some(f) => seq![f],
        None => Seq::empty(),
    }) + seq![target, server_path] + (match log_path {
        Some(p) => seq!["--log-path"@, p],
        None => Seq::empty(),
    }) + verbose_flag(verbose as nat)
}

/// The text of an optional string slice.
pub open spec fn opt_str(o: Option<&str>) -> Option<Seq<char>> {
    match o {
        Some(s) => Some(s@),
        None => None,
    }
}

/// Appends a string.
fn push_text(out: &mut Vec<String>, s: &str)
    ensures
        texts(final(out)@) == texts(old(out)@).push(s@),
{
    let t = s.to_owned();
    proof {
        lemma_texts_push(out@, t);
    }
    out.push(t);
}

/// The arguments with which `ssh` starts the server on `target`.
pub fn ssh_args(
    target: &str,
    port: u16,
    family_flag: Option<&str>,
    server_path: &str,
    log_path: Option<&str>,
    verbose: u8,
) -> (r: Vec<String>)
    ensures
        texts(r@) == ssh_arguments(
            target@,
            port,
            opt_str(family_flag),
            server_path@,
            opt_str(log_path),
            verbose,
        ),
{
    let mut r: Vec<String> = Vec::new();
    assert(texts(r@) =~= Seq::empty());
    push_text(&mut r, "-p");
    push_text(&mut r, decimal_text(port as u64).as_str());
    if let Some(flag) = family_flag {
        push_text(&mut r, flag);
    }
    push_text(&mut r, target);
    push_text(&mut r, server_path);
    if let Some(path) = log_path {
        push_text(&mut r, "--log-path");
        push_text(&mut r, path);
    }
    if verbose > 0 {
        let mut flag: String = String::new();
        flag.push('-');
        assert(flag@ =~= seq!['-'] + Seq::new(0, |i: int| 'v'));
        for i in 0..verbose
            invariant
                flag@ == seq!['-'] + Seq::new(i as nat, |i: int| 'v'),
        {
            flag.push('v');
            assert(flag@ =~= seq!['-'] + Seq::new((i + 1) as nat, |i: int| 'v'));
        }
        push_text(&mut r, flag.as_str());
    }
    assert(texts(r@) =~= ssh_arguments(
        target@,
        port,
        opt_str(family_flag),
        server_path@,
        opt_str(log_path),
        verbose,
    ));
    r
}

/// The first line that the server reads: session, passkey and terminal type.
pub open spec fn session_line(id: Seq<u8>, passkey: Seq<char>, term: Seq<char>) -> Seq<char> {
    hex_text(id) + seq!['/'] + passkey + seq!['/'] + term
}

/// The lines behind the first: environment settings, then what else the client asks for.
pub open spec fn extra_lines(
    env: Seq<Seq<char>>,
    x11: bool,
    pref: AddrPref,
    command: Option<Seq<char>>,
) -> Seq<Seq<char>> {
    env + (if x11 {
        seq!["ETRX11:true"@]
    } else {
        Seq::empty()
    }) + (match pref.wire_text() {
        Some(v) => seq!["ETRPREFER:"@ + v],
        None => Seq::empty(),
    }) + (match command {
        Some(c) => seq!["ETRCMD:"@ + c],
        None => Seq::empty(),
    })
}

/// The lines that the client writes to the server: the first, and those behind it.
pub fn bootstrap_input(
    session_id: &[u8; 16],
    passkey: &str,
    term: &str,
    env: &Vec<String>,
    x11: bool,
    pref: AddrPref,
    command: Option<&str>,
) -> (r: Vec<String>)
    ensures
        texts(r@) == seq![session_line(session_id@, passkey@, term@)] + extra_lines(
            texts(env@),
            x11,
            pref,
            opt_str(command),
        ),
{
    let mut r: Vec<String> = Vec::new();
    assert(texts(r@) =~= Seq::empty());
    let mut first = hex_encode(session_id.as_slice());
    first.push('/');
    first.append(passkey);
    first.push('/');
    first.append(term);
    assert(first@ =~= session_line(session_id@, passkey@, term@));
    push_text(&mut r, first.as_str());
    let ghost head = texts(r@);
    assert(head =~= head + texts(env@).take(0));
    for i in 0..env.len()
        invariant
            texts(r@) == head + texts(env@).take(i as int),
    {
        push_text(&mut r, env[i].as_str());
        assert(texts(r@) =~= head + texts(env@).take(i + 1));
    }
    assert(texts(env@).take(env@.len() as int) =~= texts(env@));
    if x11 {
        push_text(&mut r, "ETRX11:true");
    }
    if let Some(v) = pref.wire() {
        let mut line = "ETRPREFER:".to_owned();
        line.append(v);
        push_text(&mut r, line.as_str());
    }
    if let Some(c) = command {
        let mut line = "ETRCMD:".to_owned();
        line.append(c);
        push_text(&mut r, line.as_str());
    }
    assert(texts(r@) =~= seq![session_line(session_id@, passkey@, term@)] + extra_lines(
        texts(env@),
        x11,
        pref,
        opt_str(command),
    ));
    r
}

// ---------------------------------------------------------------------------
// Server: reading what the client sent
// ---------------------------------------------------------------------------

/// Why the first line is refused.
#[derive(Debug, Clone, Copy, PartialEq, Eq, Structural)]
pub enum BootstrapError {
    /// The line has fewer than three parts.
    MissingParts,
    /// The first part is not a session identifier in hexadecimal.
    BadSessionId,
}

impl BootstrapError {
    /// The message for this error.
    pub fn message(self) -> (r: &'static str)
        ensures
            r@ == (match self {
                BootstrapError::MissingParts => "Expected SESSION_ID_HEX/PASSKEY/TERM on stdin"@,
                BootstrapError::BadSessionId => "invalid session_id hex"@,
            }),
    {
        match self {
            BootstrapError::MissingParts => "Expected SESSION_ID_HEX/PASSKEY/TERM on stdin",
            BootstrapError::BadSessionId => "invalid session_id hex",
        }
    }
}

/// What the first line says: session, passkey and terminal type.
pub open spec fn parsed_session_line(line: Seq<char>) -> Result<
    (Seq<u8>, Seq<char>, Seq<char>),
    BootstrapError,
> {
    let parts = split_on(trim(line), '/');
    if parts.len() < 3 {
        Err(BootstrapError::MissingParts)
    } else {
        match hex_value(parts[0]) {
            Some(id) => if id.len() == 16 {
                Ok((id, parts[1], parts[2]))
            } else {
                Err(BootstrapError::BadSessionId)
            },
            None => Err(BootstrapError::BadSessionId),
        }
    }
}

/// Reads the first line.
pub fn parse_session_line(line: &str) -> (r: Result<([u8; 16], String, String), BootstrapError>)
    ensures
        match r {
            Ok((id, passkey, term)) => parsed_session_line(line@) == Ok::<
                (Seq<u8>, Seq<char>, Seq<char>),
                BootstrapError,
            >((id@, passkey@, term@)),
            Err(e) => parsed_session_line(line@) == Err::<
                (Seq<u8>, Seq<char>, Seq<char>),
                BootstrapError,
            >(e),
        },
{
    let parts = split_text(trim_both(line), '/');
    let ghost ps = split_on(trim(line@), '/');
    if parts.len() < 3 {
        return Err(BootstrapError::MissingParts);
    }
    assert(ps[0] == parts@[0]@);
    assert(ps[1] == parts@[1]@);
    assert(ps[2] == parts@[2]@);
    match hex_decode(parts[0].as_str()) {
        None => Err(BootstrapError::BadSessionId),
        Some(bytes) => match to_array16(bytes.as_slice()) {
            None => Err(BootstrapError::BadSessionId),
            Some(id) => Ok((id, parts[1].clone(), parts[2].clone())),
        },
    }
}

/// What the client asks for behind the first line.
#[derive(Debug)]
pub struct Extras {
    /// Environment settings.
    pub env: Vec<String>,
    /// The command to run in place of a shell.
    pub command: Option<String>,
    /// Whether X11 is to be forwarded.
    pub x11: bool,
    /// Which address family to try first.
    pub pref: AddrPref,
}

/// The value of [`Extras`].
pub struct ExtrasValue {
    /// Environment settings.
    pub env: Seq<Seq<char>>,
    /// The command to run in place of a shell.
    pub command: Option<Seq<char>>,
    /// Whether X11 is to be forwarded.
    pub x11: bool,
    /// Which address family to try first.
    pub pref: AddrPref,
}

impl Extras {
    /// The value of what the client asks for.
    pub open spec fn view(self) -> ExtrasValue {
        ExtrasValue {
            env: texts(self.env@),
            command: crate::forward::opt_text(self.command),
            x11: self.x11,
            pref: self.pref,
        }
    }
}

/// Nothing asked for.
pub open spec fn no_extras() -> ExtrasValue {
    ExtrasValue { env: Seq::empty(), command: None, x11: false, pref: AddrPref::Auto }
}

/// What one more line asks for.
pub open spec fn with_line(x: ExtrasValue, line: Seq<char>) -> ExtrasValue {
    if starts_with(line, "ETRCMD:"@) {
        ExtrasValue { command: Some(line.skip(7)), ..x }
    } else if starts_with(line, "ETRX11:"@) {
        ExtrasValue { x11: true, ..x }
    } else if starts_with(line, "ETRPREFER:"@) {
        ExtrasValue { pref: wire_pref(line.skip(10)), ..x }
    } else {
        ExtrasValue { env: x.env.push(line), ..x }
    }
}

/// What the lines `ls` ask for; an empty line ends them.
pub open spec fn parsed_extras(x: ExtrasValue, ls: Seq<Seq<char>>) -> ExtrasValue
    decreases ls.len(),
{
    if ls.len() == 0 || ls[0].len() == 0 {
        x
    } else {
        parsed_extras(with_line(x, ls[0]), ls.skip(1))
    }
}

/// Reads one line behind the first into `x`.
pub fn parse_bootstrap_line(x: &mut Extras, line: &str)
    ensures
        final(x)@ == with_line(old(x)@, line@),
{
    proof {
        reveal_strlit("ETRCMD:");
        reveal_strlit("ETRX11:");
        reveal_strlit("ETRPREFER:");
    }
    if let Some(command) = strip_prefix(line, "ETRCMD:") {
        x.command = Some(command.to_owned());
    } else if strip_prefix(line, "ETRX11:").is_some() {
        x.x11 = true;
    } else if let Some(v) = strip_prefix(line, "ETRPREFER:") {
        x.pref = AddrPref::from_wire(v);
    } else {
        push_text(&mut x.env, line);
    }
}

/// Reads the lines behind the first, up to an empty one.
pub fn parse_bootstrap_lines(ls: &Vec<String>) -> (r: Extras)
    ensures
        r@ == parsed_extras(no_extras(), texts(ls@)),
{
    let mut x = Extras { env: Vec::new(), command: None, x11: false, pref: AddrPref::Auto };
    let ghost all = texts(ls@);
    assert(texts(x.env@) =~= Seq::empty());
    assert(all.skip(0) =~= all);
    let mut i: usize = 0;
    while i < ls.len() && ls[i].as_str().unicode_len() > 0
        invariant
            i <= ls@.len(),
            all == texts(ls@),
            parsed_extras(no_extras(), all) == parsed_extras(x@, all.skip(i as int)),
        decreases ls@.len() - i,
    {
        assert(all.skip(i as int)[0] == ls@[i as int]@);
        assert(all.skip(i as int).skip(1) =~= all.skip(i + 1));
        parse_bootstrap_line(&mut x, ls[i].as_str());
        i = i + 1;
    }
    if i < ls.len() {
        assert(all.skip(i as int)[0] == ls@[i as int]@);
    }
    x
}

/// How the server reports its port and certificate.
pub open spec fn report(port: u16, cert: Seq<u8>) -> Seq<char> {
    "PORT "@ + decimal(port as nat) + " CERT "@ + hex_text(cert)
}

/// The line with which the server reports its port and certificate.
pub fn report_line(port: u16, cert: &[u8]) -> (r: String)
    ensures
        r@ == report(port, cert@),
{
    let mut r = "PORT ".to_owned();
    r.append(decimal_text(port as u64).as_str());
    r.append(" CERT ");
    r.append(hex_encode(cert).as_str());
    r
}

// ---------------------------------------------------------------------------
// Client: reading the report
// ---------------------------------------------------------------------------

/// The port and certificate that a line reports, if it does.
pub open spec fn reported(line: Seq<char>) -> Option<(u16, Seq<u8>)> {
    let t = trim(line);
    if !starts_with(t, "PORT "@) {
        None
    } else {
        let parts = words(t.skip(5));
        if parts.len() >= 3 && parts[1] == "CERT"@ {
            match (port_of(parts[0]), hex_value(parts[2])) {
                (Some(p), Some(c)) => Some((p, c)),
                _ => None,
            }
        } else {
            None
        }
    }
}

/// The first report among `ls`.
pub open spec fn first_report(ls: Seq<Seq<char>>) -> Option<(u16, Seq<u8>)>
    decreases ls.len(),
{
    if ls.len() == 0 {
        None
    } else {
        match reported(ls[0]) {
            Some(r) => Some(r),
            None => first_report(ls.skip(1)),
        }
    }
}

/// The port and certificate that a line reports, if it does.
fn parse_report_line(line: &str) -> (r: Option<(u16, Vec<u8>)>)
    ensures
        match r {
            Some((p, c)) => reported(line@) == Some((p, c@)),
            None => reported(line@) is None,
        },
{
    proof {
        reveal_strlit("PORT ");
    }
    let t = trim_both(line);
    match strip_prefix(t, "PORT ") {
        None => None,
        Some(rest) => {
            let parts = words_of(rest);
            let ghost ps = words(rest@);
            if parts.len() < 3 {
                return None;
            }
            assert(ps[0] == parts@[0]@);
            assert(ps[1] == parts@[1]@);
            assert(ps[2] == parts@[2]@);
            if !text_eq(parts[1].as_str(), "CERT") {
                return None;
            }
            match (parse_u16(parts[0].as_str()), hex_decode(parts[2].as_str())) {
                (Some(p), Some(c)) => Some((p, c)),
                _ => None,
            }
        },
    }
}

/// The port and certificate that the server reported on its standard output.
pub fn parse_report(stdout: &str) -> (r: Option<(u16, Vec<u8>)>)
    ensures
        match r {
            Some((p, c)) => first_report(lines(stdout@)) == Some((p, c@)),
            None => first_report(lines(stdout@)) is None,
        },
{
    let ls = lines_of(stdout);
    let ghost all = texts(ls@);
    assert(all.skip(0) =~= all);
    for i in 0..ls.len()
        invariant
            all == texts(ls@),
            all == lines(stdout@),
            first_report(all) == first_report(all.skip(i as int)),
    {
        assert(all.skip(i as int)[0] == ls@[i as int]@);
        assert(all.skip(i as int).skip(1) =~= all.skip(i + 1));
        if let Some(found) = parse_report_line(ls[i].as_str()) {
            return Some(found);
        }
    }
    None
}

// ---------------------------------------------------------------------------
// Laws
// ---------------------------------------------------------------------------

/// The client reads the port and certificate that the server reported, where the report is
/// the first among the lines that it reads.
pub proof fn law_report_round_trip(
    port: u16,
    cert: Seq<u8>,
    before: Seq<Seq<char>>,
    after: Seq<Seq<char>>,
)
    requires
        cert.len() > 0,
        forall|i: int| 0 <= i < before.len() ==> reported(#[trigger] before[i]) is None,
    ensures
        reported(report(port, cert)) == Some((port, cert)),
        first_report(before + seq![report(port, cert)] + after) == Some((port, cert)),
    decreases before.len(),
{
    lemma_reported(port, cert);
    let ls = before + seq![report(port, cert)] + after;
    if before.len() == 0 {
        assert(ls[0] == report(port, cert));
    } else {
        let rest = before.skip(1);
        assert forall|i: int| 0 <= i < rest.len() implies reported(#[trigger] rest[i]) is None by {
            assert(rest[i] == before[i + 1]);
        }
        law_report_round_trip(port, cert, rest, after);
        assert(ls[0] == before[0]);
        assert(reported(before[0]) is None);
        assert(ls.skip(1) =~= rest + seq![report(port, cert)] + after);
    }
}

proof fn lemma_reported(port: u16, cert: Seq<u8>)
    requires
        cert.len() > 0,
    ensures
        reported(report(port, cert)) == Some((port, cert)),
{
    reveal_strlit("PORT ");
    reveal_strlit(" CERT ");
    reveal_strlit("CERT");
    let num = decimal(port as nat);
    let hex = hex_text(cert);
    let line = report(port, cert);
    lemma_decimal_value(port as nat);
    lemma_hex_chars(cert);
    law_hex_round_trip(cert);
    assert(line[0] == 'P');
    assert(line.last() == hex.last());
    assert(hex_digit(hex[hex.len() - 1]) is Some);
    assert(trim(line) == line);
    assert(line.take(5) =~= "PORT "@);
    let rest = line.skip(5);
    assert forall|i: int| 0 <= i < num.len() implies !is_white(num[i]) by {
        assert(is_digit(num[i]));
    }
    let tail = "CERT"@.push(' ') + hex;
    assert(rest =~= num.push(' ') + tail);
    lemma_words_first(num, tail);
    lemma_words_first("CERT"@, hex);
    assert forall|i: int| 0 <= i < hex.len() implies !is_white(hex[i]) by {
        assert(hex_digit(hex[i]) is Some);
    }
    lemma_words_first(hex, Seq::empty());
    let ps = words(rest);
    assert(ps =~= seq![num, "CERT"@, hex]);
}

/// The server reads the session, passkey and terminal type that the client wrote.
pub proof fn law_session_line_round_trip(id: Seq<u8>, passkey: Seq<char>, term: Seq<char>)
    requires
        id.len() == 16,
        forall|i: int| 0 <= i < passkey.len() ==> passkey[i] != '/',
        forall|i: int| 0 <= i < term.len() ==> term[i] != '/',
        term.len() > 0 ==> !is_white(term.last()),
    ensures
        parsed_session_line(session_line(id, passkey, term)) == Ok::<
            (Seq<u8>, Seq<char>, Seq<char>),
            BootstrapError,
        >((id, passkey, term)),
{
    let line = session_line(id, passkey, term);
    let hex = hex_text(id);
    lemma_hex_chars(id);
    law_hex_round_trip(id);
    assert(hex_digit(hex[0]) is Some);
    assert(line[0] == hex[0]);
    if term.len() > 0 {
        assert(line.last() == term.last());
    } else {
        assert(line.last() == '/');
    }
    assert(trim(line) == line);
    assert forall|i: int| 0 <= i < hex.len() implies hex[i] != '/' by {
        assert(hex_digit(hex[i]) is Some);
    }
    let tail = passkey.push('/') + term;
    assert(line =~= hex.push('/') + tail);
    lemma_split_first(hex, tail, '/');
    lemma_split_first(passkey, term, '/');
    lemma_split_first(term, Seq::empty(), '/');
    assert(split_on(line, '/') =~= seq![hex, passkey, term]);
}

/// Whether a line is an environment setting: not empty, and none of the other requests.
pub open spec fn is_setting(line: Seq<char>) -> bool {
    &&& line.len() > 0
    &&& !starts_with(line, "ETRCMD:"@)
    &&& !starts_with(line, "ETRX11:"@)
    &&& !starts_with(line, "ETRPREFER:"@)
}

/// The server reads what the client asked for behind the first line.
pub proof fn law_extras_round_trip(
    env: Seq<Seq<char>>,
    x11: bool,
    pref: AddrPref,
    command: Option<Seq<char>>,
)
    requires
        forall|i: int| 0 <= i < env.len() ==> is_setting(#[trigger] env[i]),
    ensures
        parsed_extras(no_extras(), extra_lines(env, x11, pref, command)) == (ExtrasValue {
            env,
            command,
            x11,
            pref,
        }),
{
    let tail = extra_lines(Seq::empty(), x11, pref, command);
    assert(extra_lines(env, x11, pref, command) =~= env + tail);
    lemma_settings(no_extras(), env, tail);
    assert(Seq::<Seq<char>>::empty() + env =~= env);
    reveal_strlit("ETRCMD:");
    reveal_strlit("ETRX11:");
    reveal_strlit("ETRX11:true");
    reveal_strlit("ETRPREFER:");
    let x0 = ExtrasValue { env, ..no_extras() };
    let t1 = if x11 {
        tail.skip(1)
    } else {
        tail
    };
    let x1 = ExtrasValue { x11, ..x0 };
    assert(parsed_extras(x0, tail) == parsed_extras(x1, t1)) by {
        if x11 {
            let line = "ETRX11:true"@;
            assert(tail[0] == line);
            assert(line.take(7) =~= "ETRX11:"@);
            assert(line.take(7)[3] != "ETRCMD:"@[3]);
        }
    }
    let x2 = ExtrasValue { pref, ..x1 };
    let t2 = match pref.wire_text() {
        Some(v) => t1.skip(1),
        None => t1,
    };
    assert(parsed_extras(x1, t1) == parsed_extras(x2, t2)) by {
        law_wire_round_trip(pref);
        if let Some(v) = pref.wire_text() {
            let line = "ETRPREFER:"@ + v;
            assert(t1[0] == line);
            assert(line.take(10) =~= "ETRPREFER:"@);
            assert(line.skip(10) =~= v);
            assert(line.take(7)[3] == 'P');
            assert("ETRCMD:"@[3] == 'C');
            assert("ETRX11:"@[3] == 'X');
        }
    }
    if let Some(c) = command {
        let line = "ETRCMD:"@ + c;
        assert(t2[0] == line);
        assert(t2.skip(1) =~= Seq::empty());
        assert(line.take(7) =~= "ETRCMD:"@);
        assert(line.skip(7) =~= c);
        assert(parsed_extras(with_line(x2, line), t2.skip(1)) == with_line(x2, line));
    } else {
        assert(t2 =~= Seq::empty());
    }
}

proof fn lemma_settings(x: ExtrasValue, env: Seq<Seq<char>>, tail: Seq<Seq<char>>)
    requires
        forall|i: int| 0 <= i < env.len() ==> is_setting(#[trigger] env[i]),
    ensures
        parsed_extras(x, env + tail) == parsed_extras(
            ExtrasValue { env: x.env + env, ..x },
            tail,
        ),
    decreases env.len(),
{
    if env.len() == 0 {
        assert(env + tail =~= tail);
        assert(x.env + env =~= x.env);
    } else {
        let rest = env.skip(1);
        assert forall|i: int| 0 <= i < rest.len() implies is_setting(#[trigger] rest[i]) by {
            assert(rest[i] == env[i + 1]);
        }
        assert(is_setting(env[0]));
        assert((env + tail)[0] == env[0]);
        assert((env + tail).skip(1) =~= rest + tail);
        lemma_settings(with_line(x, env[0]), rest, tail);
        assert(x.env.push(env[0]) + rest =~= x.env + env);
    }
}

/// `ssh` is called with the port, the family where one is given, the target, and behind it the
/// server's path; the server is told its log file where one is given, and how much to log.
pub proof fn law_ssh_call(
    target: Seq<char>,
    port: u16,
    family: Option<Seq<char>>,
    path: Seq<char>,
    log: Option<Seq<char>>,
    verbose: u8,
)
    ensures
        ({
            let a = ssh_arguments(target, port, family, path, log, verbose);
            let at = if family is Some {
                3int
            } else {
                2
            };
            let end = at + 2 + if log is Some {
                2int
            } else {
                0
            };
            &&& a[0] == "-p"@
            &&& a[1] == decimal(port as nat)
            &&& family matches Some(f) ==> a[2] == f
            &&& a[at] == target
            &&& a[at + 1] == path
            &&& log matches Some(l) ==> a[at + 2] == "--log-path"@ && a[at + 3] == l
            &&& verbose == 0 ==> a.len() == end
            &&& verbose > 0 ==> {
                &&& a.len() == end + 1
                &&& a.last().len() == verbose + 1
                &&& a.last()[0] == '-'
                &&& forall|i: int| 1 <= i <= verbose ==> #[trigger] a.last()[i] == 'v'
            }
        }),
{
}

/// The first line is the session in hexadecimal, the passkey and the terminal type, with
/// slashes between.
pub proof fn law_session_line_layout(id: Seq<u8>, passkey: Seq<char>, term: Seq<char>)
    requires
        id.len() == 16,
    ensures
        ({
            let l = session_line(id, passkey, term);
            &&& l.len() == 34 + passkey.len() + term.len()
            &&& hex_value(l.take(32)) == Some(id)
            &&& l[32] == '/'
            &&& l.subrange(33, 33 + passkey.len() as int) == passkey
            &&& l[33 + passkey.len() as int] == '/'
            &&& l.skip(34 + passkey.len() as int) == term
        }),
{
    law_hex_round_trip(id);
    let l = session_line(id, passkey, term);
    assert(l.take(32) =~= hex_text(id));
    assert(l.subrange(33, 33 + passkey.len() as int) =~= passkey);
    assert(l.skip(34 + passkey.len() as int) =~= term);
}

/// A first line with too few parts is refused, and so is one whose first part is not sixteen
/// bytes in hexadecimal.
pub proof fn law_session_line_refusals(line: Seq<char>)
    ensures
        split_on(trim(line), '/').len() < 3 ==> parsed_session_line(line) == Err::<
            (Seq<u8>, Seq<char>, Seq<char>),
            BootstrapError,
        >(BootstrapError::MissingParts),
        parsed_session_line(line) matches Ok(x) ==> x.0.len() == 16 && hex_value(
            split_on(trim(line), '/')[0],
        ) == Some(x.0),
        split_on(trim(line), '/').len() >= 3 && hex_value(split_on(trim(line), '/')[0]) is None
            ==> parsed_session_line(line) == Err::<
            (Seq<u8>, Seq<char>, Seq<char>),
            BootstrapError,
        >(BootstrapError::BadSessionId),
{
}

/// Behind the first line, `ETRCMD:` brings the command as it stands, `ETRX11:` asks for X11,
/// `ETRPREFER:` names a family, and every other line is an environment setting.
pub proof fn law_line_kinds(x: ExtrasValue, rest: Seq<char>, line: Seq<char>)
    ensures
        with_line(x, "ETRCMD:"@ + rest) == (ExtrasValue { command: Some(rest), ..x }),
        with_line(x, "ETRX11:"@ + rest) == (ExtrasValue { x11: true, ..x }),
        with_line(x, "ETRPREFER:"@ + rest) == (ExtrasValue { pref: wire_pref(rest), ..x }),
        is_setting(line) ==> with_line(x, line) == (ExtrasValue { env: x.env.push(line), ..x }),
{
    reveal_strlit("ETRCMD:");
    reveal_strlit("ETRX11:");
    reveal_strlit("ETRPREFER:");
    let c = "ETRCMD:"@ + rest;
    let d = "ETRX11:"@ + rest;
    let p = "ETRPREFER:"@ + rest;
    assert(c.take(7) =~= "ETRCMD:"@);
    assert(c.skip(7) =~= rest);
    assert(d.take(7) =~= "ETRX11:"@);
    assert(d[3] == 'X');
    assert(d.take(7)[3] != "ETRCMD:"@[3]);
    assert(p.take(10) =~= "ETRPREFER:"@);
    assert(p.skip(10) =~= rest);
    assert(p.take(7)[3] == 'P');
    assert("ETRCMD:"@[3] == 'C' && "ETRX11:"@[3] == 'X');
}

/// What the client asks for stands in lines of these kinds: the settings first, in order, and
/// the command last, so that it may hold anything.
pub proof fn law_lines_written(
    env: Seq<Seq<char>>,
    x11: bool,
    pref: AddrPref,
    command: Option<Seq<char>>,
)
    ensures
        ({
            let l = extra_lines(env, x11, pref, command);
            &&& l.take(env.len() as int) == env
            &&& x11 ==> l[env.len() as int] == "ETRX11:true"@
            &&& command matches Some(c) ==> l.last() == "ETRCMD:"@ + c
            &&& pref == AddrPref::Ipv4 ==> l.contains("ETRPREFER:"@ + "4"@)
            &&& pref == AddrPref::Ipv6 ==> l.contains("ETRPREFER:"@ + "6"@)
            &&& l.len() == env.len() + (if x11 {
                1int
            } else {
                0
            }) + (if pref != AddrPref::Auto {
                1int
            } else {
                0
            }) + (if command is Some {
                1int
            } else {
                0
            })
        }),
{
    let l = extra_lines(env, x11, pref, command);
    let at = env.len() + if x11 {
        1int
    } else {
        0
    };
    assert(l.take(env.len() as int) =~= env);
    if pref == AddrPref::Ipv4 {
        assert(l[at] == "ETRPREFER:"@ + "4"@);
    }
    if pref == AddrPref::Ipv6 {
        assert(l[at] == "ETRPREFER:"@ + "6"@);
    }
}

/// The server reports with `PORT`, the port in decimal, `CERT` and the certificate in
/// hexadecimal; a line that does not begin with `PORT ` reports nothing.
pub proof fn law_report_layout(port: u16, cert: Seq<u8>, line: Seq<char>)
    ensures
        report(port, cert) == "PORT "@ + decimal(port as nat) + " CERT "@ + hex_text(cert),
        !starts_with(trim(line), "PORT "@) ==> reported(line) is None,
{
}

/// Of several reports the first counts.
pub proof fn law_first_report_counts(ls: Seq<Seq<char>>, line: Seq<char>)
    ensures
        reported(line) is Some ==> first_report(seq![line] + ls) == reported(line),
        reported(line) is None ==> first_report(seq![line] + ls) == first_report(ls),
        first_report(Seq::empty()) is None,
{
    assert((seq![line] + ls).skip(1) =~= ls);
}

/// Starting a session, from the client's lines to what the server makes of them: the server
/// reads the session, passkey and terminal type, and everything that the client asked for.
pub proof fn law_server_starts_as_asked(
    id: [u8; 16],
    passkey: &str,
    term: &str,
    env: Vec<String>,
    x11: bool,
    pref: AddrPref,
    command: Option<&str>,
    written: Vec<String>,
    line: &str,
    session: Result<([u8; 16], String, String), BootstrapError>,
    rest: Vec<String>,
    extras: Extras,
)
    requires
        call_ensures(bootstrap_input, (&id, passkey, term, &env, x11, pref, command), written),
        forall|i: int| 0 <= i < passkey@.len() ==> passkey@[i] != '/',
        forall|i: int| 0 <= i < term@.len() ==> term@[i] != '/',
        term@.len() > 0 ==> !is_white(term@.last()),
        forall|i: int| 0 <= i < env@.len() ==> is_setting((#[trigger] env@[i])@),
        line@ == written@[0]@,
        call_ensures(parse_session_line, (line,), session),
        texts(rest@) == texts(written@).skip(1),
        call_ensures(parse_bootstrap_lines, (&rest,), extras),
    ensures
        session matches Ok(x) && x.0@ == id@ && x.1@ == passkey@ && x.2@ == term@,
        texts(extras.env@) == texts(env@),
        extras.x11 == x11,
        extras.pref == pref,
        crate::forward::opt_text(extras.command) == opt_str(command),
{
    let t = texts(written@);
    assert(t[0] == written@[0]@);
    law_session_line_round_trip(id@, passkey@, term@);
    assert forall|i: int| 0 <= i < texts(env@).len() implies is_setting(
        #[trigger] texts(env@)[i],
    ) by {
        assert(texts(env@)[i] == env@[i]@);
    }
    law_extras_round_trip(texts(env@), x11, pref, opt_str(command));
    assert(t.skip(1) =~= extra_lines(texts(env@), x11, pref, opt_str(command)));
}

/// The client learns the server's port and certificate from what the server prints.
pub proof fn law_client_learns_port(
    port: u16,
    cert: &[u8],
    line: String,
    stdout: &str,
    r: Option<(u16, Vec<u8>)>,
)
    requires
        cert@.len() > 0,
        call_ensures(report_line, (port, cert), line),
        stdout@ == line@.push('\n'),
        call_ensures(parse_report, (stdout,), r),
    ensures
        r matches Some(x) && x.0 == port && x.1@ == cert@,
{
    let l = report(port, cert@);
    lemma_decimal_value(port as nat);
    lemma_hex_chars(cert@);
    reveal_strlit("PORT ");
    reveal_strlit(" CERT ");
    let d = decimal(port as nat);
    let h = hex_text(cert@);
    assert(l =~= "PORT "@ + d + " CERT "@ + h);
    assert forall|i: int| 0 <= i < l.len() implies l[i] != '\n' by {
        if i < 5 {
        } else if i < 5 + d.len() {
            assert(l[i] == d[i - 5]);
            assert(is_digit(d[i - 5]));
        } else if i < 11 + d.len() {
            assert(l[i] == " CERT "@[i - 5 - d.len()]);
        } else {
            assert(l[i] == h[i - 11 - d.len()]);
            assert(hex_digit(h[i - 11 - d.len()]) is Some);
        }
    }
    crate::text::law_lines(l, Seq::empty());
    assert(l.push('\n') + Seq::empty() =~= l.push('\n'));
    assert(l.last() != '\r') by {
        assert(l.last() == h[h.len() - 1]);
        assert(hex_digit(h[h.len() - 1]) is Some);
    }
    assert(lines(stdout@) =~= seq![l]);
    law_report_round_trip(port, cert@, Seq::empty(), Seq::empty());
    assert(Seq::<Seq<char>>::empty() + seq![l] + Seq::<Seq<char>>::empty() =~= seq![l]);
}

} // verus!
