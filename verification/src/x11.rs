//! X11 forwarding: displays, cookies and the connection setup block.
use vstd::prelude::*;

use crate::bytes::push_all;
use crate::forward::{bracket_parts, port_of, split_ignoring_brackets};
use crate::hex::{hex_decode, hex_value};
use crate::text::{
    before, chars_of, decimal, decimal_text, last_index, lines, lines_of, parse_u16, rfind,
    substring, text_before, text_eq, texts, words, words_of,
};

verus! {

// ---------------------------------------------------------------------------
// Displays
// ---------------------------------------------------------------------------

/// The port of display zero over TCP.
pub const X11_BASE_PORT: u16 = 6000;

/// Where an X11 display is reached.
#[derive(Debug, Clone, PartialEq, Eq)]
pub enum X11Display {
    /// A local socket (`:0` or `unix:0`), by display number.
    Unix(u16),
    /// The path of a local socket (`/tmp/launch-XXX/org.xquartz:0`).
    Path(String),
    /// A host and port (`localhost:10.0` is `localhost`, port `6010`).
    Tcp(String, u16),
}

/// The value of an X11 display.
pub enum DisplayValue {
    /// A local socket, by display number.
    Unix(u16),
    /// The path of a local socket.
    Path(Seq<char>),
    /// A host and port.
    Tcp(Seq<char>, u16),
}

/// The display number after `s`'s last colon, up to a dot; 0 where there is none.
pub open spec fn path_display(s: Seq<char>) -> u16 {
    if last_index(s, ':') < 0 {
        0
    } else {
        match port_of(before(s.skip(last_index(s, ':') + 1), '.')) {
            Some(n) => n,
            None => 0,
        }
    }
}

/// What the `DISPLAY` value `s` names, or the message that refuses it.
pub open spec fn parsed_display(s: Seq<char>) -> Result<DisplayValue, Seq<char>> {
    let parts = bracket_parts(s);
    if s.len() > 0 && s[0] == '/' {
        Ok(DisplayValue::Path(s))
    } else if parts.len() < 2 {
        Err("invalid DISPLAY '"@ + s + "'"@)
    } else {
        match port_of(before(parts[1], '.')) {
            None => Err("invalid display number '"@ + before(parts[1], '.') + "'"@),
            Some(n) => if parts[0].len() == 0 || parts[0] == "unix"@ {
                Ok(DisplayValue::Unix(n))
            } else {
                Ok(DisplayValue::Tcp(parts[0], (X11_BASE_PORT + n) as u16))
            },
        }
    }
}

/// Whether `s` names a display on a host, with a number too large for a port.
pub open spec fn display_overflows(s: Seq<char>) -> bool {
    let parts = bracket_parts(s);
    &&& !(s.len() > 0 && s[0] == '/')
    &&& parts.len() >= 2
    &&& parts[0].len() > 0
    &&& parts[0] != "unix"@
    &&& port_of(before(parts[1], '.')) matches Some(n) && X11_BASE_PORT + n > u16::MAX
}

/// Whether `s` names a display on a host, with a number too large for a port.
pub fn display_port_overflows(s: &str) -> (r: bool)
    ensures
        r == display_overflows(s@),
{
    if s.unicode_len() > 0 && s.get_char(0) == '/' {
        return false;
    }
    let parts = split_ignoring_brackets(s);
    if parts.len() < 2 {
        return false;
    }
    assert(bracket_parts(s@)[0] == parts@[0]@);
    assert(bracket_parts(s@)[1] == parts@[1]@);
    let host = parts[0].as_str();
    if host.unicode_len() == 0 || text_eq(host, "unix") {
        return false;
    }
    match parse_u16(text_before(parts[1].as_str(), '.')) {
        Some(n) => n > 65535 - X11_BASE_PORT,
        None => false,
    }
}

impl X11Display {
    /// The value of the display.
    pub open spec fn view(self) -> DisplayValue {
        match self {
            X11Display::Unix(n) => DisplayValue::Unix(n),
            X11Display::Path(p) => DisplayValue::Path(p@),
            X11Display::Tcp(h, p) => DisplayValue::Tcp(h@, p),
        }
    }

    /// Reads a `DISPLAY` value. The port of a display on a host must fit a port number.
    pub fn parse(s: &str) -> (r: Result<Self, String>)
        requires
            !display_overflows(s@),
        ensures
            match r {
                Ok(d) => parsed_display(s@) == Ok::<DisplayValue, Seq<char>>(d@),
                Err(e) => parsed_display(s@) == Err::<DisplayValue, Seq<char>>(e@),
            },
    {
        if s.unicode_len() > 0 && s.get_char(0) == '/' {
            return Ok(X11Display::Path(s.to_owned()));
        }
        let parts = split_ignoring_brackets(s);
        if parts.len() < 2 {
            let mut e = "invalid DISPLAY '".to_owned();
            e.append(s);
            e.append("'");
            return Err(e);
        }
        assert(bracket_parts(s@)[0] == parts@[0]@);
        assert(bracket_parts(s@)[1] == parts@[1]@);
        let number = text_before(parts[1].as_str(), '.');
        match parse_u16(number) {
            None => {
                let mut e = "invalid display number '".to_owned();
                e.append(number);
                e.append("'");
                Err(e)
            },
            Some(n) => {
                let host = parts[0].as_str();
                if host.unicode_len() == 0 || text_eq(host, "unix") {
                    Ok(X11Display::Unix(n))
                } else {
                    Ok(X11Display::Tcp(parts[0].clone(), X11_BASE_PORT + n))
                }
            },
        }
    }

    /// The display number of a display.
    pub open spec fn number(d: DisplayValue) -> u16 {
        match d {
            DisplayValue::Unix(n) => n,
            DisplayValue::Path(p) => path_display(p),
            DisplayValue::Tcp(_, port) => if port >= X11_BASE_PORT {
                (port - X11_BASE_PORT) as u16
            } else {
                0
            },
        }
    }

    /// The display number.
    pub fn display_num(&self) -> (r: u16)
        ensures
            r == Self::number(self@),
    {
        match self {
            X11Display::Unix(n) => *n,
            X11Display::Path(p) => {
                let cs = chars_of(p.as_str());
                let n: usize = cs.len();
                match rfind(&cs, ':') {
                    None => 0,
                    Some(i) => {
                        let rest = substring(&cs, i + 1, n);
                        assert(rest@ =~= p@.skip(i + 1));
                        match parse_u16(text_before(rest.as_str(), '.')) {
                            Some(n) => n,
                            None => 0,
                        }
                    },
                }
            },
            X11Display::Tcp(_, port) => {
                if *port >= X11_BASE_PORT {
                    *port - X11_BASE_PORT
                } else {
                    0
                }
            },
        }
    }
}

/// Where a connection to a display goes.
#[derive(Debug)]
pub enum DisplayTarget {
    /// To a local socket, by its path.
    Socket(String),
    /// To a TCP address.
    Tcp(String),
}

/// Where a connection to a display goes, as a value.
pub enum DisplayTargetValue {
    /// To a local socket, by its path.
    Socket(Seq<char>),
    /// To a TCP address.
    Tcp(Seq<char>),
}

impl DisplayTarget {
    /// The value of the target.
    pub open spec fn view(self) -> DisplayTargetValue {
        match self {
            DisplayTarget::Socket(p) => DisplayTargetValue::Socket(p@),
            DisplayTarget::Tcp(a) => DisplayTargetValue::Tcp(a@),
        }
    }
}

/// Where a connection to the display goes.
pub fn display_target(d: &X11Display) -> (r: DisplayTarget)
    ensures
        r@ == (match d@ {
            DisplayValue::Unix(n) => DisplayTargetValue::Socket(
                "/tmp/.X11-unix/X"@ + decimal(n as nat),
            ),
            DisplayValue::Path(p) => DisplayTargetValue::Socket(p),
            DisplayValue::Tcp(h, p) => DisplayTargetValue::Tcp(h + ":"@ + decimal(p as nat)),
        }),
{
    match d {
        X11Display::Unix(n) => DisplayTarget::Socket(x11_socket_path(*n)),
        X11Display::Path(p) => DisplayTarget::Socket(p.clone()),
        X11Display::Tcp(h, p) => {
            let mut a = h.clone();
            a.append(":");
            a.append(decimal_text(*p as u64).as_str());
            DisplayTarget::Tcp(a)
        },
    }
}

/// A display number given as `host:number` or `host:number.screen` is read back from the
/// display that the text names.
pub proof fn law_display_number(s: Seq<char>)
    requires
        !display_overflows(s),
        !(s.len() > 0 && s[0] == '/'),
    ensures
        parsed_display(s) matches Ok(d) ==> port_of(before(bracket_parts(s)[1], '.')) == Some(
            X11Display::number(d),
        ),
{
}

// ---------------------------------------------------------------------------
// Cookies
// ---------------------------------------------------------------------------

/// The display number of an entry that `xauth list` prints: what follows the last colon,
/// up to a slash or a dot.
pub open spec fn entry_display(entry: Seq<char>) -> Option<u16> {
    if last_index(entry, ':') < 0 {
        None
    } else {
        port_of(before(before(entry.skip(last_index(entry, ':') + 1), '/'), '.'))
    }
}

/// The protocol and cookie that the line of `xauth list` holds, where the line is for the
/// display `num`; or, without a number, where it is for the usual protocol.
pub open spec fn line_cookie(line: Seq<char>, num: Option<u16>) -> Option<(Seq<char>, Seq<u8>)> {
    let fields = words(line);
    if fields.len() < 3 {
        None
    } else {
        let fits = match num {
            Some(n) => entry_display(fields[0]) == Some(n),
            None => fields[1] == "MIT-MAGIC-COOKIE-1"@,
        };
        match hex_value(fields[2]) {
            Some(cookie) => if fits {
                Some((fields[1], cookie))
            } else {
                None
            },
            None => None,
        }
    }
}

/// The first cookie that one of `ls` holds.
pub open spec fn first_cookie(ls: Seq<Seq<char>>, num: Option<u16>) -> Option<
    (Seq<char>, Seq<u8>),
>
    decreases ls.len(),
{
    if ls.len() == 0 {
        None
    } else {
        match line_cookie(ls[0], num) {
            Some(c) => Some(c),
            None => first_cookie(ls.skip(1), num),
        }
    }
}

/// The cookie for display `num`: that of the first entry for it, or else of the first
/// entry for the usual protocol.
pub open spec fn cookie_for(listing: Seq<char>, num: u16) -> Option<(Seq<char>, Seq<u8>)> {
    match first_cookie(lines(listing), Some(num)) {
        Some(c) => Some(c),
        None => first_cookie(lines(listing), None),
    }
}

/// The protocol and cookie that one line holds.
fn cookie_in_line(line: &str, num: Option<u16>) -> (r: Option<(String, Vec<u8>)>)
    ensures
        match r {
            Some((p, c)) => line_cookie(line@, num) == Some((p@, c@)),
            None => line_cookie(line@, num) is None,
        },
{
    let fields = words_of(line);
    if fields.len() < 3 {
        return None;
    }
    assert(words(line@)[0] == fields@[0]@);
    assert(words(line@)[1] == fields@[1]@);
    assert(words(line@)[2] == fields@[2]@);
    let fits = match num {
        Some(n) => match number_of_entry(fields[0].as_str()) {
            Some(m) => m == n,
            None => false,
        },
        None => text_eq(fields[1].as_str(), "MIT-MAGIC-COOKIE-1"),
    };
    match hex_decode(fields[2].as_str()) {
        Some(cookie) => if fits {
            Some((fields[1].clone(), cookie))
        } else {
            None
        },
        None => None,
    }
}

/// The display number of an entry.
fn number_of_entry(entry: &str) -> (r: Option<u16>)
    ensures
        r == entry_display(entry@),
{
    let cs = chars_of(entry);
    let n: usize = cs.len();
    match rfind(&cs, ':') {
        None => None,
        Some(i) => {
            let rest = substring(&cs, i + 1, n);
            assert(rest@ =~= entry@.skip(i + 1));
            parse_u16(text_before(text_before(rest.as_str(), '/'), '.'))
        },
    }
}

/// The first cookie that one of `ls` holds.
fn cookie_in_lines(ls: &Vec<String>, num: Option<u16>) -> (r: Option<(String, Vec<u8>)>)
    ensures
        match r {
            Some((p, c)) => first_cookie(texts(ls@), num) == Some((p@, c@)),
            None => first_cookie(texts(ls@), num) is None,
        },
{
    assert(texts(ls@).skip(0) =~= texts(ls@));
    for i in 0..ls.len()
        invariant
            first_cookie(texts(ls@), num) == first_cookie(texts(ls@).skip(i as int), num),
    {
        let ghost rest = texts(ls@).skip(i as int);
        assert(rest[0] == ls@[i as int]@);
        assert(rest.skip(1) =~= texts(ls@).skip(i + 1));
        if let Some(found) = cookie_in_line(ls[i].as_str(), num) {
            return Some(found);
        }
    }
    None
}

/// The protocol and cookie for the display `display` among the entries that `xauth list`
/// printed.
pub fn find_xauth_cookie(display: &str, listing: &str) -> (r: Result<(String, Vec<u8>), String>)
    requires
        !display_overflows(display@),
    ensures
        match parsed_display(display@) {
            Err(e) => r matches Err(m) && m@ == e,
            Ok(d) => match cookie_for(listing@, X11Display::number(d)) {
                Some((p, c)) => r matches Ok((proto, cookie)) && proto@ == p && cookie@ == c,
                None => r matches Err(m) && m@ == "no xauth cookie found for display "@ + display@,
            },
        },
{
    let num: u16 = match X11Display::parse(display) {
        Ok(d) => d.display_num(),
        Err(e) => {
            return Err(e);
        },
    };
    let ls = lines_of(listing);
    if let Some(found) = cookie_in_lines(&ls, Some(num)) {
        return Ok(found);
    }
    if let Some(found) = cookie_in_lines(&ls, None) {
        return Ok(found);
    }
    let mut e = "no xauth cookie found for display ".to_owned();
    e.append(display);
    Err(e)
}

// ---------------------------------------------------------------------------
// Choosing a display on the server
// ---------------------------------------------------------------------------

/// The display to try after `tried`: 10 to 99, in order.
pub fn next_display(tried: Option<u16>) -> (r: Option<u16>)
    ensures
        match tried {
            None => r == Some(10u16),
            Some(d) => r == (if d < 99 {
                Some((d + 1) as u16)
            } else {
                None
            }),
        },
{
    match tried {
        None => Some(10),
        Some(d) => if d < 99 {
            Some(d + 1)
        } else {
            None
        },
    }
}

/// The path of the local socket of display `d`.
pub fn x11_socket_path(d: u16) -> (r: String)
    ensures
        r@ == "/tmp/.X11-unix/X"@ + decimal(d as nat),
{
    let mut r = "/tmp/.X11-unix/X".to_owned();
    r.append(decimal_text(d as u64).as_str());
    r
}

/// The loopback addresses, IPv4 and IPv6, of display `d`.
pub fn x11_tcp_targets(d: u16) -> (r: (String, String))
    requires
        d <= u16::MAX - X11_BASE_PORT,
    ensures
        r.0@ == "127.0.0.1:"@ + decimal((X11_BASE_PORT + d) as nat),
        r.1@ == "[::1]:"@ + decimal((X11_BASE_PORT + d) as nat),
{
    let port = decimal_text((X11_BASE_PORT + d) as u64);
    let mut v4 = "127.0.0.1:".to_owned();
    v4.append(port.as_str());
    let mut v6 = "[::1]:".to_owned();
    v6.append(port.as_str());
    (v4, v6)
}

/// The names under which `xauth` keeps the cookie of display `d`: for the local socket,
/// and for TCP.
pub fn xauth_names(d: u16) -> (r: (String, String))
    ensures
        r.0@ == "localhost/unix:"@ + decimal(d as nat),
        r.1@ == "localhost:"@ + decimal(d as nat),
{
    let num = decimal_text(d as u64);
    let mut unix = "localhost/unix:".to_owned();
    unix.append(num.as_str());
    let mut tcp = "localhost:".to_owned();
    tcp.append(num.as_str());
    (unix, tcp)
}

// ---------------------------------------------------------------------------
// The connection setup block
// ---------------------------------------------------------------------------

/// The length of the fixed part of a setup block.
pub const SETUP_HEADER: usize = 12;

/// `n` rounded up to a multiple of four.
pub open spec fn padded(n: nat) -> nat {
    (n + 3) / 4 * 4
}

/// Whether the setup block is in little-endian byte order.
pub open spec fn is_little(block: Seq<u8>) -> bool {
    block[0] == 0x6c
}

/// The 16-bit number at `at`, in the byte order of the block.
pub open spec fn setup_u16(block: Seq<u8>, at: int) -> nat {
    if is_little(block) {
        (block[at] + 256 * block[at + 1]) as nat
    } else {
        (256 * block[at] + block[at + 1]) as nat
    }
}

/// The bytes of the low 16 bits of `n`, in the byte order of the block.
pub open spec fn u16_bytes(little: bool, n: nat) -> Seq<u8> {
    let low = (n % 256) as u8;
    let high = (n / 256 % 256) as u8;
    if little {
        seq![low, high]
    } else {
        seq![high, low]
    }
}

/// The length of the whole block, from its fixed part.
pub open spec fn setup_len(header: Seq<u8>) -> nat {
    SETUP_HEADER as nat + padded(setup_u16(header, 6)) + padded(setup_u16(header, 8))
}

/// The authentication data that the block carries, without padding.
pub open spec fn setup_cookie(block: Seq<u8>) -> Seq<u8> {
    let from = SETUP_HEADER + padded(setup_u16(block, 6));
    block.subrange(from as int, (from + setup_u16(block, 8)) as int)
}

/// `s` followed by zeros up to a multiple of four.
pub open spec fn zero_padded(s: Seq<u8>) -> Seq<u8> {
    s + Seq::new((padded(s.len()) - s.len()) as nat, |i: int| 0u8)
}

/// The bytes of the usual protocol's name.
pub open spec fn cookie_protocol() -> Seq<u8> {
    seq![
        77u8, 73u8, 84u8, 45u8, 77u8, 65u8, 71u8, 73u8, 67u8, 45u8, 67u8, 79u8, 79u8, 75u8, 73u8,
        69u8, 45u8, 49u8,
    ]
}

/// The setup block that the X server gets in place of `block`: with the cookie `own_cookie`
/// under the usual protocol, or without authentication where `own_cookie` is empty.
pub open spec fn rewritten_setup(block: Seq<u8>, own_cookie: Seq<u8>) -> Seq<u8> {
    if own_cookie.len() == 0 {
        block.take(6) + seq![0u8, 0u8, 0u8, 0u8] + block.subrange(10, 12)
    } else {
        block.take(6) + u16_bytes(is_little(block), 18) + u16_bytes(is_little(block), own_cookie.len())
            + block.subrange(10, 12) + zero_padded(cookie_protocol()) + zero_padded(own_cookie)
    }
}

/// Why a connection setup is refused.
#[derive(Debug, Clone, Copy, PartialEq, Eq, Structural)]
pub enum X11SetupError {
    /// The input ends before the setup block does.
    Incomplete,
    /// The client's cookie is shorter than the expected one.
    CookieTooShort,
    /// The client's cookie is another one.
    CookieMismatch,
}

impl X11SetupError {
    /// The message for this error.
    pub fn message(self) -> (r: &'static str)
        ensures
            r@ == (match self {
                X11SetupError::Incomplete => "X11 setup block ends early"@,
                X11SetupError::CookieTooShort => "X11 auth cookie too short"@,
                X11SetupError::CookieMismatch => "X11 auth cookie mismatch"@,
            }),
    {
        match self {
            X11SetupError::Incomplete => "X11 setup block ends early",
            X11SetupError::CookieTooShort => "X11 auth cookie too short",
            X11SetupError::CookieMismatch => "X11 auth cookie mismatch",
        }
    }
}

/// The 16-bit number at `at`, in the byte order of the block.
fn read_u16(block: &[u8], at: usize) -> (r: usize)
    requires
        at + 1 < block@.len(),
    ensures
        r == setup_u16(block@, at as int),
        r <= 65535,
{
    if block[0] == 0x6c {
        block[at] as usize + 256 * block[at + 1] as usize
    } else {
        256 * block[at] as usize + block[at + 1] as usize
    }
}

/// The length of the whole setup block, from its fixed part.
pub fn x11_setup_len(header: &[u8]) -> (r: usize)
    requires
        header@.len() >= SETUP_HEADER,
    ensures
        r == setup_len(header@),
{
    let name_len: usize = read_u16(header, 6);
    let data_len: usize = read_u16(header, 8);
    SETUP_HEADER + (name_len + 3) / 4 * 4 + (data_len + 3) / 4 * 4
}

/// Appends the low 16 bits of `n`.
fn push_u16(out: &mut Vec<u8>, little: bool, n: usize)
    ensures
        final(out)@ == old(out)@ + u16_bytes(little, n as nat),
{
    let low: u8 = (n % 256) as u8;
    let high: u8 = (n / 256 % 256) as u8;
    if little {
        out.push(low);
        out.push(high);
    } else {
        out.push(high);
        out.push(low);
    }
    assert(out@ =~= old(out)@ + u16_bytes(little, n as nat));
}

/// Appends `data` and zeros up to a multiple of four.
fn push_padded(out: &mut Vec<u8>, data: &[u8])
    requires
        data@.len() + 3 <= usize::MAX,
    ensures
        final(out)@ == old(out)@ + zero_padded(data@),
{
    let ghost start = old(out)@ + data@;
    push_all(out, data);
    let zeros: usize = (data.len() + 3) / 4 * 4 - data.len();
    for i in 0..zeros
        invariant
            out@ == start + Seq::new(i as nat, |i: int| 0u8),
    {
        out.push(0);
        assert(out@ =~= start + Seq::new((i + 1) as nat, |i: int| 0u8));
    }
    assert(out@ =~= old(out)@ + zero_padded(data@));
}

/// Reads the setup block that a client opens an X11 connection with, checks its cookie
/// against `fake` (unless that is empty), and returns the block to send to the X server in
/// its place. `input` may go on behind the block.
pub fn process_x11_setup(input: &[u8], fake: &[u8], own_cookie: &[u8]) -> (r: Result<
    Vec<u8>,
    X11SetupError,
>)
    requires
        own_cookie@.len() + 3 <= usize::MAX,
    ensures
        ({
            let block = input@;
            if block.len() < SETUP_HEADER || block.len() < setup_len(block) {
                r == Err::<Vec<u8>, X11SetupError>(X11SetupError::Incomplete)
            } else if setup_cookie(block).len() < fake@.len() {
                r == Err::<Vec<u8>, X11SetupError>(X11SetupError::CookieTooShort)
            } else if setup_cookie(block).take(fake@.len() as int) != fake@ {
                r == Err::<Vec<u8>, X11SetupError>(X11SetupError::CookieMismatch)
            } else {
                r matches Ok(out) && out@ == rewritten_setup(block, own_cookie@)
            }
        }),
{
    if input.len() < SETUP_HEADER {
        return Err(X11SetupError::Incomplete);
    }
    if input.len() < x11_setup_len(input) {
        return Err(X11SetupError::Incomplete);
    }
    let n: usize = input.len();
    let little = input[0] == 0x6c;
    let name_len: usize = read_u16(input, 6);
    let data_len: usize = read_u16(input, 8);
    let from: usize = SETUP_HEADER + (name_len + 3) / 4 * 4;
    let ghost cookie = setup_cookie(input@);
    assert(cookie.len() == data_len);
    if data_len < fake.len() {
        return Err(X11SetupError::CookieTooShort);
    }
    for i in 0..fake.len()
        invariant
            fake@.len() <= data_len == cookie.len(),
            from + data_len <= n == input@.len(),
            SETUP_HEADER <= n,
            setup_len(input@) <= n,
            cookie == input@.subrange(from as int, from + data_len),
            forall|j: int| 0 <= j < i ==> cookie[j] == fake@[j],
            cookie == setup_cookie(input@),
    {
        if input[from + i] != fake[i] {
            assert(cookie.take(fake@.len() as int)[i as int] != fake@[i as int]);
            return Err(X11SetupError::CookieMismatch);
        }
    }
    assert(cookie.take(fake@.len() as int) =~= fake@);
    let mut out: Vec<u8> = Vec::new();
    push_all(&mut out, &input[0..6]);
    if own_cookie.len() == 0 {
        out.push(0);
        out.push(0);
        out.push(0);
        out.push(0);
        push_all(&mut out, &input[10..12]);
        assert(out@ =~= rewritten_setup(input@, own_cookie@));
    } else {
        let name: [u8; 18] = [
            77, 73, 84, 45, 77, 65, 71, 73, 67, 45, 67, 79, 79, 75, 73, 69, 45, 49,
        ];
        push_u16(&mut out, little, 18);
        push_u16(&mut out, little, own_cookie.len());
        push_all(&mut out, &input[10..12]);
        push_padded(&mut out, name.as_slice());
        push_padded(&mut out, own_cookie);
        assert(name@ =~= cookie_protocol());
        assert(out@ =~= rewritten_setup(input@, own_cookie@));
    }
    Ok(out)
}

/// The rewritten block is a setup block in the same byte order, of the length that its own
/// fixed part announces, and carries exactly the real cookie.
pub proof fn law_rewritten_setup(block: Seq<u8>, own_cookie: Seq<u8>)
    requires
        block.len() >= SETUP_HEADER,
        own_cookie.len() <= 65535,
    ensures
        ({
            let out = rewritten_setup(block, own_cookie);
            &&& is_little(out) == is_little(block)
            &&& out.len() == setup_len(out)
            &&& setup_cookie(out) == own_cookie
        }),
{
    let out = rewritten_setup(block, own_cookie);
    assert(out[0] == block[0]);
    let n = own_cookie.len();
    if n == 0 {
        assert(setup_u16(out, 6) == 0);
        assert(setup_u16(out, 8) == 0);
        assert(setup_cookie(out) =~= own_cookie);
    } else {
        assert(setup_u16(out, 6) == 18);
        assert((n % 256) + 256 * (n / 256 % 256) == n) by (nonlinear_arith)
            requires
                n <= 65535,
        ;
        assert(setup_u16(out, 8) == n);
        assert(setup_cookie(out) =~= own_cookie);
    }
}

/// The rewritten block keeps the fixed part of the client's block in every byte but those of
/// the two lengths: byte order and protocol version reach the X server as the client sent them.
pub proof fn law_setup_keeps_header(block: Seq<u8>, own_cookie: Seq<u8>)
    requires
        block.len() >= 12,
    ensures
        rewritten_setup(block, own_cookie).len() >= 12,
        forall|i: int|
            0 <= i < 6 || 10 <= i < 12 ==> #[trigger] rewritten_setup(block, own_cookie)[i]
                == block[i],
{
    let out = rewritten_setup(block, own_cookie);
    assert(block.take(6).len() == 6);
    assert(block.subrange(10, 12).len() == 2);
    assert(block.subrange(10, 12)[0] == block[10]);
    assert(block.subrange(10, 12)[1] == block[11]);
    assert forall|i: int| 0 <= i < 6 || 10 <= i < 12 implies #[trigger] out[i] == block[i] by {
        if i < 6 {
            assert(block.take(6)[i] == block[i]);
        }
    }
}

/// The two lengths of the rewritten block are those of the protocol's name and of the cookie,
/// least significant byte first where the client's block begins with `l`, most significant
/// byte first otherwise. Behind the fixed part stand the name, the cookie, and zeros up to
/// multiples of four; nothing where there is no cookie.
pub proof fn law_setup_carries_cookie(block: Seq<u8>, own_cookie: Seq<u8>)
    requires
        block.len() >= 12,
        own_cookie.len() <= 65535,
    ensures
        ({
            let out = rewritten_setup(block, own_cookie);
            let n = own_cookie.len() as int;
            &&& n == 0 ==> out.len() == 12 && out[6] == 0 && out[7] == 0 && out[8] == 0 && out[9]
                == 0
            &&& n > 0 && block[0] == 0x6c ==> out[6] == 18 && out[7] == 0 && out[8] == n % 256
                && out[9] == n / 256
            &&& n > 0 && block[0] != 0x6c ==> out[6] == 0 && out[7] == 18 && out[8] == n / 256
                && out[9] == n % 256
            &&& n > 0 ==> {
                &&& out.len() == 12 + 20 + n + (4 - n % 4) % 4
                &&& forall|i: int|
                    0 <= i < 18 ==> #[trigger] out[12 + i] == "MIT-MAGIC-COOKIE-1"@[i] as u8
                &&& out[30] == 0 && out[31] == 0
                &&& forall|i: int| 0 <= i < n ==> #[trigger] out[32 + i] == own_cookie[i]
                &&& forall|i: int| 32 + n <= i < out.len() ==> #[trigger] out[i] == 0
            }
        }),
{
    reveal_strlit("MIT-MAGIC-COOKIE-1");
    let out = rewritten_setup(block, own_cookie);
    let n = own_cookie.len();
    if n > 0 {
        assert(padded(18) == 20);
        assert(padded(n) == n + (4 - n % 4) % 4);
        let name = zero_padded(cookie_protocol());
        let data = zero_padded(own_cookie);
        let head = block.take(6) + u16_bytes(is_little(block), 18) + u16_bytes(
            is_little(block),
            n,
        ) + block.subrange(10, 12);
        assert(head.len() == 12);
        assert(name.len() == 20);
        assert(out =~= head + name + data);
        assert forall|i: int| 0 <= i < 18 implies #[trigger] out[12 + i]
            == "MIT-MAGIC-COOKIE-1"@[i] as u8 by {
            assert(out[12 + i] == name[i]);
        }
        assert(out[30] == name[18]);
        assert(out[31] == name[19]);
        assert forall|i: int| 0 <= i < n implies #[trigger] out[32 + i] == own_cookie[i] by {
            assert(out[32 + i] == data[i]);
        }
        assert forall|i: int| 32 + n <= i < out.len() implies #[trigger] out[i] == 0 by {
            assert(out[i] == data[i - 32]);
        }
    }
}

/// Rounding up gives the next multiple of four.
pub proof fn law_padding(n: nat)
    ensures
        padded(n) % 4 == 0,
        n <= padded(n) < n + 4,
{
}

/// A block is as long as its fixed part says: twelve bytes, the name and the data, each
/// rounded up to a multiple of four; the lengths are read in the byte order of the block.
pub proof fn law_setup_length(header: &[u8], r: usize)
    requires
        header@.len() >= 12,
        call_ensures(x11_setup_len, (header,), r),
    ensures
        ({
            let b = header@;
            let name = if b[0] == 0x6c {
                b[6] + 256 * b[7]
            } else {
                256 * b[6] + b[7]
            };
            let data = if b[0] == 0x6c {
                b[8] + 256 * b[9]
            } else {
                256 * b[8] + b[9]
            };
            r == 12 + (name + 3) / 4 * 4 + (data + 3) / 4 * 4
        }),
{
}

/// A connection is let through if and only if its block is complete and the data in it begins
/// with the cookie that is expected; what the X server then gets is in the client's byte order
/// and carries its own cookie alone.
pub proof fn law_cookie_is_checked(
    input: &[u8],
    fake: &[u8],
    own: &[u8],
    r: Result<Vec<u8>, X11SetupError>,
)
    requires
        own@.len() <= 65535,
        call_ensures(process_x11_setup, (input, fake, own), r),
    ensures
        ({
            let b = input@;
            let from = 12 + padded(setup_u16(b, 6)) as int;
            let len = setup_u16(b, 8) as int;
            &&& r is Ok <==> {
                &&& b.len() >= 12
                &&& b.len() >= from + padded(len as nat)
                &&& fake@.len() <= len
                &&& b.subrange(from, from + fake@.len()) == fake@
            }
            &&& r matches Ok(out) ==> {
                &&& setup_cookie(out@) == own@
                &&& forall|i: int| 0 <= i < 6 ==> #[trigger] out@[i] == b[i]
            }
        }),
{
    let b = input@;
    let from = 12 + padded(setup_u16(b, 6)) as int;
    let len = setup_u16(b, 8) as int;
    if b.len() >= 12 && b.len() >= from + padded(len as nat) {
        law_rewritten_setup(b, own@);
        law_setup_keeps_header(b, own@);
        law_padding(len as nat);
        if fake@.len() <= len {
            assert(setup_cookie(b).take(fake@.len() as int) =~= b.subrange(
                from,
                from + fake@.len(),
            ));
        }
    }
}

// ---------------------------------------------------------------------------
// What displays and cookies are
// ---------------------------------------------------------------------------

/// Digits are one part, and have no dot.
proof fn lemma_number_part(n: u16, screen: Seq<char>)
    requires
        forall|i: int|
            0 <= i < screen.len() ==> screen[i] != ':' && screen[i] != '[' && screen[i] != ']',
        screen.len() == 0 || screen[0] == '.',
    ensures
        crate::forward::is_part(decimal(n as nat) + screen),
        before(decimal(n as nat) + screen, '.') == decimal(n as nat),
        port_of(decimal(n as nat)) == Some(n),
{
    let d = decimal(n as nat);
    crate::text::lemma_decimal_value(n as nat);
    crate::forward::law_ports(n as nat);
    let s = d + screen;
    assert forall|i: int| 0 <= i < s.len() implies s[i] != ':' && s[i] != '[' && s[i] != ']' by {
        if i < d.len() {
            assert(crate::text::is_digit(d[i]));
        }
    }
    crate::forward::lemma_plain_part(s);
    assert forall|i: int| 0 <= i < d.len() implies s[i] != '.' by {
        assert(crate::text::is_digit(d[i]));
    }
    crate::text::lemma_first_index_is(s, '.', d.len() as int);
    assert(s.take(d.len() as int) =~= d);
}

/// `host:number` names a display on that host, at the port 6000 and the number; `:number` and
/// `unix:number` name the local display of that number. A screen behind a dot is passed over.
pub proof fn law_display_forms(host: Seq<char>, n: u16, screen: Seq<char>)
    requires
        crate::forward::is_part(host),
        host.len() == 0 || host[0] != '/',
        forall|i: int|
            0 <= i < screen.len() ==> screen[i] != ':' && screen[i] != '[' && screen[i] != ']',
        screen.len() == 0 || screen[0] == '.',
    ensures
        ({
            let s = host + ":"@ + (decimal(n as nat) + screen);
            let local = host.len() == 0 || host == seq!['u', 'n', 'i', 'x'];
            &&& local ==> parsed_display(s) == Ok::<DisplayValue, Seq<char>>(DisplayValue::Unix(n))
                && !display_overflows(s)
            &&& !local && n > 59_535 ==> display_overflows(s)
            &&& !local && n <= 59_535 ==> parsed_display(s) == Ok::<DisplayValue, Seq<char>>(
                DisplayValue::Tcp(host, (6000 + n) as u16),
            ) && !display_overflows(s)
        }),
{
    reveal_strlit(":");
    reveal_strlit("unix");
    assert("unix"@ =~= seq!['u', 'n', 'i', 'x']);
    lemma_number_part(n, screen);
    let tail = decimal(n as nat) + screen;
    let s = host + ":"@ + tail;
    crate::forward::lemma_parts_join(host, tail);
    assert(bracket_parts(s) =~= seq![host, tail]);
    if host.len() > 0 {
        assert(s[0] == host[0]);
    } else {
        assert(s[0] == ':');
    }
}

/// A value that begins with a slash is the path of a socket.
pub proof fn law_display_path(s: Seq<char>)
    requires
        s.len() > 0,
        s[0] == '/',
    ensures
        parsed_display(s) == Ok::<DisplayValue, Seq<char>>(DisplayValue::Path(s)),
        !display_overflows(s),
{
}

/// A client reaches the display of a number where a server of that number listens: at the
/// socket in `/tmp/.X11-unix`, and on the port 6000 and the number.
pub proof fn law_display_is_reached(
    d: u16,
    display: X11Display,
    target: DisplayTarget,
    path: String,
    tcp: X11Display,
    tcp_target: DisplayTarget,
    listening: (String, String),
)
    requires
        d <= 59_535,
        display@ == DisplayValue::Unix(d),
        call_ensures(display_target, (&display,), target),
        call_ensures(x11_socket_path, (d,), path),
        tcp@ == DisplayValue::Tcp("127.0.0.1"@, (6000 + d) as u16),
        call_ensures(display_target, (&tcp,), tcp_target),
        call_ensures(x11_tcp_targets, (d,), listening),
    ensures
        target@ == DisplayTargetValue::Socket(path@),
        path@ == "/tmp/.X11-unix/X"@ + decimal(d as nat),
        tcp_target@ == DisplayTargetValue::Tcp(listening.0@),
{
    reveal_strlit("127.0.0.1");
    reveal_strlit(":");
    reveal_strlit("127.0.0.1:");
    assert("127.0.0.1"@ + ":"@ =~= "127.0.0.1:"@);
}

/// The displays 10 to 99 are tried, one after the other, and no others.
pub proof fn law_displays_tried(tried: Option<u16>, r: Option<u16>)
    requires
        call_ensures(next_display, (tried,), r),
        tried matches Some(d) ==> 10 <= d <= 99,
    ensures
        tried is None ==> r == Some(10u16),
        tried matches Some(d) ==> (r is None <==> d == 99),
        r matches Some(n) ==> 10 <= n <= 99 && (tried matches Some(d) ==> n == d + 1),
{
}

/// The display number of an entry is behind its last colon.
proof fn lemma_entry_number(name: Seq<char>, n: u16)
    ensures
        entry_display(name + ":"@ + decimal(n as nat)) == Some(n),
{
    reveal_strlit(":");
    let d = decimal(n as nat);
    let e = name + ":"@ + d;
    crate::text::lemma_decimal_value(n as nat);
    crate::forward::law_ports(n as nat);
    assert forall|i: int| name.len() < i < e.len() implies e[i] != ':' by {
        assert(e[i] == d[i - name.len() - 1]);
        assert(crate::text::is_digit(d[i - name.len() - 1]));
    }
    lemma_last_index_is(e, ':', name.len() as int);
    assert(e.skip(name.len() as int + 1) =~= d);
    assert forall|i: int| 0 <= i < d.len() implies d[i] != '/' && d[i] != '.' by {
        assert(crate::text::is_digit(d[i]));
    }
    crate::text::lemma_first_index_is(d, '/', d.len() as int);
    assert(d.take(d.len() as int) =~= d);
    crate::text::lemma_first_index_is(d, '.', d.len() as int);
}

proof fn lemma_last_index_is(s: Seq<char>, c: char, k: int)
    requires
        0 <= k < s.len(),
        s[k] == c,
        forall|i: int| k < i < s.len() ==> s[i] != c,
    ensures
        last_index(s, c) == k,
    decreases s.len(),
{
    if k < s.len() - 1 {
        assert(s[s.len() - 1] != c);
        assert forall|i: int| k < i < s.drop_last().len() implies s.drop_last()[i] != c by {
            assert(s.drop_last()[i] == s[i]);
        }
        lemma_last_index_is(s.drop_last(), c, k);
    }
}

/// An entry that `xauth list` prints for a display gives its protocol and cookie for that
/// display, and for no other.
pub proof fn law_cookie_of_entry(
    name: Seq<char>,
    n: u16,
    protocol: Seq<char>,
    cookie: Seq<u8>,
    other: u16,
)
    requires
        forall|i: int| 0 <= i < name.len() ==> !crate::text::is_white(#[trigger] name[i]),
        protocol.len() > 0,
        forall|i: int| 0 <= i < protocol.len() ==> !crate::text::is_white(#[trigger] protocol[i]),
        cookie.len() > 0,
    ensures
        ({
            let line = (name + ":"@ + decimal(n as nat)).push(' ') + (protocol.push(' ')
                + crate::hex::hex_text(cookie));
            &&& line_cookie(line, Some(n)) == Some((protocol, cookie))
            &&& other != n ==> line_cookie(line, Some(other)) is None
            &&& line_cookie(line, None) is Some <==> protocol == "MIT-MAGIC-COOKIE-1"@
        }),
{
    reveal_strlit(":");
    let entry = name + ":"@ + decimal(n as nat);
    let hex = crate::hex::hex_text(cookie);
    lemma_entry_number(name, n);
    crate::text::lemma_decimal_value(n as nat);
    assert forall|i: int| 0 <= i < entry.len() implies !crate::text::is_white(entry[i]) by {
        if i < name.len() {
            assert(entry[i] == name[i]);
        } else if i > name.len() {
            assert(entry[i] == decimal(n as nat)[i - name.len() - 1]);
            assert(crate::text::is_digit(decimal(n as nat)[i - name.len() - 1]));
        }
    }
    crate::hex::lemma_hex_chars(cookie);
    crate::hex::law_hex_round_trip(cookie);
    assert forall|i: int| 0 <= i < hex.len() implies !crate::text::is_white(hex[i]) by {
        assert(crate::hex::hex_digit(hex[i]) is Some);
    }
    let rest = protocol.push(' ') + hex;
    crate::text::lemma_words_first(entry, rest);
    crate::text::lemma_words_first(protocol, hex);
    crate::text::lemma_words_first(hex, Seq::empty());
    let line = entry.push(' ') + rest;
    assert(words(line) =~= seq![entry, protocol, hex]);
}

/// The cookie for a display is that of the first line that has one for it; only where no line
/// has, the first that a line has for the usual protocol.
pub proof fn law_first_cookie_counts(ls: Seq<Seq<char>>, num: Option<u16>, i: int)
    requires
        0 <= i < ls.len(),
        line_cookie(ls[i], num) is Some,
        forall|j: int| 0 <= j < i ==> line_cookie(#[trigger] ls[j], num) is None,
    ensures
        first_cookie(ls, num) == line_cookie(ls[i], num),
    decreases ls.len(),
{
    if i > 0 {
        assert(line_cookie(ls[0], num) is None);
        assert(ls.skip(1)[i - 1] == ls[i]);
        assert forall|j: int| 0 <= j < i - 1 implies line_cookie(#[trigger] ls.skip(1)[j], num)
            is None by {
            assert(ls.skip(1)[j] == ls[j + 1]);
        }
        law_first_cookie_counts(ls.skip(1), num, i - 1);
    }
}

/// The cookie for a display is preferred to every other.
pub proof fn law_display_cookie_first(listing: Seq<char>, num: u16)
    ensures
        first_cookie(lines(listing), Some(num)) is Some ==> cookie_for(listing, num)
            == first_cookie(lines(listing), Some(num)),
        first_cookie(lines(listing), Some(num)) is None ==> cookie_for(listing, num)
            == first_cookie(lines(listing), None),
{
}

/// The cookie for a display is looked for under the number of that display; a value that names
/// no display is refused with its message, and without a cookie there is none.
pub proof fn law_cookie_for_display(
    display: &str,
    listing: &str,
    host: Seq<char>,
    n: u16,
    r: Result<(String, Vec<u8>), String>,
)
    requires
        !display_overflows(display@),
        call_ensures(find_xauth_cookie, (display, listing), r),
    ensures
        parsed_display(display@) == Ok::<DisplayValue, Seq<char>>(DisplayValue::Unix(n)) || (n
            <= 59_535 && parsed_display(display@) == Ok::<DisplayValue, Seq<char>>(
            DisplayValue::Tcp(host, (6000 + n) as u16),
        )) ==> match cookie_for(listing@, n) {
            Some(c) => r matches Ok(x) && x.0@ == c.0 && x.1@ == c.1,
            None => r is Err,
        },
        parsed_display(display@) is Err ==> r is Err,
{
}

/// A number behind the last colon of a path is the number of its display, and a path without a
/// colon is display 0.
pub proof fn law_path_number(dir: Seq<char>, n: u16)
    ensures
        X11Display::number(DisplayValue::Path(dir + ":"@ + decimal(n as nat))) == n,
        last_index(dir, ':') < 0 ==> X11Display::number(DisplayValue::Path(dir)) == 0,
{
    reveal_strlit(":");
    let d = decimal(n as nat);
    let e = dir + ":"@ + d;
    crate::text::lemma_decimal_value(n as nat);
    crate::forward::law_ports(n as nat);
    assert forall|i: int| dir.len() < i < e.len() implies e[i] != ':' by {
        assert(e[i] == d[i - dir.len() - 1]);
        assert(crate::text::is_digit(d[i - dir.len() - 1]));
    }
    lemma_last_index_is(e, ':', dir.len() as int);
    assert(e.skip(dir.len() as int + 1) =~= d);
    assert forall|i: int| 0 <= i < d.len() implies d[i] != '.' by {
        assert(crate::text::is_digit(d[i]));
    }
    crate::text::lemma_first_index_is(d, '.', d.len() as int);
    assert(d.take(d.len() as int) =~= d);
}

/// The names under which a server keeps the cookie of its display are those of that display.
pub proof fn law_cookie_names(d: u16, r: (String, String))
    requires
        call_ensures(xauth_names, (d,), r),
    ensures
        entry_display(r.0@) == Some(d),
        entry_display(r.1@) == Some(d),
{
    reveal_strlit("localhost/unix:");
    reveal_strlit("localhost/unix");
    reveal_strlit("localhost:");
    reveal_strlit("localhost");
    reveal_strlit(":");
    assert("localhost/unix"@ + ":"@ =~= "localhost/unix:"@);
    assert("localhost"@ + ":"@ =~= "localhost:"@);
    lemma_entry_number("localhost/unix"@, d);
    lemma_entry_number("localhost"@, d);
}

} // verus!
