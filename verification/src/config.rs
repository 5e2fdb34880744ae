//! The configuration file: its settings, its default text, and how the settings that a
//! file does not mention are added to it.
use vstd::prelude::*;

use crate::text::{
    first_index, is_white, lemma_first_index, lemma_first_index_is,
    lines, lines_of, starts_with, strip_cr, strip_prefix, text_eq, texts, trim, trim_both, trim_end,
    trim_tail,
};

verus! {

/// Well-commented default configuration file.
///
/// The keys stand in it as comments, each with its default value and a brief explanation.
/// `address_family` is understood too, and has no place in it.
pub const DEFAULT_CONFIG: &'static str = r#"# etr configuration file
# All fields are optional. Uncomment and edit as needed.
# CLI flags take precedence over config file values.
# Config location: $XDG_CONFIG_HOME/etr/config.toml (~/.config/etr/config.toml)

[client]

# SSH port used for the bootstrap connection (default: 22).
# ssh_port = 22

# Path to the etrs binary on the remote host (default: "etrs", relies on PATH).
# server_path = "etrs"

# Path to the client-side log file (default: $XDG_STATE_HOME/etr/etr.log).
# Logs are only written when -v or higher is passed.
# log_path = "~/.local/state/etr/etr.log"

# Path to the server log file on the remote host (default: $XDG_STATE_HOME/etr/etrs.log).
# server_log_path = "~/.local/state/etr/etrs.log"

# When true, local forwarded ports are bound to all interfaces (0.0.0.0 and ::)
# instead of loopback only, allowing other hosts to connect (default: false).
# Equivalent to -g / --gateway-ports.
# gateway_ports = false

# Default local port forwards applied to every connection (same syntax as -L).
# forward = ["8080:localhost:80", "5353:8.8.8.8:53/udp"]

# Default remote port forwards applied to every connection (same syntax as -R).
# reverse_forward = ["9090:localhost:9090"]

# Environment variables to set or forward in the remote shell.
# "KEY=VALUE" sets the variable; "KEY" alone forwards it from the local environment.
# env = ["EDITOR", "TERM=xterm-256color"]

# Enable X11 forwarding (default: false).
# x11 = false

# Enable trusted X11 forwarding (default: false).
# x11_trusted = false

[server]

# How long (seconds) the server keeps a session alive while the client is
# disconnected (default: 1800, i.e. 30 minutes).
# Overridden by --reconnect-timeout or the ETR_SERVER_NETWORK_TMOUT env var.
# reconnect_timeout = 1800
"#;

/// The configuration file's settings. A section that the file lacks has its default.
#[derive(Debug)]
pub struct Config {
    /// The `[client]` section.
    pub client: ClientConfig,
    /// The `[server]` section.
    pub server: ServerConfig,
}

/// The `[client]` section.
#[derive(Debug)]
pub struct ClientConfig {
    /// Default SSH port for bootstrap.
    pub ssh_port: Option<u16>,
    /// Default path to etrs on the remote host.
    pub server_path: Option<String>,
    /// Default path to the client log file.
    pub log_path: Option<String>,
    /// Default path to the server log file on the remote host.
    pub server_log_path: Option<String>,
    /// Whether forwarded ports accept connections from other hosts.
    pub gateway_ports: Option<bool>,
    /// Default local port forwards.
    pub forward: Option<Vec<String>>,
    /// Default remote port forwards.
    pub reverse_forward: Option<Vec<String>>,
    /// Environment variables to set in the remote shell: "KEY=VALUE", or "KEY" alone to
    /// forward the local value.
    pub env: Option<Vec<String>>,
    /// Enable X11 forwarding.
    pub x11: Option<bool>,
    /// Enable trusted X11 forwarding.
    pub x11_trusted: Option<bool>,
    /// Which address family to try first.
    pub address_family: Option<String>,
}

/// The `[server]` section.
#[derive(Debug)]
pub struct ServerConfig {
    /// How long, in seconds, the server keeps a session while the client is away.
    pub reconnect_timeout: Option<u64>,
    /// Which address family to try first.
    pub address_family: Option<String>,
}

impl Default for ClientConfig {
    /// Nothing is set.
    fn default() -> (r: Self)
        ensures
            r == (ClientConfig {
                ssh_port: None,
                server_path: None,
                log_path: None,
                server_log_path: None,
                gateway_ports: None,
                forward: None,
                reverse_forward: None,
                env: None,
                x11: None,
                x11_trusted: None,
                address_family: None,
            }),
    {
        ClientConfig {
            ssh_port: None,
            server_path: None,
            log_path: None,
            server_log_path: None,
            gateway_ports: None,
            forward: None,
            reverse_forward: None,
            env: None,
            x11: None,
            x11_trusted: None,
            address_family: None,
        }
    }
}

impl Default for ServerConfig {
    /// Nothing is set.
    fn default() -> (r: Self)
        ensures
            r == (ServerConfig { reconnect_timeout: None, address_family: None }),
    {
        ServerConfig { reconnect_timeout: None, address_family: None }
    }
}

impl Default for Config {
    /// Nothing is set.
    fn default() -> (r: Self)
        ensures
            call_ensures(ClientConfig::default, (), r.client),
            call_ensures(ServerConfig::default, (), r.server),
    {
        Config { client: ClientConfig::default(), server: ServerConfig::default() }
    }
}

// ---------------------------------------------------------------------------
// Keys and their comment blocks
// ---------------------------------------------------------------------------

/// A key, and the commented lines that introduce it with its default value.
#[derive(Debug)]
pub struct KeyBlock {
    /// The key.
    pub key: &'static str,
    /// The lines, the last of which is the commented-out setting.
    pub lines: Vec<&'static str>,
}

/// The texts that a sequence of string slices holds.
pub open spec fn slices(v: Seq<&'static str>) -> Seq<Seq<char>> {
    v.map_values(|s: &'static str| s@)
}

impl KeyBlock {
    /// The key and the lines.
    pub open spec fn view(self) -> (Seq<char>, Seq<Seq<char>>) {
        (self.key@, slices(self.lines@))
    }
}

/// The keys and lines of a sequence of blocks.
pub open spec fn blocks(v: Seq<KeyBlock>) -> Seq<(Seq<char>, Seq<Seq<char>>)> {
    v.map_values(|b: KeyBlock| b@)
}

/// The blocks of the `[client]` section.
pub open spec fn client_blocks() -> Seq<(Seq<char>, Seq<Seq<char>>)> {
    seq![
        (
            "ssh_port"@,
            seq![
                "# SSH port used for the bootstrap connection (default: 22)."@,
                "# ssh_port = 22"@,
            ],
        ),
        (
            "server_path"@,
            seq![
                "# Path to the etrs binary on the remote host (default: \"etrs\", relies on PATH)."@,
                "# server_path = \"etrs\""@,
            ],
        ),
        (
            "log_path"@,
            seq![
                "# Path to the client-side log file (default: $XDG_STATE_HOME/etr/etr.log)."@,
                "# Logs are only written when -v or higher is passed."@,
                "# log_path = \"~/.local/state/etr/etr.log\""@,
            ],
        ),
        (
            "server_log_path"@,
            seq![
                "# Path to the server log file on the remote host (default: $XDG_STATE_HOME/etr/etrs.log)."@,
                "# server_log_path = \"~/.local/state/etr/etrs.log\""@,
            ],
        ),
        (
            "gateway_ports"@,
            seq![
                "# When true, local forwarded ports are bound to all interfaces (0.0.0.0 and ::)"@,
                "# instead of loopback only, allowing other hosts to connect (default: false)."@,
                "# gateway_ports = false"@,
            ],
        ),
        (
            "forward"@,
            seq![
                "# Default local port forwards applied to every connection (same syntax as -L)."@,
                "# forward = [\"8080:localhost:80\", \"5353:8.8.8.8:53/udp\"]"@,
            ],
        ),
        (
            "reverse_forward"@,
            seq![
                "# Default remote port forwards applied to every connection (same syntax as -R)."@,
                "# reverse_forward = [\"9090:localhost:9090\"]"@,
            ],
        ),
        (
            "env"@,
            seq![
                "# Environment variables to set or forward in the remote shell."@,
                "# \"KEY=VALUE\" sets the variable; \"KEY\" alone forwards it from the local environment."@,
                "# env = [\"EDITOR\", \"TERM=xterm-256color\"]"@,
            ],
        ),
        ("x11"@, seq!["# Enable X11 forwarding (default: false)."@, "# x11 = false"@]),
        (
            "x11_trusted"@,
            seq!["# Enable trusted X11 forwarding (default: false)."@, "# x11_trusted = false"@],
        ),
    ]
}

/// The blocks of the `[server]` section.
pub open spec fn server_blocks() -> Seq<(Seq<char>, Seq<Seq<char>>)> {
    seq![
        (
            "reconnect_timeout"@,
            seq![
                "# How long (seconds) the server keeps a session alive while the client is"@,
                "# disconnected (default: 1800, i.e. 30 minutes)."@,
                "# reconnect_timeout = 1800"@,
            ],
        ),
    ]
}

/// The blocks of the `[client]` section.
pub fn client_key_blocks() -> (r: Vec<KeyBlock>)
    ensures
        blocks(r@) == client_blocks(),
{
    let r: Vec<KeyBlock> = vec![
        KeyBlock {
            key: "ssh_port",
            lines: vec![
                "# SSH port used for the bootstrap connection (default: 22).",
                "# ssh_port = 22",
            ],
        },
        KeyBlock {
            key: "server_path",
            lines: vec![
                "# Path to the etrs binary on the remote host (default: \"etrs\", relies on PATH).",
                "# server_path = \"etrs\"",
            ],
        },
        KeyBlock {
            key: "log_path",
            lines: vec![
                "# Path to the client-side log file (default: $XDG_STATE_HOME/etr/etr.log).",
                "# Logs are only written when -v or higher is passed.",
                "# log_path = \"~/.local/state/etr/etr.log\"",
            ],
        },
        KeyBlock {
            key: "server_log_path",
            lines: vec![
                "# Path to the server log file on the remote host (default: $XDG_STATE_HOME/etr/etrs.log).",
                "# server_log_path = \"~/.local/state/etr/etrs.log\"",
            ],
        },
        KeyBlock {
            key: "gateway_ports",
            lines: vec![
                "# When true, local forwarded ports are bound to all interfaces (0.0.0.0 and ::)",
                "# instead of loopback only, allowing other hosts to connect (default: false).",
                "# gateway_ports = false",
            ],
        },
        KeyBlock {
            key: "forward",
            lines: vec![
                "# Default local port forwards applied to every connection (same syntax as -L).",
                "# forward = [\"8080:localhost:80\", \"5353:8.8.8.8:53/udp\"]",
            ],
        },
        KeyBlock {
            key: "reverse_forward",
            lines: vec![
                "# Default remote port forwards applied to every connection (same syntax as -R).",
                "# reverse_forward = [\"9090:localhost:9090\"]",
            ],
        },
        KeyBlock {
            key: "env",
            lines: vec![
                "# Environment variables to set or forward in the remote shell.",
                "# \"KEY=VALUE\" sets the variable; \"KEY\" alone forwards it from the local environment.",
                "# env = [\"EDITOR\", \"TERM=xterm-256color\"]",
            ],
        },
        KeyBlock {
            key: "x11",
            lines: vec!["# Enable X11 forwarding (default: false).", "# x11 = false"],
        },
        KeyBlock {
            key: "x11_trusted",
            lines: vec![
                "# Enable trusted X11 forwarding (default: false).",
                "# x11_trusted = false",
            ],
        },
    ];
    assert forall|i: int| 0 <= i < r@.len() implies r@[i]@ == client_blocks()[i] by {
        assert(r@[i]@.1 =~= client_blocks()[i].1);
    }
    assert(blocks(r@) =~= client_blocks());
    r
}

/// The blocks of the `[server]` section.
pub fn server_key_blocks() -> (r: Vec<KeyBlock>)
    ensures
        blocks(r@) == server_blocks(),
{
    let r: Vec<KeyBlock> = vec![
        KeyBlock {
            key: "reconnect_timeout",
            lines: vec![
                "# How long (seconds) the server keeps a session alive while the client is",
                "# disconnected (default: 1800, i.e. 30 minutes).",
                "# reconnect_timeout = 1800",
            ],
        },
    ];
    assert forall|i: int| 0 <= i < r@.len() implies r@[i]@ == server_blocks()[i] by {
        assert(r@[i]@.1 =~= server_blocks()[i].1);
    }
    assert(blocks(r@) =~= server_blocks());
    r
}

/// `line` without a leading comment sign and the white space around it.
pub open spec fn uncommented(line: Seq<char>) -> Seq<char> {
    let t = trim(line);
    if t.len() > 0 && t[0] == '#' {
        trim(t.skip(1))
    } else {
        t
    }
}

/// Whether `line` sets `key`, or would if it were not commented out.
pub open spec fn is_key_line(line: Seq<char>, key: Seq<char>) -> bool {
    let u = uncommented(line);
    starts_with(u, key) && {
        let rest = trim(u.skip(key.len() as int));
        rest.len() > 0 && rest[0] == '='
    }
}

/// Whether one of `ls` mentions `key`.
pub open spec fn mentions(ls: Seq<Seq<char>>, key: Seq<char>) -> bool {
    exists|i: int| 0 <= i < ls.len() && is_key_line(#[trigger] ls[i], key)
}

/// Whether `content` has a line, active or commented out, of the form `key = ...`.
pub fn contains_key_line(content: &str, key: &str) -> (r: bool)
    ensures
        r == mentions(lines(content@), key@),
{
    let ls = lines_of(content);
    for i in 0..ls.len()
        invariant
            texts(ls@) == lines(content@),
            forall|j: int| 0 <= j < i ==> !is_key_line(#[trigger] lines(content@)[j], key@),
    {
        let line = &ls[i];
        assert(lines(content@)[i as int] == line@);
        let trimmed = trim_both(line.as_str());
        let uncommented = match strip_prefix(trimmed, "#") {
            Some(rest) => {
                proof {
                    reveal_strlit("#");
                    assert(trimmed@.take(1)[0] == trimmed@[0]);
                }
                trim_both(rest)
            },
            None => {
                proof {
                    reveal_strlit("#");
                    if trimmed@.len() > 0 && trimmed@[0] == '#' {
                        assert(trimmed@.take(1) =~= "#"@);
                    }
                }
                trimmed
            },
        };
        if let Some(rest) = strip_prefix(uncommented, key) {
            let rest = trim_both(rest);
            if rest.unicode_len() > 0 && rest.get_char(0) == '=' {
                return true;
            }
        }
    }
    false
}

// ---------------------------------------------------------------------------
// Adding what is missing
// ---------------------------------------------------------------------------

/// The blocks of `bs` whose key none of `ls` mentions.
pub open spec fn missing(
    bs: Seq<(Seq<char>, Seq<Seq<char>>)>,
    ls: Seq<Seq<char>>,
) -> Seq<(Seq<char>, Seq<Seq<char>>)>
    decreases bs.len(),
{
    if bs.len() == 0 {
        Seq::empty()
    } else if mentions(ls, bs.last().0) {
        missing(bs.drop_last(), ls)
    } else {
        missing(bs.drop_last(), ls).push(bs.last())
    }
}

/// The keys of `bs`.
pub open spec fn keys(bs: Seq<(Seq<char>, Seq<Seq<char>>)>) -> Seq<Seq<char>> {
    bs.map_values(|b: (Seq<char>, Seq<Seq<char>>)| b.0)
}

/// The lines of `bs`, block after block.
pub open spec fn block_lines(bs: Seq<(Seq<char>, Seq<Seq<char>>)>) -> Seq<Seq<char>>
    decreases bs.len(),
{
    if bs.len() == 0 {
        Seq::empty()
    } else {
        block_lines(bs.drop_last()) + bs.last().1
    }
}

/// Whether `line` is the section header `header`, white space around it aside.
pub open spec fn is_header(line: Seq<char>, header: Seq<char>) -> bool {
    trim(line) == header
}

/// Whether one of `ls` is the section header `header`.
pub open spec fn has_header(ls: Seq<Seq<char>>, header: Seq<char>) -> bool {
    exists|i: int| 0 <= i < ls.len() && is_header(#[trigger] ls[i], header)
}

/// `line`, followed by the lines that belong after it where it is a section header.
pub open spec fn with_block(
    line: Seq<char>,
    client: Seq<Seq<char>>,
    server: Seq<Seq<char>>,
) -> Seq<Seq<char>> {
    seq![line] + (if is_header(line, "[client]"@) {
        client
    } else if is_header(line, "[server]"@) {
        server
    } else {
        Seq::empty()
    })
}

/// `ls`, with `client` after each `[client]` header and `server` after each `[server]`
/// header.
pub open spec fn with_blocks(
    ls: Seq<Seq<char>>,
    client: Seq<Seq<char>>,
    server: Seq<Seq<char>>,
) -> Seq<Seq<char>>
    decreases ls.len(),
{
    if ls.len() == 0 {
        Seq::empty()
    } else {
        with_blocks(ls.drop_last(), client, server) + with_block(ls.last(), client, server)
    }
}

/// `ls`, with a new section at the end, set off by an empty line.
pub open spec fn with_section(
    ls: Seq<Seq<char>>,
    header: Seq<char>,
    body: Seq<Seq<char>>,
) -> Seq<Seq<char>> {
    (if ls.len() == 0 {
        ls
    } else {
        ls.push(Seq::empty())
    }).push(header) + body
}

/// `ls` with the lines `client` and `server` in the sections they belong to: after the
/// header where there is one, in a new section at the end otherwise.
pub open spec fn merged_lines(
    ls: Seq<Seq<char>>,
    client: Seq<Seq<char>>,
    server: Seq<Seq<char>>,
) -> Seq<Seq<char>> {
    let a = with_blocks(ls, client, server);
    let b = if client.len() > 0 && !has_header(ls, "[client]"@) {
        with_section(a, "[client]"@, client)
    } else {
        a
    };
    if server.len() > 0 && !has_header(ls, "[server]"@) {
        with_section(b, "[server]"@, server)
    } else {
        b
    }
}

/// The text made of `ls`, each ended by a line feed.
pub open spec fn unlines(ls: Seq<Seq<char>>) -> Seq<char>
    decreases ls.len(),
{
    if ls.len() == 0 {
        Seq::empty()
    } else {
        unlines(ls.drop_last()) + ls.last().push('\n')
    }
}

/// `content` with the white space at its end replaced by one line feed; empty where
/// nothing else is left.
pub open spec fn tidied(content: Seq<char>) -> Seq<char> {
    let t = trim_end(content);
    if t.len() == 0 {
        t
    } else {
        t.push('\n')
    }
}

/// The keys that `content` does not mention: those of the client section, then those of
/// the server section.
pub open spec fn missing_keys(content: Seq<char>) -> Seq<Seq<char>> {
    keys(missing(client_blocks(), lines(content))) + keys(missing(server_blocks(), lines(content)))
}

/// `content` with a commented block for each key that it does not mention.
pub open spec fn merged(content: Seq<char>) -> Seq<char> {
    if missing_keys(content).len() == 0 {
        tidied(content)
    } else {
        unlines(
            merged_lines(
                lines(content),
                block_lines(missing(client_blocks(), lines(content))),
                block_lines(missing(server_blocks(), lines(content))),
            ),
        )
    }
}

/// The blocks of `all` whose key `existing` does not mention.
fn missing_blocks(existing: &str, all: Vec<KeyBlock>) -> (r: Vec<KeyBlock>)
    ensures
        blocks(r@) == missing(blocks(all@), lines(existing@)),
{
    let mut r: Vec<KeyBlock> = Vec::new();
    assert(blocks(all@).take(0) =~= Seq::empty());
    assert(blocks(r@) =~= Seq::empty());
    for i in 0..all.len()
        invariant
            blocks(r@) == missing(blocks(all@).take(i as int), lines(existing@)),
    {
        let b = &all[i];
        let ghost upto = blocks(all@).take(i + 1);
        assert(upto.last() == b@);
        assert(upto.drop_last() =~= blocks(all@).take(i as int));
        if !contains_key_line(existing, b.key) {
            let copy = KeyBlock { key: b.key, lines: copy_slices(&b.lines) };
            assert(blocks(r@.push(copy)) =~= blocks(r@).push(copy@));
            r.push(copy);
        }
    }
    assert(blocks(all@).take(all@.len() as int) =~= blocks(all@));
    r
}

/// A copy of `v`.
fn copy_slices(v: &Vec<&'static str>) -> (r: Vec<&'static str>)
    ensures
        r@ == v@,
{
    let mut r: Vec<&'static str> = Vec::new();
    for i in 0..v.len()
        invariant
            r@ == v@.take(i as int),
    {
        r.push(v[i]);
    }
    assert(v@.take(v@.len() as int) =~= v@);
    r
}

/// Appends the lines of `bs` to `out`.
fn push_blocks(out: &mut Vec<String>, bs: &Vec<KeyBlock>)
    ensures
        texts(final(out)@) == texts(old(out)@) + block_lines(blocks(bs@)),
{
    assert(blocks(bs@).take(0) =~= Seq::empty());
    assert(texts(out@) + Seq::empty() =~= texts(out@));
    for i in 0..bs.len()
        invariant
            texts(out@) == texts(old(out)@) + block_lines(blocks(bs@).take(i as int)),
    {
        let b = &bs[i];
        let ghost upto = blocks(bs@).take(i + 1);
        let ghost start = texts(out@);
        assert(upto.last() == b@);
        assert(upto.drop_last() =~= blocks(bs@).take(i as int));
        for j in 0..b.lines.len()
            invariant
                texts(out@) == start + slices(b.lines@).take(j as int),
        {
            let ghost prev = out@;
            let line = b.lines[j].to_owned();
            out.push(line);
            assert(texts(out@) =~= texts(prev).push(line@));
            assert(slices(b.lines@).take(j + 1) =~= slices(b.lines@).take(j as int).push(line@));
            assert(texts(out@) =~= start + slices(b.lines@).take(j + 1));
        }
        assert(slices(b.lines@).take(b.lines@.len() as int) =~= slices(b.lines@));
        assert(texts(old(out)@) + block_lines(upto.drop_last()) + upto.last().1 =~= texts(old(out)@)
            + (block_lines(upto.drop_last()) + upto.last().1));
    }
    assert(blocks(bs@).take(bs@.len() as int) =~= blocks(bs@));
}

/// Appends a new section to `out`.
fn push_section(out: &mut Vec<String>, header: &str, bs: &Vec<KeyBlock>)
    ensures
        texts(final(out)@) == with_section(texts(old(out)@), header@, block_lines(blocks(bs@))),
{
    if out.len() > 0 {
        out.push(String::new());
        assert(texts(out@) =~= texts(old(out)@).push(Seq::empty()));
    }
    let ghost start = texts(out@);
    out.push(header.to_owned());
    assert(texts(out@) =~= start.push(header@));
    push_blocks(out, bs);
}

/// The text made of `ls`, each ended by a line feed.
fn join_lines(ls: &Vec<String>) -> (r: String)
    ensures
        r@ == unlines(texts(ls@)),
{
    let mut r: String = String::new();
    assert(texts(ls@).take(0) =~= Seq::empty());
    for i in 0..ls.len()
        invariant
            r@ == unlines(texts(ls@).take(i as int)),
    {
        let ghost upto = texts(ls@).take(i + 1);
        assert(upto.drop_last() =~= texts(ls@).take(i as int));
        let ghost start = r@;
        r.append(ls[i].as_str());
        r.push('\n');
        assert(r@ =~= start + upto.last().push('\n'));
    }
    assert(texts(ls@).take(ls@.len() as int) =~= texts(ls@));
    r
}

/// The keys of `bs`, appended to `out`.
fn push_keys(out: &mut Vec<&'static str>, bs: &Vec<KeyBlock>)
    ensures
        slices(final(out)@) == slices(old(out)@) + keys(blocks(bs@)),
{
    for i in 0..bs.len()
        invariant
            slices(out@) == slices(old(out)@) + keys(blocks(bs@)).take(i as int),
    {
        let ghost prev = out@;
        out.push(bs[i].key);
        assert(slices(out@) =~= slices(prev).push(bs@[i as int].key@));
        assert(keys(blocks(bs@)).take(i + 1) =~= keys(blocks(bs@)).take(i as int).push(
            bs@[i as int].key@,
        ));
        assert(slices(out@) =~= slices(old(out)@) + keys(blocks(bs@)).take(i + 1));
    }
    assert(keys(blocks(bs@)).take(bs@.len() as int) =~= keys(blocks(bs@)));
}

/// Adds a commented block for each configuration key that `existing` does not mention.
///
/// A key counts as mentioned if a line, after a leading `#` and white space, begins with
/// `key =`; settings that are commented out count too, so merging twice adds nothing.
/// A block goes right after the header of its section, or into a new section at the end
/// of the file where there is no such header, so no header is ever doubled.
///
/// Returns the new text and the keys that were added.
pub fn merge_defaults(existing: &str) -> (r: (String, Vec<&'static str>))
    ensures
        r.0@ == merged(existing@),
        slices(r.1@) == missing_keys(existing@),
{
    let missing_client = missing_blocks(existing, client_key_blocks());
    let missing_server = missing_blocks(existing, server_key_blocks());
    let ghost ls = lines(existing@);
    let ghost client = block_lines(blocks(missing_client@));
    let ghost server = block_lines(blocks(missing_server@));

    let mut additions: Vec<&'static str> = Vec::new();
    push_keys(&mut additions, &missing_client);
    push_keys(&mut additions, &missing_server);
    assert(slices(additions@) =~= missing_keys(existing@));

    if additions.len() == 0 {
        let mut s = trim_tail(existing).to_owned();
        if s.as_str().unicode_len() > 0 {
            s.push('\n');
        }
        return (s, additions);
    }
    let existing_lines = lines_of(existing);
    let mut out: Vec<String> = Vec::new();
    let mut client_seen: bool = false;
    let mut server_seen: bool = false;
    assert(ls.take(0) =~= Seq::empty());
    assert(texts(out@) =~= Seq::empty());
    for i in 0..existing_lines.len()
        invariant
            ls == lines(existing@),
            texts(existing_lines@) == ls,
            client == block_lines(blocks(missing_client@)),
            server == block_lines(blocks(missing_server@)),
            texts(out@) == with_blocks(ls.take(i as int), client, server),
            client_seen == has_header(ls.take(i as int), "[client]"@),
            server_seen == has_header(ls.take(i as int), "[server]"@),
    {
        let line = existing_lines[i].as_str();
        let ghost start = texts(out@);
        let ghost upto = ls.take(i + 1);
        proof {
            assert(line@ == ls[i as int]);
            assert(upto.drop_last() =~= ls.take(i as int));
            assert(upto.last() == line@);
            lemma_has_header_push(ls.take(i as int), line@, "[client]"@);
            lemma_has_header_push(ls.take(i as int), line@, "[server]"@);
            assert(ls.take(i as int).push(line@) =~= upto);
            reveal_strlit("[client]");
            reveal_strlit("[server]");
            assert("[client]"@[1] != "[server]"@[1]);
        }
        let trimmed = trim_both(line);
        out.push(line.to_owned());
        assert(texts(out@) =~= start + seq![line@]);
        if text_eq(trimmed, "[client]") {
            push_blocks(&mut out, &missing_client);
            client_seen = true;
        } else if text_eq(trimmed, "[server]") {
            push_blocks(&mut out, &missing_server);
            server_seen = true;
        }
        assert(texts(out@) =~= start + with_block(line@, client, server));
    }
    assert(ls.take(existing_lines@.len() as int) =~= ls);
    proof {
        lemma_block_lines_empty(blocks(missing_client@));
        lemma_block_lines_empty(blocks(missing_server@));
        lemma_client_blocks();
        lemma_server_blocks();
        lemma_missing(client_blocks(), ls);
        lemma_missing(server_blocks(), ls);
    }
    if missing_client.len() > 0 && !client_seen {
        push_section(&mut out, "[client]", &missing_client);
    }
    if missing_server.len() > 0 && !server_seen {
        push_section(&mut out, "[server]", &missing_server);
    }
    (join_lines(&out), additions)
}

// ---------------------------------------------------------------------------
// What holds of the merge
// ---------------------------------------------------------------------------

/// A block as the default blocks are: lines that begin with a comment sign and hold no
/// line feed or carriage return, the last of which mentions the key.
pub open spec fn wf_block(b: (Seq<char>, Seq<Seq<char>>)) -> bool {
    &&& b.1.len() > 0
    &&& is_key_line(b.1.last(), b.0)
    &&& forall|i: int| 0 <= i < b.1.len() ==> comment_line(#[trigger] b.1[i])
}

/// Whether `line` begins with a comment sign, ends in something other than white space
/// and holds no line feed.
pub open spec fn comment_line(line: Seq<char>) -> bool {
    &&& line.len() > 0
    &&& line[0] == '#'
    &&& !is_white(line.last())
    &&& forall|i: int| 0 <= i < line.len() ==> line[i] != '\n'
}

/// A line of the form `# key = value` mentions `key`.
proof fn lemma_setting_line(key: Seq<char>, line: Seq<char>)
    requires
        key.len() > 0,
        line.len() > key.len() + 4,
        line[0] == '#',
        line[1] == ' ',
        line.subrange(2, 2 + key.len() as int) =~= key,
        line[2 + key.len() as int] == ' ',
        line[3 + key.len() as int] == '=',
        !is_white(key[0]),
        !is_white(line.last()),
    ensures
        is_key_line(line, key),
{
    assert(trim(line) == line);
    let t = line.skip(1);
    assert(t.skip(1)[0] == key[0]);
    assert(t.skip(1).last() == line.last());
    assert(crate::text::trim_start(t.skip(1)) == t.skip(1));
    assert(crate::text::trim_start(t) == t.skip(1));
    let u = t.skip(1);
    assert(uncommented(line) == u);
    assert(u.take(key.len() as int) =~= key);
    let rest = u.skip(key.len() as int);
    assert(rest[0] == ' ');
    assert(rest.skip(1)[0] == '=');
    assert(rest.skip(1).last() == line.last());
    assert(crate::text::trim_start(rest.skip(1)) == rest.skip(1));
    assert(crate::text::trim_start(rest) == rest.skip(1));
    assert(trim(rest) == rest.skip(1));
}

/// `has_header` of lines that have grown by one.
proof fn lemma_has_header_push(ls: Seq<Seq<char>>, line: Seq<char>, header: Seq<char>)
    ensures
        has_header(ls.push(line), header) == (has_header(ls, header) || is_header(line, header)),
{
    let all = ls.push(line);
    if has_header(ls, header) {
        let i = choose|i: int| 0 <= i < ls.len() && is_header(#[trigger] ls[i], header);
        assert(is_header(all[i], header));
    }
    if is_header(line, header) {
        assert(is_header(all[ls.len() as int], header));
    }
}

/// Well-formed blocks have lines if and only if there are blocks.
proof fn lemma_block_lines_empty(bs: Seq<(Seq<char>, Seq<Seq<char>>)>)
    ensures
        bs.len() == 0 ==> block_lines(bs).len() == 0,
        (bs.len() > 0 && bs.last().1.len() > 0) ==> block_lines(bs).len() > 0,
{
}

/// The missing blocks are blocks of the list, each with a key that is not mentioned.
proof fn lemma_missing(bs: Seq<(Seq<char>, Seq<Seq<char>>)>, ls: Seq<Seq<char>>)
    requires
        forall|i: int| 0 <= i < bs.len() ==> wf_block(#[trigger] bs[i]),
    ensures
        forall|i: int|
            0 <= i < missing(bs, ls).len() ==> wf_block(#[trigger] missing(bs, ls)[i]),
        missing(bs, ls).len() > 0 ==> block_lines(missing(bs, ls)).len() > 0,
    decreases bs.len(),
{
    if bs.len() > 0 {
        assert forall|i: int| 0 <= i < bs.drop_last().len() implies wf_block(
            #[trigger] bs.drop_last()[i],
        ) by {
            assert(bs.drop_last()[i] == bs[i]);
        }
        lemma_missing(bs.drop_last(), ls);
    }
    let m = missing(bs, ls);
    if m.len() > 0 {
        assert(wf_block(m[m.len() - 1]));
    }
}

/// What the blocks of the client section hold: comment lines, the last of which mentions the key.
proof fn lemma_client_blocks()
    ensures
        forall|i: int| 0 <= i < client_blocks().len() ==> wf_block(#[trigger] client_blocks()[i]),
{
    assert(wf_block(
        (
            "ssh_port"@,
            seq![
                "# SSH port used for the bootstrap connection (default: 22)."@,
                "# ssh_port = 22"@,
            ],
        ),
    )) by {
        reveal_strlit("ssh_port");
        reveal_strlit("# SSH port used for the bootstrap connection (default: 22).");
        reveal_strlit("# ssh_port = 22");
        lemma_setting_line("ssh_port"@, "# ssh_port = 22"@);
    }
    assert(wf_block(
        (
            "server_path"@,
            seq![
                "# Path to the etrs binary on the remote host (default: \"etrs\", relies on PATH)."@,
                "# server_path = \"etrs\""@,
            ],
        ),
    )) by {
        reveal_strlit("server_path");
        reveal_strlit("# Path to the etrs binary on the remote host (default: \"etrs\", relies on PATH).");
        reveal_strlit("# server_path = \"etrs\"");
        lemma_setting_line("server_path"@, "# server_path = \"etrs\""@);
    }
    assert(wf_block(
        (
            "log_path"@,
            seq![
                "# Path to the client-side log file (default: $XDG_STATE_HOME/etr/etr.log)."@,
                "# Logs are only written when -v or higher is passed."@,
                "# log_path = \"~/.local/state/etr/etr.log\""@,
            ],
        ),
    )) by {
        reveal_strlit("log_path");
        reveal_strlit("# Path to the client-side log file (default: $XDG_STATE_HOME/etr/etr.log).");
        reveal_strlit("# Logs are only written when -v or higher is passed.");
        reveal_strlit("# log_path = \"~/.local/state/etr/etr.log\"");
        lemma_setting_line("log_path"@, "# log_path = \"~/.local/state/etr/etr.log\""@);
    }
    assert(wf_block(
        (
            "server_log_path"@,
            seq![
                "# Path to the server log file on the remote host (default: $XDG_STATE_HOME/etr/etrs.log)."@,
                "# server_log_path = \"~/.local/state/etr/etrs.log\""@,
            ],
        ),
    )) by {
        reveal_strlit("server_log_path");
        reveal_strlit("# Path to the server log file on the remote host (default: $XDG_STATE_HOME/etr/etrs.log).");
        reveal_strlit("# server_log_path = \"~/.local/state/etr/etrs.log\"");
        lemma_setting_line("server_log_path"@, "# server_log_path = \"~/.local/state/etr/etrs.log\""@);
    }
    assert(wf_block(
        (
            "gateway_ports"@,
            seq![
                "# When true, local forwarded ports are bound to all interfaces (0.0.0.0 and ::)"@,
                "# instead of loopback only, allowing other hosts to connect (default: false)."@,
                "# gateway_ports = false"@,
            ],
        ),
    )) by {
        reveal_strlit("gateway_ports");
        reveal_strlit("# When true, local forwarded ports are bound to all interfaces (0.0.0.0 and ::)");
        reveal_strlit("# instead of loopback only, allowing other hosts to connect (default: false).");
        reveal_strlit("# gateway_ports = false");
        lemma_setting_line("gateway_ports"@, "# gateway_ports = false"@);
    }
    assert(wf_block(
        (
            "forward"@,
            seq![
                "# Default local port forwards applied to every connection (same syntax as -L)."@,
                "# forward = [\"8080:localhost:80\", \"5353:8.8.8.8:53/udp\"]"@,
            ],
        ),
    )) by {
        reveal_strlit("forward");
        reveal_strlit("# Default local port forwards applied to every connection (same syntax as -L).");
        reveal_strlit("# forward = [\"8080:localhost:80\", \"5353:8.8.8.8:53/udp\"]");
        lemma_setting_line("forward"@, "# forward = [\"8080:localhost:80\", \"5353:8.8.8.8:53/udp\"]"@);
    }
    assert(wf_block(
        (
            "reverse_forward"@,
            seq![
                "# Default remote port forwards applied to every connection (same syntax as -R)."@,
                "# reverse_forward = [\"9090:localhost:9090\"]"@,
            ],
        ),
    )) by {
        reveal_strlit("reverse_forward");
        reveal_strlit("# Default remote port forwards applied to every connection (same syntax as -R).");
        reveal_strlit("# reverse_forward = [\"9090:localhost:9090\"]");
        lemma_setting_line("reverse_forward"@, "# reverse_forward = [\"9090:localhost:9090\"]"@);
    }
    assert(wf_block(
        (
            "env"@,
            seq![
                "# Environment variables to set or forward in the remote shell."@,
                "# \"KEY=VALUE\" sets the variable; \"KEY\" alone forwards it from the local environment."@,
                "# env = [\"EDITOR\", \"TERM=xterm-256color\"]"@,
            ],
        ),
    )) by {
        reveal_strlit("env");
        reveal_strlit("# Environment variables to set or forward in the remote shell.");
        reveal_strlit("# \"KEY=VALUE\" sets the variable; \"KEY\" alone forwards it from the local environment.");
        reveal_strlit("# env = [\"EDITOR\", \"TERM=xterm-256color\"]");
        lemma_setting_line("env"@, "# env = [\"EDITOR\", \"TERM=xterm-256color\"]"@);
    }
    assert(wf_block(
        (
            "x11"@,
            seq!["# Enable X11 forwarding (default: false)."@, "# x11 = false"@],
        ),
    )) by {
        reveal_strlit("x11");
        reveal_strlit("# Enable X11 forwarding (default: false).");
        reveal_strlit("# x11 = false");
        lemma_setting_line("x11"@, "# x11 = false"@);
    }
    assert(wf_block(
        (
            "x11_trusted"@,
            seq!["# Enable trusted X11 forwarding (default: false)."@, "# x11_trusted = false"@],
        ),
    )) by {
        reveal_strlit("x11_trusted");
        reveal_strlit("# Enable trusted X11 forwarding (default: false).");
        reveal_strlit("# x11_trusted = false");
        lemma_setting_line("x11_trusted"@, "# x11_trusted = false"@);
    }
}

/// What the blocks of the server section hold: comment lines, the last of which mentions the key.
proof fn lemma_server_blocks()
    ensures
        forall|i: int| 0 <= i < server_blocks().len() ==> wf_block(#[trigger] server_blocks()[i]),
{
    assert(wf_block(
        (
            "reconnect_timeout"@,
            seq![
                "# How long (seconds) the server keeps a session alive while the client is"@,
                "# disconnected (default: 1800, i.e. 30 minutes)."@,
                "# reconnect_timeout = 1800"@,
            ],
        ),
    )) by {
        reveal_strlit("reconnect_timeout");
        reveal_strlit("# How long (seconds) the server keeps a session alive while the client is");
        reveal_strlit("# disconnected (default: 1800, i.e. 30 minutes).");
        reveal_strlit("# reconnect_timeout = 1800");
        lemma_setting_line("reconnect_timeout"@, "# reconnect_timeout = 1800"@);
    }
}

/// Text that ends in a line feed, or is empty, may be cut off before the rest without
/// changing the lines.
proof fn lemma_lines_concat(a: Seq<char>, b: Seq<char>)
    requires
        a.len() == 0 || a.last() == '\n',
    ensures
        lines(a + b) == lines(a) + lines(b),
    decreases a.len(),
{
    if a.len() == 0 {
        assert(a + b =~= b);
        assert(lines(a) + lines(b) =~= lines(b));
    } else {
        lemma_first_index(a, '\n');
        let k = first_index(a, '\n') as int;
        if k == a.len() {
            assert(a[a.len() - 1] != '\n');
        }
        let s = a + b;
        assert forall|i: int| 0 <= i < k implies s[i] != '\n' by {
            assert(s[i] == a[i]);
        }
        lemma_first_index_is(s, '\n', k);
        assert(s.take(k) =~= a.take(k));
        assert(s.skip(k + 1) =~= a.skip(k + 1) + b);
        if k + 1 < a.len() {
            assert(a.skip(k + 1).last() == a.last());
        }
        lemma_lines_concat(a.skip(k + 1), b);
        let head = seq![strip_cr(a.take(k))];
        assert(head + (lines(a.skip(k + 1)) + lines(b)) =~= (head + lines(a.skip(k + 1))) + lines(
            b,
        ));
    }
}

/// A line of text holds no line feed.
proof fn lemma_lines_no_newline(s: Seq<char>)
    ensures
        forall|i: int, j: int|
            0 <= i < lines(s).len() && 0 <= j < lines(s)[i].len() ==> #[trigger] lines(s)[i][j]
                != '\n',
    decreases s.len(),
{
    if s.len() > 0 {
        lemma_first_index(s, '\n');
        let k = first_index(s, '\n') as int;
        if k < s.len() {
            lemma_lines_no_newline(s.skip(k + 1));
            assert forall|i: int, j: int|
                0 <= i < lines(s).len() && 0 <= j < lines(s)[i].len() implies #[trigger] lines(
                s,
            )[i][j] != '\n' by {
                if i == 0 {
                    assert(lines(s)[0] == strip_cr(s.take(k)));
                    assert(lines(s)[0][j] == s[j]);
                } else {
                    assert(lines(s)[i] == lines(s.skip(k + 1))[i - 1]);
                }
            }
        }
    }
}

/// `ls`, each without the carriage return at its end.
pub open spec fn strip_crs(ls: Seq<Seq<char>>) -> Seq<Seq<char>> {
    ls.map_values(|l: Seq<char>| strip_cr(l))
}

/// Joined lines come apart into the same lines, but for a carriage return at the end of
/// one.
proof fn lemma_lines_unlines(ls: Seq<Seq<char>>)
    requires
        forall|i: int, j: int|
            0 <= i < ls.len() && 0 <= j < ls[i].len() ==> #[trigger] ls[i][j] != '\n',
    ensures
        lines(unlines(ls)) == strip_crs(ls),
        ls.len() > 0 ==> unlines(ls).len() > 0 && unlines(ls).last() == '\n',
    decreases ls.len(),
{
    if ls.len() == 0 {
        assert(lines(unlines(ls)) =~= strip_crs(ls));
    } else {
        let init = ls.drop_last();
        let line = ls.last();
        assert forall|i: int, j: int|
            0 <= i < init.len() && 0 <= j < init[i].len() implies #[trigger] init[i][j] != '\n' by {
            assert(init[i][j] == ls[i][j]);
        }
        lemma_lines_unlines(init);
        if init.len() > 0 {
            assert(unlines(init).last() == '\n');
        }
        let one = line.push('\n');
        lemma_lines_concat(unlines(init), one);
        assert forall|j: int| 0 <= j < line.len() implies one[j] != '\n' by {
            assert(one[j] == ls[ls.len() - 1][j]);
        }
        lemma_first_index_is(one, '\n', line.len() as int);
        assert(one.take(line.len() as int) =~= line);
        assert(one.skip(line.len() as int + 1) =~= Seq::empty());
        assert(lines(one.skip(line.len() as int + 1)).len() == 0);
        assert(lines(one) =~= seq![strip_cr(line)]);
        assert(strip_crs(ls) =~= strip_crs(init) + seq![strip_cr(line)]);
        assert(unlines(ls).last() == '\n');
    }
}

/// White space at the end of a line does not matter to what the line holds.
proof fn lemma_trim_drop_white(s: Seq<char>)
    requires
        s.len() > 0,
        is_white(s.last()),
    ensures
        trim(s.drop_last()) == trim(s),
    decreases s.len(),
{
    if is_white(s[0]) {
        if s.len() == 1 {
            assert(s.drop_last() =~= Seq::empty());
            assert(s.skip(1) =~= Seq::empty());
        } else {
            assert(s.skip(1).drop_last() =~= s.drop_last().skip(1));
            lemma_trim_drop_white(s.skip(1));
        }
    } else {
        assert(s.drop_last()[0] == s[0]);
    }
}

/// A carriage return at the end of a line does not matter to what the line holds.
proof fn lemma_strip_cr(line: Seq<char>, key: Seq<char>)
    ensures
        trim(strip_cr(line)) == trim(line),
        is_key_line(strip_cr(line), key) == is_key_line(line, key),
{
    if line.len() > 0 && line.last() == '\r' {
        lemma_trim_drop_white(line);
    }
}

/// Carriage returns at the ends of lines do not matter to what the lines mention.
proof fn lemma_mentions_strip_crs(ls: Seq<Seq<char>>, key: Seq<char>)
    ensures
        mentions(strip_crs(ls), key) == mentions(ls, key),
{
    assert forall|i: int| 0 <= i < ls.len() implies is_key_line(#[trigger] strip_crs(ls)[i], key)
        == is_key_line(ls[i], key) by {
        lemma_strip_cr(ls[i], key);
    }
    if mentions(ls, key) {
        let i = choose|i: int| 0 <= i < ls.len() && is_key_line(#[trigger] ls[i], key);
        assert(is_key_line(strip_crs(ls)[i], key));
    }
    if mentions(strip_crs(ls), key) {
        let i = choose|i: int| 0 <= i < ls.len() && is_key_line(#[trigger] strip_crs(ls)[i], key);
        assert(is_key_line(ls[i], key));
    }
}

/// `mentions` of two groups of lines.
proof fn lemma_mentions_concat(a: Seq<Seq<char>>, b: Seq<Seq<char>>, key: Seq<char>)
    ensures
        mentions(a + b, key) == (mentions(a, key) || mentions(b, key)),
{
    let s = a + b;
    if mentions(a, key) {
        let i = choose|i: int| 0 <= i < a.len() && is_key_line(#[trigger] a[i], key);
        assert(is_key_line(s[i], key));
    }
    if mentions(b, key) {
        let i = choose|i: int| 0 <= i < b.len() && is_key_line(#[trigger] b[i], key);
        assert(is_key_line(s[a.len() + i], key));
    }
    if mentions(s, key) {
        let i = choose|i: int| 0 <= i < s.len() && is_key_line(#[trigger] s[i], key);
        if i < a.len() {
            assert(is_key_line(a[i], key));
        } else {
            assert(is_key_line(b[i - a.len()], key));
        }
    }
}

/// White space at the end of the text does not matter to what it mentions.
proof fn lemma_mentions_drop_white(s: Seq<char>, key: Seq<char>)
    requires
        s.len() > 0,
        is_white(s.last()),
    ensures
        mentions(lines(s.drop_last()), key) == mentions(lines(s), key),
    decreases s.len(),
{
    let d = s.drop_last();
    lemma_first_index(s, '\n');
    let k = first_index(s, '\n') as int;
    if k + 1 >= s.len() {
        // The text is one line.
        let line = s.take(k);
        let first = lines(s)[0];
        assert forall|i: int| 0 <= i < d.len() implies d[i] != '\n' by {
            assert(d[i] == s[i]);
        }
        lemma_first_index_is(d, '\n', d.len() as int);
        if k == s.len() {
            lemma_trim_drop_white(s);
        } else {
            assert(s.skip(k + 1) =~= Seq::empty());
            assert(lines(s.skip(k + 1)).len() == 0);
            assert(lines(s) =~= seq![strip_cr(line)]);
            assert(line =~= d);
            lemma_strip_cr(line, key);
        }
        assert(lines(s).len() == 1);
        assert(trim(first) == trim(d));
        assert(mentions(lines(s), key) == is_key_line(first, key));
        if d.len() == 0 {
            assert(trim(d) == d);
            assert(!is_key_line(d, key)) by {
                assert(uncommented(d).len() == 0);
                if starts_with(uncommented(d), key) {
                    assert(uncommented(d).skip(key.len() as int).len() == 0);
                }
            }
            assert(lines(d) =~= Seq::empty());
        } else {
            assert(lines(d) =~= seq![d]);
            assert(lines(d)[0] == d);
            assert(mentions(lines(d), key) == is_key_line(d, key));
        }
    } else {
        assert forall|i: int| 0 <= i < k implies d[i] != '\n' by {
            assert(d[i] == s[i]);
        }
        lemma_first_index_is(d, '\n', k);
        assert(d.take(k) =~= s.take(k));
        assert(d.skip(k + 1) =~= s.skip(k + 1).drop_last());
        lemma_mentions_drop_white(s.skip(k + 1), key);
        lemma_mentions_concat(seq![strip_cr(s.take(k))], lines(s.skip(k + 1)), key);
        lemma_mentions_concat(seq![strip_cr(s.take(k))], lines(d.skip(k + 1)), key);
    }
}

/// `mentions` of the text without the white space at its end.
proof fn lemma_mentions_trim_end(s: Seq<char>, key: Seq<char>)
    ensures
        mentions(lines(trim_end(s)), key) == mentions(lines(s), key),
    decreases s.len(),
{
    if s.len() > 0 && is_white(s.last()) {
        lemma_mentions_drop_white(s, key);
        lemma_mentions_trim_end(s.drop_last(), key);
    }
}

/// Putting blocks after headers takes no line away.
proof fn lemma_with_blocks_mentions(
    ls: Seq<Seq<char>>,
    client: Seq<Seq<char>>,
    server: Seq<Seq<char>>,
    key: Seq<char>,
)
    ensures
        mentions(ls, key) ==> mentions(with_blocks(ls, client, server), key),
        has_header(ls, "[client]"@) && mentions(client, key) ==> mentions(
            with_blocks(ls, client, server),
            key,
        ),
        has_header(ls, "[server]"@) && mentions(server, key) ==> mentions(
            with_blocks(ls, client, server),
            key,
        ),
    decreases ls.len(),
{
    if ls.len() > 0 {
        let init = ls.drop_last();
        let line = ls.last();
        lemma_with_blocks_mentions(init, client, server, key);
        lemma_mentions_concat(
            with_blocks(init, client, server),
            with_block(line, client, server),
            key,
        );
        assert(init.push(line) =~= ls);
        assert(init + seq![line] =~= ls);
        lemma_mentions_concat(init, seq![line], key);
        lemma_has_header_push(init, line, "[client]"@);
        lemma_has_header_push(init, line, "[server]"@);
        lemma_mentions_concat(
            seq![line],
            with_block(line, client, server).skip(1),
            key,
        );
        assert(seq![line] + with_block(line, client, server).skip(1) =~= with_block(
            line,
            client,
            server,
        ));
        reveal_strlit("[client]");
        reveal_strlit("[server]");
        assert("[client]"@[1] != "[server]"@[1]);
        if is_header(line, "[client]"@) {
            assert(with_block(line, client, server).skip(1) =~= client);
        } else if is_header(line, "[server]"@) {
            assert(with_block(line, client, server).skip(1) =~= server);
        }
    }
}

/// A new section takes no line away and mentions what its body mentions.
proof fn lemma_with_section_mentions(
    ls: Seq<Seq<char>>,
    header: Seq<char>,
    body: Seq<Seq<char>>,
    key: Seq<char>,
)
    ensures
        mentions(ls, key) || mentions(body, key) ==> mentions(
            with_section(ls, header, body),
            key,
        ),
{
    let rest = with_section(ls, header, body).skip(ls.len() as int);
    assert(ls + rest =~= with_section(ls, header, body));
    lemma_mentions_concat(ls, rest, key);
    let n = rest.len() - body.len();
    assert(rest.take(n) + body =~= rest);
    lemma_mentions_concat(rest.take(n), body, key);
}

/// The lines of the missing blocks mention every key that is missing.
proof fn lemma_block_lines_mention(
    bs: Seq<(Seq<char>, Seq<Seq<char>>)>,
    ls: Seq<Seq<char>>,
    i: int,
)
    requires
        forall|i: int| 0 <= i < bs.len() ==> wf_block(#[trigger] bs[i]),
        0 <= i < bs.len(),
        !mentions(ls, bs[i].0),
    ensures
        mentions(block_lines(missing(bs, ls)), bs[i].0),
        missing(bs, ls).len() > 0,
    decreases bs.len(),
{
    let init = bs.drop_last();
    let key = bs[i].0;
    assert forall|j: int| 0 <= j < init.len() implies wf_block(#[trigger] init[j]) by {
        assert(init[j] == bs[j]);
    }
    let m = missing(bs, ls);
    if i < init.len() {
        assert(init[i] == bs[i]);
        lemma_block_lines_mention(init, ls, i);
        if !mentions(ls, bs.last().0) {
            assert(m.drop_last() =~= missing(init, ls));
            lemma_mentions_concat(block_lines(missing(init, ls)), bs.last().1, key);
        }
    } else {
        assert(m.drop_last() =~= missing(init, ls));
        let b = bs.last().1;
        assert(is_key_line(b[b.len() - 1], key));
        assert(mentions(b, key));
        lemma_mentions_concat(block_lines(missing(init, ls)), b, key);
    }
}

/// The lines of well-formed blocks are comment lines.
proof fn lemma_block_lines_comments(bs: Seq<(Seq<char>, Seq<Seq<char>>)>)
    requires
        forall|i: int| 0 <= i < bs.len() ==> wf_block(#[trigger] bs[i]),
    ensures
        forall|i: int|
            0 <= i < block_lines(bs).len() ==> comment_line(#[trigger] block_lines(bs)[i]),
    decreases bs.len(),
{
    if bs.len() > 0 {
        let init = bs.drop_last();
        assert forall|j: int| 0 <= j < init.len() implies wf_block(#[trigger] init[j]) by {
            assert(init[j] == bs[j]);
        }
        lemma_block_lines_comments(init);
        let all = block_lines(bs);
        let n = block_lines(init).len();
        assert forall|i: int| 0 <= i < all.len() implies comment_line(#[trigger] all[i]) by {
            if i < n {
                assert(all[i] == block_lines(init)[i]);
            } else {
                assert(wf_block(bs[bs.len() - 1]));
                assert(all[i] == bs.last().1[i - n]);
            }
        }
    }
}

/// Whether no line of `ls` holds a line feed.
spec fn plain(ls: Seq<Seq<char>>) -> bool {
    forall|i: int, j: int|
        0 <= i < ls.len() && 0 <= j < ls[i].len() ==> #[trigger] ls[i][j] != '\n'
}

proof fn lemma_plain_concat(a: Seq<Seq<char>>, b: Seq<Seq<char>>)
    requires
        plain(a),
        plain(b),
    ensures
        plain(a + b),
{
    let s = a + b;
    assert forall|i: int, j: int| 0 <= i < s.len() && 0 <= j < s[i].len() implies #[trigger] s[i][j]
        != '\n' by {
        if i < a.len() {
            assert(s[i] == a[i]);
            assert(a[i][j] != '\n');
        } else {
            assert(s[i] == b[i - a.len()]);
            assert(b[i - a.len()][j] != '\n');
        }
    }
}

proof fn lemma_plain_with_blocks(
    ls: Seq<Seq<char>>,
    client: Seq<Seq<char>>,
    server: Seq<Seq<char>>,
)
    requires
        plain(ls),
        plain(client),
        plain(server),
    ensures
        plain(with_blocks(ls, client, server)),
    decreases ls.len(),
{
    if ls.len() > 0 {
        let init = ls.drop_last();
        let line = ls.last();
        assert forall|i: int, j: int| 0 <= i < init.len() && 0 <= j < init[i].len() implies
            #[trigger] init[i][j] != '\n' by {
            assert(ls[i][j] != '\n');
        }
        lemma_plain_with_blocks(init, client, server);
        let one = seq![line];
        assert forall|i: int, j: int| 0 <= i < one.len() && 0 <= j < one[i].len() implies
            #[trigger] one[i][j] != '\n' by {
            assert(ls[ls.len() - 1][j] != '\n');
        }
        lemma_plain_concat(one, client);
        lemma_plain_concat(one, server);
        lemma_plain_concat(one, Seq::empty());
        lemma_plain_concat(with_blocks(init, client, server), with_block(line, client, server));
    }
}

proof fn lemma_plain_with_section(ls: Seq<Seq<char>>, header: Seq<char>, body: Seq<Seq<char>>)
    requires
        plain(ls),
        plain(body),
        forall|i: int| 0 <= i < header.len() ==> header[i] != '\n',
    ensures
        plain(with_section(ls, header, body)),
{
    let none = Seq::<Seq<char>>::empty().push(Seq::empty());
    let one = seq![header];
    assert(plain(none));
    assert(plain(one));
    lemma_plain_concat(ls, none);
    lemma_plain_concat(if ls.len() == 0 { ls } else { ls + none }, one);
    lemma_plain_concat((if ls.len() == 0 { ls } else { ls + none }) + one, body);
    assert(((if ls.len() == 0 { ls } else { ls + none }) + one) + body =~= with_section(
        ls,
        header,
        body,
    ));
}

proof fn lemma_plain_comments(ls: Seq<Seq<char>>)
    requires
        forall|i: int| 0 <= i < ls.len() ==> comment_line(#[trigger] ls[i]),
    ensures
        plain(ls),
{
    assert forall|i: int, j: int| 0 <= i < ls.len() && 0 <= j < ls[i].len() implies #[trigger] ls[i][j]
        != '\n' by {
        assert(comment_line(ls[i]));
    }
}

/// The lines of the merged text, where something was missing.
proof fn lemma_merged_lines(content: Seq<char>)
    requires
        missing_keys(content).len() > 0,
    ensures
        lines(merged(content)) == strip_crs(
            merged_lines(
                lines(content),
                block_lines(missing(client_blocks(), lines(content))),
                block_lines(missing(server_blocks(), lines(content))),
            ),
        ),
{
    let ls = lines(content);
    let client = block_lines(missing(client_blocks(), ls));
    let server = block_lines(missing(server_blocks(), ls));
    lemma_client_blocks();
    lemma_server_blocks();
    lemma_missing(client_blocks(), ls);
    lemma_missing(server_blocks(), ls);
    lemma_block_lines_comments(missing(client_blocks(), ls));
    lemma_block_lines_comments(missing(server_blocks(), ls));
    lemma_plain_comments(client);
    lemma_plain_comments(server);
    lemma_lines_no_newline(content);
    lemma_plain_with_blocks(ls, client, server);
    reveal_strlit("[client]");
    reveal_strlit("[server]");
    let a = with_blocks(ls, client, server);
    lemma_plain_with_section(a, "[client]"@, client);
    let b = if client.len() > 0 && !has_header(ls, "[client]"@) {
        with_section(a, "[client]"@, client)
    } else {
        a
    };
    lemma_plain_with_section(b, "[server]"@, server);
    lemma_lines_unlines(merged_lines(ls, client, server));
}

/// Every key is mentioned after a merge: those of the client section and those of the
/// server section.
pub proof fn law_merge_mentions_every_key(content: Seq<char>, i: int)
    ensures
        0 <= i < client_blocks().len() ==> mentions(lines(merged(content)), client_blocks()[i].0),
        0 <= i < server_blocks().len() ==> mentions(lines(merged(content)), server_blocks()[i].0),
{
    if 0 <= i < client_blocks().len() {
        lemma_merge_mentions(content, client_blocks()[i].0);
        if !mentions(lines(content), client_blocks()[i].0) {
            lemma_client_blocks();
            lemma_block_lines_mention(client_blocks(), lines(content), i);
        }
    }
    if 0 <= i < server_blocks().len() {
        lemma_merge_mentions(content, server_blocks()[i].0);
        if !mentions(lines(content), server_blocks()[i].0) {
            lemma_server_blocks();
            lemma_block_lines_mention(server_blocks(), lines(content), i);
        }
    }
}

/// What the text or the missing blocks mention, the merged text mentions.
proof fn lemma_merge_mentions(content: Seq<char>, key: Seq<char>)
    ensures
        ({
            let ls = lines(content);
            mentions(ls, key) || mentions(block_lines(missing(client_blocks(), ls)), key)
                || mentions(block_lines(missing(server_blocks(), ls)), key)
        }) ==> mentions(lines(merged(content)), key),
{
    let ls = lines(content);
    let client = block_lines(missing(client_blocks(), ls));
    let server = block_lines(missing(server_blocks(), ls));
    if missing_keys(content).len() == 0 {
        assert(missing(client_blocks(), ls).len() == 0);
        assert(missing(server_blocks(), ls).len() == 0);
        lemma_mentions_trim_end(content, key);
        let t = trim_end(content);
        if t.len() > 0 {
            assert(t.push('\n').drop_last() =~= t);
            lemma_mentions_drop_white(t.push('\n'), key);
        }
    } else {
        lemma_merged_lines(content);
        lemma_mentions_strip_crs(merged_lines(ls, client, server), key);
        lemma_with_blocks_mentions(ls, client, server, key);
        let a = with_blocks(ls, client, server);
        lemma_with_section_mentions(a, "[client]"@, client, key);
        let b = if client.len() > 0 && !has_header(ls, "[client]"@) {
            with_section(a, "[client]"@, client)
        } else {
            a
        };
        lemma_with_section_mentions(b, "[server]"@, server, key);
    }
}

/// Where every key of `bs` is mentioned, none is missing.
proof fn lemma_none_missing(bs: Seq<(Seq<char>, Seq<Seq<char>>)>, ls: Seq<Seq<char>>)
    requires
        forall|i: int| 0 <= i < bs.len() ==> mentions(ls, (#[trigger] bs[i]).0),
    ensures
        missing(bs, ls).len() == 0,
    decreases bs.len(),
{
    if bs.len() > 0 {
        assert(mentions(ls, bs[bs.len() - 1].0));
        assert forall|i: int| 0 <= i < bs.drop_last().len() implies mentions(
            ls,
            (#[trigger] bs.drop_last()[i]).0,
        ) by {
            assert(bs.drop_last()[i] == bs[i]);
        }
        lemma_none_missing(bs.drop_last(), ls);
    }
}

/// Merging a second time adds no key, and changes nothing but the white space at the end
/// of the text; merging a third time changes nothing at all.
pub proof fn law_merge_is_idempotent(content: Seq<char>)
    ensures
        missing_keys(merged(content)).len() == 0,
        trim_end(merged(merged(content))) == trim_end(merged(content)),
        merged(merged(merged(content))) == merged(merged(content)),
{
    let once = merged(content);
    assert forall|i: int| 0 <= i < client_blocks().len() implies mentions(
        lines(once),
        (#[trigger] client_blocks()[i]).0,
    ) by {
        law_merge_mentions_every_key(content, i);
    }
    assert forall|i: int| 0 <= i < server_blocks().len() implies mentions(
        lines(once),
        (#[trigger] server_blocks()[i]).0,
    ) by {
        law_merge_mentions_every_key(content, i);
    }
    lemma_none_missing(client_blocks(), lines(once));
    lemma_none_missing(server_blocks(), lines(once));
    let twice = merged(once);
    assert(twice == tidied(once));
    assert forall|i: int| 0 <= i < client_blocks().len() implies mentions(
        lines(twice),
        (#[trigger] client_blocks()[i]).0,
    ) by {
        law_merge_mentions_every_key(once, i);
    }
    assert forall|i: int| 0 <= i < server_blocks().len() implies mentions(
        lines(twice),
        (#[trigger] server_blocks()[i]).0,
    ) by {
        law_merge_mentions_every_key(once, i);
    }
    lemma_none_missing(client_blocks(), lines(twice));
    lemma_none_missing(server_blocks(), lines(twice));
    let t = trim_end(once);
    lemma_trim_end_idempotent(once);
    if t.len() > 0 {
        assert(t.push('\n').drop_last() =~= t);
        assert(trim_end(t.push('\n')) == trim_end(t));
    }
}

/// Trimming twice is trimming once.
proof fn lemma_trim_end_idempotent(s: Seq<char>)
    ensures
        trim_end(trim_end(s)) == trim_end(s),
    decreases s.len(),
{
    if s.len() > 0 && is_white(s.last()) {
        lemma_trim_end_idempotent(s.drop_last());
    }
}

/// How many of `ls` are the section header `header`.
pub open spec fn header_count(ls: Seq<Seq<char>>, header: Seq<char>) -> nat
    decreases ls.len(),
{
    if ls.len() == 0 {
        0
    } else {
        header_count(ls.drop_last(), header) + if is_header(ls.last(), header) {
            1nat
        } else {
            0nat
        }
    }
}

proof fn lemma_header_count_concat(a: Seq<Seq<char>>, b: Seq<Seq<char>>, header: Seq<char>)
    ensures
        header_count(a + b, header) == header_count(a, header) + header_count(b, header),
    decreases b.len(),
{
    if b.len() == 0 {
        assert(a + b =~= a);
    } else {
        assert((a + b).drop_last() =~= a + b.drop_last());
        lemma_header_count_concat(a, b.drop_last(), header);
    }
}

proof fn lemma_header_count_comments(ls: Seq<Seq<char>>, header: Seq<char>)
    requires
        forall|i: int| 0 <= i < ls.len() ==> comment_line(#[trigger] ls[i]),
        header.len() > 0,
        header[0] == '[',
    ensures
        header_count(ls, header) == 0,
    decreases ls.len(),
{
    if ls.len() > 0 {
        assert(comment_line(ls[ls.len() - 1]));
        assert(trim(ls.last()) == ls.last());
        assert(ls.last()[0] != header[0]);
        assert forall|i: int| 0 <= i < ls.drop_last().len() implies comment_line(
            #[trigger] ls.drop_last()[i],
        ) by {
            assert(ls.drop_last()[i] == ls[i]);
        }
        lemma_header_count_comments(ls.drop_last(), header);
    }
}

proof fn lemma_header_count_strip(ls: Seq<Seq<char>>, header: Seq<char>)
    ensures
        header_count(strip_crs(ls), header) == header_count(ls, header),
    decreases ls.len(),
{
    if ls.len() > 0 {
        assert(strip_crs(ls).drop_last() =~= strip_crs(ls.drop_last()));
        lemma_header_count_strip(ls.drop_last(), header);
        lemma_strip_cr(ls.last(), Seq::empty());
    }
}

proof fn lemma_header_count_some(ls: Seq<Seq<char>>, header: Seq<char>)
    ensures
        has_header(ls, header) <==> header_count(ls, header) > 0,
    decreases ls.len(),
{
    if ls.len() > 0 {
        lemma_header_count_some(ls.drop_last(), header);
        lemma_has_header_push(ls.drop_last(), ls.last(), header);
        assert(ls.drop_last().push(ls.last()) =~= ls);
    }
}

proof fn lemma_header_count_with_blocks(
    ls: Seq<Seq<char>>,
    client: Seq<Seq<char>>,
    server: Seq<Seq<char>>,
    header: Seq<char>,
)
    requires
        header_count(client, header) == 0,
        header_count(server, header) == 0,
    ensures
        header_count(with_blocks(ls, client, server), header) == header_count(ls, header),
    decreases ls.len(),
{
    if ls.len() > 0 {
        let init = ls.drop_last();
        let line = ls.last();
        lemma_header_count_with_blocks(init, client, server, header);
        lemma_header_count_concat(
            with_blocks(init, client, server),
            with_block(line, client, server),
            header,
        );
        let one = seq![line];
        lemma_header_count_concat(one, client, header);
        lemma_header_count_concat(one, server, header);
        lemma_header_count_concat(one, Seq::empty(), header);
        assert(one.drop_last() =~= Seq::empty());
        assert(header_count(one.drop_last(), header) == 0);
        assert(one.last() == line);
    }
}

proof fn lemma_header_count_with_section(
    ls: Seq<Seq<char>>,
    name: Seq<char>,
    body: Seq<Seq<char>>,
    header: Seq<char>,
)
    requires
        header_count(body, header) == 0,
        header.len() > 0,
        trim(name) == name,
    ensures
        header_count(with_section(ls, name, body), header) == header_count(ls, header) + if name
            == header {
            1nat
        } else {
            0nat
        },
{
    let a = if ls.len() == 0 {
        ls
    } else {
        ls.push(Seq::empty())
    };
    if ls.len() > 0 {
        assert(a.drop_last() =~= ls);
        assert(a.last() == Seq::<char>::empty());
        assert(trim(a.last()).len() == 0);
        assert(header_count(a, header) == header_count(ls, header));
    }
    assert(a.push(name).drop_last() =~= a);
    assert(a.push(name).last() == name);
    lemma_header_count_concat(a.push(name), body, header);
}

/// White space at the end of the text does not matter to the headers in it.
proof fn lemma_header_count_drop_white(s: Seq<char>, header: Seq<char>)
    requires
        s.len() > 0,
        is_white(s.last()),
        header.len() > 0,
    ensures
        header_count(lines(s.drop_last()), header) == header_count(lines(s), header),
    decreases s.len(),
{
    let d = s.drop_last();
    lemma_first_index(s, '\n');
    let k = first_index(s, '\n') as int;
    if k + 1 >= s.len() {
        // The text is one line.
        let line = s.take(k);
        let first = lines(s)[0];
        assert forall|i: int| 0 <= i < d.len() implies d[i] != '\n' by {
            assert(d[i] == s[i]);
        }
        lemma_first_index_is(d, '\n', d.len() as int);
        if k == s.len() {
            lemma_trim_drop_white(s);
        } else {
            assert(s.skip(k + 1) =~= Seq::empty());
            assert(lines(s.skip(k + 1)).len() == 0);
            assert(lines(s) =~= seq![strip_cr(line)]);
            assert(line =~= d);
            lemma_strip_cr(line, Seq::empty());
        }
        assert(lines(s) =~= seq![first]);
        assert(trim(first) == trim(d));
        lemma_header_count_one(first, header);
        if d.len() == 0 {
            assert(trim(d) == d);
            assert(lines(d) =~= Seq::empty());
        } else {
            assert(lines(d) =~= seq![d]);
            lemma_header_count_one(d, header);
        }
    } else {
        assert forall|i: int| 0 <= i < k implies d[i] != '\n' by {
            assert(d[i] == s[i]);
        }
        lemma_first_index_is(d, '\n', k);
        assert(d.take(k) =~= s.take(k));
        assert(d.skip(k + 1) =~= s.skip(k + 1).drop_last());
        lemma_header_count_drop_white(s.skip(k + 1), header);
        lemma_header_count_concat(seq![strip_cr(s.take(k))], lines(s.skip(k + 1)), header);
        lemma_header_count_concat(seq![strip_cr(s.take(k))], lines(d.skip(k + 1)), header);
    }
}

proof fn lemma_header_count_one(line: Seq<char>, header: Seq<char>)
    ensures
        header_count(seq![line], header) == if is_header(line, header) {
            1nat
        } else {
            0nat
        },
{
    assert(seq![line].drop_last() =~= Seq::empty());
    assert(header_count(seq![line].drop_last(), header) == 0);
}

proof fn lemma_header_count_trim_end(s: Seq<char>, header: Seq<char>)
    requires
        header.len() > 0,
    ensures
        header_count(lines(trim_end(s)), header) == header_count(lines(s), header),
    decreases s.len(),
{
    if s.len() > 0 && is_white(s.last()) {
        lemma_header_count_drop_white(s, header);
        lemma_header_count_trim_end(s.drop_last(), header);
    }
}

/// The headers of a text whose white space at the end is replaced by one line feed.
proof fn lemma_header_count_tidied(content: Seq<char>, header: Seq<char>)
    requires
        header.len() > 0,
    ensures
        header_count(lines(tidied(content)), header) == header_count(lines(content), header),
{
    let t = trim_end(content);
    lemma_header_count_trim_end(content, header);
    if t.len() > 0 {
        assert(t.push('\n').drop_last() =~= t);
        lemma_header_count_drop_white(t.push('\n'), header);
    }
}

/// A merge never doubles a section header: a header is added only where it was missing and
/// the section lacks a key, and then once. Where nothing is missing the headers stay as they
/// are.
pub proof fn law_merge_doubles_no_header(content: Seq<char>)
    ensures
        ({
            let ls = lines(content);
            let new = lines(merged(content));
            &&& header_count(new, "[client]"@) == if missing(client_blocks(), ls).len() > 0
                && header_count(ls, "[client]"@) == 0 {
                1
            } else {
                header_count(ls, "[client]"@)
            }
            &&& header_count(new, "[server]"@) == if missing(server_blocks(), ls).len() > 0
                && header_count(ls, "[server]"@) == 0 {
                1
            } else {
                header_count(ls, "[server]"@)
            }
        }),
{
    if missing_keys(content).len() == 0 {
        assert(missing(client_blocks(), lines(content)).len() == 0);
        assert(missing(server_blocks(), lines(content)).len() == 0);
        reveal_strlit("[client]");
        reveal_strlit("[server]");
        lemma_header_count_tidied(content, "[client]"@);
        lemma_header_count_tidied(content, "[server]"@);
    } else {
        let ls = lines(content);
        let client = block_lines(missing(client_blocks(), ls));
        let server = block_lines(missing(server_blocks(), ls));
        lemma_client_blocks();
        lemma_server_blocks();
        lemma_missing(client_blocks(), ls);
        lemma_missing(server_blocks(), ls);
        lemma_block_lines_comments(missing(client_blocks(), ls));
        lemma_block_lines_comments(missing(server_blocks(), ls));
        lemma_merged_lines(content);
        let c = "[client]"@;
        let s = "[server]"@;
        reveal_strlit("[client]");
        reveal_strlit("[server]");
        assert(c[1] != s[1]);
        assert(trim(c) == c);
        assert(trim(s) == s);
        lemma_header_of(ls, client, server, c);
        lemma_header_of(ls, client, server, s);
    }
}

/// The headers among the merged lines.
proof fn lemma_header_of(
    ls: Seq<Seq<char>>,
    client: Seq<Seq<char>>,
    server: Seq<Seq<char>>,
    header: Seq<char>,
)
    requires
        forall|i: int| 0 <= i < client.len() ==> comment_line(#[trigger] client[i]),
        forall|i: int| 0 <= i < server.len() ==> comment_line(#[trigger] server[i]),
        header == "[client]"@ || header == "[server]"@,
    ensures
        header_count(strip_crs(merged_lines(ls, client, server)), header) == header_count(
            ls,
            header,
        ) + (if header == "[client]"@ && client.len() > 0 && header_count(ls, header) == 0 {
            1nat
        } else if header == "[server]"@ && server.len() > 0 && header_count(ls, header) == 0 {
            1nat
        } else {
            0nat
        }),
{
    let c = "[client]"@;
    let s = "[server]"@;
    reveal_strlit("[client]");
    reveal_strlit("[server]");
    assert(c[1] != s[1]);
    assert(trim(c) == c);
    assert(trim(s) == s);
    lemma_header_count_comments(client, header);
    lemma_header_count_comments(server, header);
    lemma_header_count_some(ls, c);
    lemma_header_count_some(ls, s);
    lemma_header_count_strip(merged_lines(ls, client, server), header);
    lemma_header_count_with_blocks(ls, client, server, header);
    let a = with_blocks(ls, client, server);
    lemma_header_count_with_section(a, c, client, header);
    let b = if client.len() > 0 && !has_header(ls, c) {
        with_section(a, c, client)
    } else {
        a
    };
    lemma_header_count_with_section(b, s, server, header);
}

/// Whether `a` comes out of `b` by leaving lines out.
pub open spec fn is_subsequence(a: Seq<Seq<char>>, b: Seq<Seq<char>>) -> bool
    decreases b.len(),
{
    if a.len() == 0 {
        true
    } else if b.len() == 0 {
        false
    } else {
        ||| (a.last() == b.last() && is_subsequence(a.drop_last(), b.drop_last()))
        ||| is_subsequence(a, b.drop_last())
    }
}

proof fn lemma_subsequence_append(a: Seq<Seq<char>>, b: Seq<Seq<char>>, c: Seq<Seq<char>>)
    requires
        is_subsequence(a, b),
    ensures
        is_subsequence(a, b + c),
    decreases c.len(),
{
    if c.len() == 0 {
        assert(b + c =~= b);
    } else {
        lemma_subsequence_append(a, b, c.drop_last());
        assert((b + c).drop_last() =~= b + c.drop_last());
    }
}

proof fn lemma_subsequence_with_blocks(
    ls: Seq<Seq<char>>,
    client: Seq<Seq<char>>,
    server: Seq<Seq<char>>,
)
    ensures
        is_subsequence(strip_crs(ls), strip_crs(with_blocks(ls, client, server))),
    decreases ls.len(),
{
    if ls.len() > 0 {
        let init = ls.drop_last();
        let line = ls.last();
        lemma_subsequence_with_blocks(init, client, server);
        let old = strip_crs(with_blocks(init, client, server));
        let grown = old.push(strip_cr(line));
        assert(grown.drop_last() =~= old);
        assert(strip_crs(ls).drop_last() =~= strip_crs(init));
        assert(is_subsequence(strip_crs(ls), grown));
        let tail = strip_crs(with_block(line, client, server)).skip(1);
        lemma_subsequence_append(strip_crs(ls), grown, tail);
        assert(grown + tail =~= strip_crs(with_blocks(ls, client, server)));
    }
}

/// A line feed behind text that does not end in white space adds no line.
proof fn lemma_lines_ended(t: Seq<char>)
    requires
        t.len() > 0,
        !is_white(t.last()),
    ensures
        lines(t.push('\n')) == lines(t),
    decreases t.len(),
{
    let e = t.push('\n');
    lemma_first_index(t, '\n');
    let k = first_index(t, '\n') as int;
    assert forall|i: int| 0 <= i < k implies e[i] != '\n' by {
        assert(e[i] == t[i]);
    }
    lemma_first_index_is(e, '\n', k);
    assert(e.take(k) =~= t.take(k));
    if k == t.len() {
        assert(t.take(k) =~= t);
        assert(e.skip(k + 1) =~= Seq::empty());
        assert(lines(e.skip(k + 1)).len() == 0);
        assert(lines(e) =~= seq![t]);
    } else {
        assert(k + 1 < t.len()) by {
            assert(t[k] == '\n');
        }
        assert(t.skip(k + 1).last() == t.last());
        assert(e.skip(k + 1) =~= t.skip(k + 1).push('\n'));
        lemma_lines_ended(t.skip(k + 1));
    }
}

proof fn lemma_trim_end_last(s: Seq<char>)
    ensures
        trim_end(s).len() > 0 ==> !is_white(trim_end(s).last()),
    decreases s.len(),
{
    if s.len() > 0 && is_white(s.last()) {
        lemma_trim_end_last(s.drop_last());
    }
}

/// A merge that adds something keeps every line of the text, in order; only a carriage
/// return at the end of a line may go. A merge that adds nothing keeps the lines of the text
/// without the white space at its end, and has no others.
pub proof fn law_merge_keeps_lines(content: Seq<char>)
    ensures
        missing_keys(content).len() > 0 ==> is_subsequence(
            strip_crs(lines(content)),
            lines(merged(content)),
        ),
        missing_keys(content).len() == 0 ==> lines(merged(content)) == lines(trim_end(content)),
{
    if missing_keys(content).len() == 0 {
        lemma_trim_end_last(content);
        if trim_end(content).len() > 0 {
            lemma_lines_ended(trim_end(content));
        }
    } else {
        let ls = lines(content);
        let client = block_lines(missing(client_blocks(), ls));
        let server = block_lines(missing(server_blocks(), ls));
        lemma_merged_lines(content);
        lemma_subsequence_with_blocks(ls, client, server);
        let a = with_blocks(ls, client, server);
        let m = merged_lines(ls, client, server);
        let tail = strip_crs(m).skip(a.len() as int);
        lemma_subsequence_append(strip_crs(ls), strip_crs(a), tail);
        assert(strip_crs(a) + tail =~= strip_crs(m));
    }
}

/// Whether a merge may add `line`: it is blank, a comment or a section header.
pub open spec fn may_be_added(line: Seq<char>) -> bool {
    line.len() == 0 || comment_line(line) || line == "[client]"@ || line == "[server]"@
}

/// Whether `b` comes out of `a` by putting lines in, each of which may be added.
pub open spec fn extended(a: Seq<Seq<char>>, b: Seq<Seq<char>>) -> bool
    decreases b.len(),
{
    if b.len() == 0 {
        a.len() == 0
    } else {
        ||| (a.len() > 0 && a.last() == b.last() && extended(a.drop_last(), b.drop_last()))
        ||| (may_be_added(b.last()) && extended(a, b.drop_last()))
    }
}

proof fn lemma_extended_append(a: Seq<Seq<char>>, b: Seq<Seq<char>>, c: Seq<Seq<char>>)
    requires
        extended(a, b),
        forall|i: int| 0 <= i < c.len() ==> may_be_added(#[trigger] c[i]),
    ensures
        extended(a, b + c),
    decreases c.len(),
{
    if c.len() == 0 {
        assert(b + c =~= b);
    } else {
        assert forall|i: int| 0 <= i < c.drop_last().len() implies may_be_added(
            #[trigger] c.drop_last()[i],
        ) by {
            assert(c.drop_last()[i] == c[i]);
        }
        lemma_extended_append(a, b, c.drop_last());
        assert((b + c).drop_last() =~= b + c.drop_last());
        assert((b + c).last() == c[c.len() - 1]);
    }
}

/// Lines of blocks, and what sets off a section, have no carriage return at the end.
proof fn lemma_strip_added(ls: Seq<Seq<char>>)
    requires
        forall|i: int| 0 <= i < ls.len() ==> may_be_added(#[trigger] ls[i]),
    ensures
        strip_crs(ls) == ls,
{
    reveal_strlit("[client]");
    reveal_strlit("[server]");
    assert forall|i: int| 0 <= i < ls.len() implies strip_cr(#[trigger] ls[i]) == ls[i] by {
        assert(may_be_added(ls[i]));
    }
    assert(strip_crs(ls) =~= ls);
}

proof fn lemma_extended_with_blocks(
    ls: Seq<Seq<char>>,
    client: Seq<Seq<char>>,
    server: Seq<Seq<char>>,
)
    requires
        forall|i: int| 0 <= i < client.len() ==> comment_line(#[trigger] client[i]),
        forall|i: int| 0 <= i < server.len() ==> comment_line(#[trigger] server[i]),
    ensures
        extended(strip_crs(ls), strip_crs(with_blocks(ls, client, server))),
    decreases ls.len(),
{
    if ls.len() > 0 {
        let init = ls.drop_last();
        let line = ls.last();
        lemma_extended_with_blocks(init, client, server);
        let start = strip_crs(with_blocks(init, client, server));
        let grown = start.push(strip_cr(line));
        assert(grown.drop_last() =~= start);
        assert(strip_crs(ls).drop_last() =~= strip_crs(init));
        assert(extended(strip_crs(ls), grown));
        let tail = with_block(line, client, server).skip(1);
        assert forall|i: int| 0 <= i < tail.len() implies may_be_added(#[trigger] tail[i]) by {
            if is_header(line, "[client]"@) {
                assert(tail[i] == client[i]);
            } else if is_header(line, "[server]"@) {
                assert(tail[i] == server[i]);
            }
        }
        lemma_strip_added(tail);
        lemma_extended_append(strip_crs(ls), grown, tail);
        assert(grown + strip_crs(tail) =~= strip_crs(with_blocks(ls, client, server)));
    } else {
        assert(strip_crs(ls) =~= Seq::empty());
        assert(strip_crs(with_blocks(ls, client, server)) =~= Seq::empty());
    }
}

proof fn lemma_extended_with_section(
    a: Seq<Seq<char>>,
    ls: Seq<Seq<char>>,
    header: Seq<char>,
    body: Seq<Seq<char>>,
)
    requires
        extended(a, strip_crs(ls)),
        header == "[client]"@ || header == "[server]"@,
        forall|i: int| 0 <= i < body.len() ==> comment_line(#[trigger] body[i]),
    ensures
        extended(a, strip_crs(with_section(ls, header, body))),
{
    let all = with_section(ls, header, body);
    let tail = all.skip(ls.len() as int);
    let n = tail.len() - body.len();
    assert forall|i: int| 0 <= i < tail.len() implies may_be_added(#[trigger] tail[i]) by {
        if i >= n {
            assert(tail[i] == body[i - n]);
        }
    }
    lemma_strip_added(tail);
    lemma_extended_append(a, strip_crs(ls), tail);
    assert(strip_crs(ls) + strip_crs(tail) =~= strip_crs(all));
}

/// Every line that a merge adds is blank, a comment or a section header: nothing that it adds
/// sets anything.
pub proof fn law_merge_adds_no_setting(content: Seq<char>)
    ensures
        missing_keys(content).len() > 0 ==> extended(
            strip_crs(lines(content)),
            lines(merged(content)),
        ),
        missing_keys(content).len() == 0 ==> extended(
            lines(trim_end(content)),
            lines(merged(content)),
        ),
{
    if missing_keys(content).len() == 0 {
        law_merge_keeps_lines(content);
        lemma_extended_same(lines(merged(content)));
    } else {
        let ls = lines(content);
        let client = block_lines(missing(client_blocks(), ls));
        let server = block_lines(missing(server_blocks(), ls));
        lemma_client_blocks();
        lemma_server_blocks();
        lemma_missing(client_blocks(), ls);
        lemma_missing(server_blocks(), ls);
        lemma_block_lines_comments(missing(client_blocks(), ls));
        lemma_block_lines_comments(missing(server_blocks(), ls));
        lemma_merged_lines(content);
        lemma_extended_with_blocks(ls, client, server);
        let a = with_blocks(ls, client, server);
        lemma_extended_with_section(strip_crs(ls), a, "[client]"@, client);
        let b = if client.len() > 0 && !has_header(ls, "[client]"@) {
            with_section(a, "[client]"@, client)
        } else {
            a
        };
        lemma_extended_with_section(strip_crs(ls), b, "[server]"@, server);
    }
}

proof fn lemma_extended_same(ls: Seq<Seq<char>>)
    ensures
        extended(ls, ls),
    decreases ls.len(),
{
    if ls.len() > 0 {
        lemma_extended_same(ls.drop_last());
    }
}

/// A line sets a key where it begins with the key, an equals sign follows, and white space is
/// all that may stand between; a comment sign before it makes no difference. A longer name that
/// begins with the key is another key.
pub proof fn law_key_lines(key: Seq<char>, value: Seq<char>, c: char)
    requires
        key.len() > 0,
        !is_white(key[0]),
        key[0] != '#',
        value.len() > 0,
        !is_white(value.last()),
        !is_white(c),
        c != '=',
    ensures
        is_key_line(key + seq![' ', '=', ' '] + value, key),
        is_key_line(key + seq!['='] + value, key),
        is_key_line(seq!['#', ' '] + key + seq![' ', '=', ' '] + value, key),
        !is_key_line(key + seq![c] + value, key),
{
    let sign = seq![' ', '=', ' '];
    let a = key + sign + value;
    assert(a[0] == key[0] && a.last() == value.last());
    assert(trim(a) == a);
    assert(a.take(key.len() as int) =~= key);
    let rest = a.skip(key.len() as int);
    assert(rest =~= sign + value);
    assert(rest[0] == ' ' && rest.skip(1)[0] == '=');
    assert(rest.skip(1).last() == value.last());
    assert(crate::text::trim_start(rest.skip(1)) == rest.skip(1));
    assert(crate::text::trim_start(rest) == rest.skip(1));
    assert(trim(rest) == rest.skip(1));

    let b = key + seq!['='] + value;
    assert(b[0] == key[0] && b.last() == value.last());
    assert(trim(b) == b);
    assert(b.take(key.len() as int) =~= key);
    let rest_b = b.skip(key.len() as int);
    assert(rest_b[0] == '=' && rest_b.last() == value.last());
    assert(trim(rest_b) == rest_b);

    let d = seq!['#', ' '] + key + sign + value;
    assert(d.subrange(2, 2 + key.len() as int) =~= key);
    lemma_setting_line(key, d);

    let e = key + seq![c] + value;
    assert(e[0] == key[0] && e.last() == value.last());
    assert(trim(e) == e);
    let rest_e = e.skip(key.len() as int);
    assert(rest_e[0] == c && rest_e.last() == value.last());
    assert(trim(rest_e) == rest_e);
}

/// A key is missing if and only if no line mentions it, whatever section the line is in.
pub proof fn law_missing_exactly(content: Seq<char>, i: int)
    ensures
        0 <= i < client_blocks().len() ==> (missing(client_blocks(), lines(content)).contains(
            client_blocks()[i],
        ) <==> !mentions(lines(content), client_blocks()[i].0)),
        0 <= i < server_blocks().len() ==> (missing(server_blocks(), lines(content)).contains(
            server_blocks()[i],
        ) <==> !mentions(lines(content), server_blocks()[i].0)),
        missing_keys(content).len() == missing(client_blocks(), lines(content)).len() + missing(
            server_blocks(),
            lines(content),
        ).len(),
{
    if 0 <= i < client_blocks().len() {
        lemma_missing_contains(client_blocks(), lines(content), i);
    }
    if 0 <= i < server_blocks().len() {
        lemma_missing_contains(server_blocks(), lines(content), i);
    }
}

proof fn lemma_missing_contains(
    bs: Seq<(Seq<char>, Seq<Seq<char>>)>,
    ls: Seq<Seq<char>>,
    i: int,
)
    requires
        0 <= i < bs.len(),
    ensures
        missing(bs, ls).contains(bs[i]) <==> !mentions(ls, bs[i].0),
{
    lemma_missing_members(bs, ls);
    if !mentions(ls, bs[i].0) {
        lemma_missing_has(bs, ls, i);
    } else if missing(bs, ls).contains(bs[i]) {
        let m = missing(bs, ls);
        let k = choose|k: int| 0 <= k < m.len() && m[k] == bs[i];
        assert(!mentions(ls, m[k].0));
    }
}

proof fn lemma_missing_members(bs: Seq<(Seq<char>, Seq<Seq<char>>)>, ls: Seq<Seq<char>>)
    ensures
        forall|k: int|
            0 <= k < missing(bs, ls).len() ==> !mentions(ls, (#[trigger] missing(bs, ls)[k]).0),
    decreases bs.len(),
{
    if bs.len() > 0 {
        lemma_missing_members(bs.drop_last(), ls);
        let m = missing(bs, ls);
        let init = missing(bs.drop_last(), ls);
        assert forall|k: int| 0 <= k < m.len() implies !mentions(ls, (#[trigger] m[k]).0) by {
            if k < init.len() {
                assert(m[k] == init[k]);
            }
        }
    }
}

proof fn lemma_missing_has(bs: Seq<(Seq<char>, Seq<Seq<char>>)>, ls: Seq<Seq<char>>, i: int)
    requires
        0 <= i < bs.len(),
        !mentions(ls, bs[i].0),
    ensures
        missing(bs, ls).contains(bs[i]),
    decreases bs.len(),
{
    let init = bs.drop_last();
    let m = missing(bs, ls);
    if i < init.len() {
        assert(init[i] == bs[i]);
        lemma_missing_has(init, ls, i);
        let n = missing(init, ls);
        let k = choose|k: int| 0 <= k < n.len() && n[k] == bs[i];
        assert(m[k] == bs[i]);
    } else {
        assert(m[m.len() - 1] == bs[i]);
    }
}

/// The missing blocks of a section stand right behind its header, and before and behind that
/// the text goes on as it was.
pub proof fn law_blocks_follow_header(
    pre: Seq<Seq<char>>,
    line: Seq<char>,
    post: Seq<Seq<char>>,
    client: Seq<Seq<char>>,
    server: Seq<Seq<char>>,
)
    ensures
        ({
            let all = with_blocks(pre + seq![line] + post, client, server);
            let a = with_blocks(pre, client, server);
            let b = with_blocks(post, client, server);
            &&& trim(line) == "[client]"@ ==> all == a + seq![line] + client + b
            &&& trim(line) == "[server]"@ ==> all == a + seq![line] + server + b
            &&& trim(line) != "[client]"@ && trim(line) != "[server]"@ ==> all == a + seq![line] + b
        }),
{
    reveal_strlit("[client]");
    reveal_strlit("[server]");
    assert("[client]"@[1] != "[server]"@[1]);
    lemma_with_blocks_concat(pre + seq![line], post, client, server);
    lemma_with_blocks_concat(pre, seq![line], client, server);
    assert(seq![line].drop_last() =~= Seq::empty());
    assert(with_blocks(seq![line].drop_last(), client, server) =~= Seq::empty());
    let w = with_block(line, client, server);
    assert(with_blocks(seq![line], client, server) =~= w);
    let all = with_blocks(pre + seq![line] + post, client, server);
    let a = with_blocks(pre, client, server);
    let b = with_blocks(post, client, server);
    assert(all =~= a + w + b);
    if trim(line) == "[client]"@ {
        assert(all =~= a + seq![line] + client + b);
    } else if trim(line) == "[server]"@ {
        assert(all =~= a + seq![line] + server + b);
    } else {
        assert(all =~= a + seq![line] + b);
    }
}

proof fn lemma_with_blocks_concat(
    a: Seq<Seq<char>>,
    b: Seq<Seq<char>>,
    client: Seq<Seq<char>>,
    server: Seq<Seq<char>>,
)
    ensures
        with_blocks(a + b, client, server) == with_blocks(a, client, server) + with_blocks(
            b,
            client,
            server,
        ),
    decreases b.len(),
{
    if b.len() == 0 {
        assert(a + b =~= a);
        assert(with_blocks(a, client, server) + with_blocks(b, client, server) =~= with_blocks(
            a,
            client,
            server,
        ));
    } else {
        assert((a + b).drop_last() =~= a + b.drop_last());
        lemma_with_blocks_concat(a, b.drop_last(), client, server);
        let x = with_blocks(a, client, server);
        let y = with_blocks(b.drop_last(), client, server);
        let z = with_block(b.last(), client, server);
        assert(x + y + z =~= x + (y + z));
    }
}

/// A section that the text lacks comes at the end, behind an empty line: its header, and right
/// behind it its missing blocks. The client's section comes before the server's.
pub proof fn law_new_sections_at_end(
    ls: Seq<Seq<char>>,
    client: Seq<Seq<char>>,
    server: Seq<Seq<char>>,
)
    requires
        ls.len() > 0,
        client.len() > 0,
        server.len() > 0,
    ensures
        ({
            let a = with_blocks(ls, client, server);
            let gap = Seq::<char>::empty();
            let m = merged_lines(ls, client, server);
            let c = header_count(ls, "[client]"@) > 0;
            let s = header_count(ls, "[server]"@) > 0;
            &&& c && s ==> m == a
            &&& !c && s ==> m == a + seq![gap, "[client]"@] + client
            &&& c && !s ==> m == a + seq![gap, "[server]"@] + server
            &&& !c && !s ==> m == a + seq![gap, "[client]"@] + client + seq![gap, "[server]"@]
                + server
        }),
{
    lemma_header_count_some(ls, "[client]"@);
    lemma_header_count_some(ls, "[server]"@);
    let a = with_blocks(ls, client, server);
    let gap = Seq::<char>::empty();
    assert(a.len() > 0);
    let w = with_section(a, "[client]"@, client);
    assert(w =~= a + seq![gap, "[client]"@] + client);
    assert(with_section(a, "[server]"@, server) =~= a + seq![gap, "[server]"@] + server);
    assert(with_section(w, "[server]"@, server) =~= w + seq![gap, "[server]"@] + server);
}

/// The new text is its lines, each ended by a line feed; a text that lacks nothing is kept up
/// to the white space at its end, and then ended by one.
pub proof fn law_text_of_lines(ls: Seq<Seq<char>>, line: Seq<char>, content: Seq<char>)
    ensures
        unlines(Seq::empty()).len() == 0,
        unlines(ls.push(line)) == unlines(ls) + line + seq!['\n'],
        missing_keys(content).len() == 0 && trim_end(content).len() > 0 ==> merged(content)
            == trim_end(content) + seq!['\n'],
        missing_keys(content).len() == 0 && trim_end(content).len() == 0 ==> merged(content).len()
            == 0,
{
    assert(ls.push(line).drop_last() =~= ls);
    assert(unlines(ls) + line.push('\n') =~= unlines(ls) + line + seq!['\n']);
    assert(trim_end(content).push('\n') =~= trim_end(content) + seq!['\n']);
}

} // verus!
