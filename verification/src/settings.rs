//! Which setting applies: command line, environment, configuration file or default.
use vstd::prelude::*;

use crate::addrfam::{config_pref, AddrPref};
use crate::config::{ClientConfig, ServerConfig};
use crate::forward::{parsed_forward, ForwardSpec, ForwardValue};
use crate::text::{
    chars_of, find_from, first_index, lemma_texts_push, parse_unsigned, split_once, starts_with,
    strip_prefix, texts, unsigned_value,
};

verus! {

// ---------------------------------------------------------------------------
// Client
// ---------------------------------------------------------------------------

/// The SSH port: from the command line, else from the configuration, else 22.
pub fn effective_ssh_port(cli: Option<u16>, cfg: &ClientConfig) -> (r: u16)
    ensures
        r == (match cli {
            Some(p) => p,
            None => match cfg.ssh_port {
                Some(p) => p,
                None => 22,
            },
        }),
{
    match cli {
        Some(p) => p,
        None => match cfg.ssh_port {
            Some(p) => p,
            None => 22,
        },
    }
}

/// The text of an optional string, or of another, or `default`.
pub open spec fn first_text(
    a: Option<Seq<char>>,
    b: Option<Seq<char>>,
    default: Seq<char>,
) -> Seq<char> {
    match a {
        Some(s) => s,
        None => match b {
            Some(s) => s,
            None => default,
        },
    }
}

/// The path of the server: from the command line, else from the configuration, else found
/// by the remote shell.
pub fn effective_server_path(cli: &Option<String>, cfg: &ClientConfig) -> (r: String)
    ensures
        r@ == first_text(
            crate::forward::opt_text(*cli),
            crate::forward::opt_text(cfg.server_path),
            "etrs"@,
        ),
{
    match cli {
        Some(p) => p.clone(),
        None => match &cfg.server_path {
            Some(p) => p.clone(),
            None => "etrs".to_owned(),
        },
    }
}

/// A path from the command line, else from the configuration, if any.
pub fn choose_path(cli: &Option<String>, cfg: &Option<String>) -> (r: Option<String>)
    ensures
        crate::forward::opt_text(r) == (match *cli {
            Some(p) => Some(p@),
            None => crate::forward::opt_text(*cfg),
        }),
{
    match cli {
        Some(p) => Some(p.clone()),
        None => match cfg {
            Some(p) => Some(p.clone()),
            None => None,
        },
    }
}

/// The address family to try first: from the flags, else from the configuration.
pub fn effective_pref(prefer_ipv4: bool, prefer_ipv6: bool, cfg: &Option<String>) -> (r: AddrPref)
    ensures
        r == (if prefer_ipv6 {
            AddrPref::Ipv6
        } else if prefer_ipv4 {
            AddrPref::Ipv4
        } else {
            match *cfg {
                Some(v) => config_pref(v@),
                None => AddrPref::Auto,
            }
        }),
{
    let config = match cfg {
        Some(v) => AddrPref::from_config(Some(v.as_str())),
        None => AddrPref::from_config(None),
    };
    AddrPref::from_flags(prefer_ipv4, prefer_ipv6).or(config)
}

/// The flag that tells `ssh` which address family to use. To `ssh` it is a restriction, so
/// it is passed only where the host has an address of that family.
pub fn ssh_family_flag(pref: AddrPref, available: bool) -> (r: Option<&'static str>)
    ensures
        match pref {
            AddrPref::Auto => r is None,
            AddrPref::Ipv4 => if available {
                r matches Some(f) && f@ == "-4"@
            } else {
                r is None
            },
            AddrPref::Ipv6 => if available {
                r matches Some(f) && f@ == "-6"@
            } else {
                r is None
            },
        },
{
    if available {
        pref.ssh_flag()
    } else {
        None
    }
}

/// The list on the command line, or where that is empty the one in the configuration.
pub open spec fn chosen_list(cli: Seq<Seq<char>>, cfg: Option<Seq<Seq<char>>>) -> Seq<Seq<char>> {
    if cli.len() > 0 {
        cli
    } else {
        match cfg {
            Some(l) => l,
            None => cli,
        }
    }
}

/// The texts of an optional list.
pub open spec fn opt_texts(l: Option<Vec<String>>) -> Option<Seq<Seq<char>>> {
    match l {
        Some(v) => Some(texts(v@)),
        None => None,
    }
}

/// The list on the command line, or where that is empty the one in the configuration.
pub fn choose_list<'a>(cli: &'a Vec<String>, cfg: &'a Option<Vec<String>>) -> (r: &'a Vec<String>)
    ensures
        texts(r@) == chosen_list(texts(cli@), opt_texts(*cfg)),
{
    if cli.len() > 0 {
        cli
    } else {
        match cfg {
            Some(l) => l,
            None => cli,
        }
    }
}

/// The values of forwarding specifications.
pub open spec fn forward_values(v: Seq<ForwardSpec>) -> Seq<ForwardValue> {
    v.map_values(|f: ForwardSpec| f@)
}

/// What the specifications say, or why the first bad one is refused.
pub open spec fn parsed_forwards(l: Seq<Seq<char>>) -> Result<Seq<ForwardValue>, Seq<char>>
    decreases l.len(),
{
    if l.len() == 0 {
        Ok(Seq::empty())
    } else {
        match parsed_forwards(l.drop_last()) {
            Err(e) => Err(e),
            Ok(fs) => match parsed_forward(l.last()) {
                Err(e) => Err(e),
                Ok(f) => Ok(fs.push(f)),
            },
        }
    }
}

/// Reads forwarding specifications.
pub fn parse_forwards(l: &Vec<String>) -> (r: Result<Vec<ForwardSpec>, String>)
    ensures
        match r {
            Ok(v) => parsed_forwards(texts(l@)) == Ok::<Seq<ForwardValue>, Seq<char>>(
                forward_values(v@),
            ),
            Err(e) => parsed_forwards(texts(l@)) == Err::<Seq<ForwardValue>, Seq<char>>(e@),
        },
{
    let ghost all = texts(l@);
    let mut r: Vec<ForwardSpec> = Vec::new();
    assert(all.take(0) =~= Seq::empty());
    assert(forward_values(r@) =~= Seq::empty());
    for i in 0..l.len()
        invariant
            all == texts(l@),
            parsed_forwards(all.take(i as int)) == Ok::<Seq<ForwardValue>, Seq<char>>(
                forward_values(r@),
            ),
    {
        assert(all.take(i + 1).drop_last() =~= all.take(i as int));
        assert(all.take(i + 1).last() == l@[i as int]@);
        match ForwardSpec::parse(l[i].as_str()) {
            Ok(f) => {
                assert(forward_values(r@.push(f)) =~= forward_values(r@).push(f@));
                r.push(f);
            },
            Err(e) => {
                proof {
                    lemma_parsed_forwards_fails(all, i + 1, e@);
                }
                return Err(e);
            },
        }
    }
    assert(all.take(all.len() as int) =~= all);
    Ok(r)
}

proof fn lemma_parsed_forwards_fails(l: Seq<Seq<char>>, k: int, e: Seq<char>)
    requires
        0 <= k <= l.len(),
        parsed_forwards(l.take(k)) == Err::<Seq<ForwardValue>, Seq<char>>(e),
    ensures
        parsed_forwards(l) == Err::<Seq<ForwardValue>, Seq<char>>(e),
    decreases l.len() - k,
{
    if k == l.len() {
        assert(l.take(k) =~= l);
    } else {
        assert(l.take(k + 1).drop_last() =~= l.take(k));
        lemma_parsed_forwards_fails(l, k + 1, e);
    }
}

/// Whether forwarded ports accept connections from other hosts.
pub fn effective_gateway(cli: bool, cfg: &ClientConfig) -> (r: bool)
    ensures
        r == (cli || cfg.gateway_ports == Some(true)),
{
    if cli {
        true
    } else {
        match cfg.gateway_ports {
            Some(b) => b,
            None => false,
        }
    }
}

/// Whether X11 is forwarded: any of the two flags or the two settings asks for it.
pub fn effective_x11(x11: bool, x11_trusted: bool, cfg: &ClientConfig) -> (r: bool)
    ensures
        r == (x11 || x11_trusted || cfg.x11 == Some(true) || cfg.x11_trusted == Some(true)),
{
    let a = match cfg.x11 {
        Some(b) => b,
        None => false,
    };
    let b = match cfg.x11_trusted {
        Some(b) => b,
        None => false,
    };
    x11 || x11_trusted || a || b
}

/// The host in a target: what stands behind the first `@`, or all of it.
pub open spec fn target_host(target: Seq<char>) -> Seq<char> {
    if first_index(target, '@') < target.len() {
        target.skip(first_index(target, '@') as int + 1)
    } else {
        target
    }
}

/// The host in a target such as `user@host`.
pub fn host_of<'a>(target: &'a str) -> (r: &'a str)
    ensures
        r@ == target_host(target@),
{
    proof {
        crate::text::lemma_first_index(target@, '@');
    }
    match split_once(target, '@') {
        Some((_, host)) => host,
        None => target,
    }
}

/// Texts joined by spaces.
pub open spec fn joined(words: Seq<Seq<char>>) -> Seq<char>
    decreases words.len(),
{
    if words.len() == 0 {
        Seq::empty()
    } else if words.len() == 1 {
        words[0]
    } else {
        joined(words.drop_last()) + seq![' '] + words.last()
    }
}

/// The remote command: the words of it joined by spaces, `None` where that is empty.
pub fn remote_command(words: &Vec<String>) -> (r: Option<String>)
    ensures
        match r {
            Some(c) => c@ == joined(texts(words@)) && c@.len() > 0,
            None => joined(texts(words@)).len() == 0,
        },
{
    let ghost all = texts(words@);
    let mut r: String = String::new();
    assert(all.take(0) =~= Seq::empty());
    for i in 0..words.len()
        invariant
            all == texts(words@),
            r@ == joined(all.take(i as int)),
    {
        let ghost upto = all.take(i + 1);
        assert(upto.drop_last() =~= all.take(i as int));
        assert(upto.last() == words@[i as int]@);
        let ghost before = r@;
        if i > 0 {
            r.push(' ');
            assert(r@ =~= before + seq![' ']);
        }
        r.append(words[i].as_str());
        if i == 0 {
            assert(r@ =~= upto[0]);
        }
    }
    assert(all.take(all.len() as int) =~= all);
    if r.as_str().unicode_len() > 0 {
        Some(r)
    } else {
        None
    }
}

// ---------------------------------------------------------------------------
// The remote environment
// ---------------------------------------------------------------------------

/// Whether an entry sets a variable itself, as opposed to naming one to forward.
pub open spec fn sets_variable(entry: Seq<char>) -> bool {
    first_index(entry, '=') < entry.len()
}

/// `key=value`.
pub open spec fn setting(key: Seq<char>, value: Seq<char>) -> Seq<char> {
    key + seq!['='] + value
}

/// The settings that entries make: an entry that sets a variable is taken as it is, one
/// that names a variable gets its local value, and goes where there is none.
pub open spec fn env_settings(
    raw: Seq<Seq<char>>,
    local: Seq<Option<Seq<char>>>,
) -> Seq<Seq<char>>
    decreases raw.len(),
{
    if raw.len() == 0 || local.len() != raw.len() {
        Seq::empty()
    } else {
        let rest = env_settings(raw.drop_last(), local.drop_last());
        if sets_variable(raw.last()) {
            rest.push(raw.last())
        } else {
            match local.last() {
                Some(v) => rest.push(setting(raw.last(), v)),
                None => rest,
            }
        }
    }
}

/// Whether one of `env` sets the variable `key`.
pub open spec fn is_set(env: Seq<Seq<char>>, key: Seq<char>) -> bool {
    exists|i: int| 0 <= i < env.len() && starts_with(#[trigger] env[i], key.push('='))
}

/// The variables of terminal and locale that are forwarded without being asked for.
pub open spec fn forwarded_keys() -> Seq<Seq<char>> {
    seq![
        "LANG"@,
        "LC_ALL"@,
        "LC_CTYPE"@,
        "LC_COLLATE"@,
        "LC_MESSAGES"@,
        "LC_MONETARY"@,
        "LC_NUMERIC"@,
        "LC_TIME"@,
        "COLORTERM"@,
        "TERM_PROGRAM"@,
        "TERM_PROGRAM_VERSION"@,
    ]
}

/// The variables of terminal and locale that are forwarded without being asked for.
pub fn forwarded_variables() -> (r: Vec<String>)
    ensures
        texts(r@) == forwarded_keys(),
{
    let mut r: Vec<String> = Vec::new();
    r.push("LANG".to_owned());
    r.push("LC_ALL".to_owned());
    r.push("LC_CTYPE".to_owned());
    r.push("LC_COLLATE".to_owned());
    r.push("LC_MESSAGES".to_owned());
    r.push("LC_MONETARY".to_owned());
    r.push("LC_NUMERIC".to_owned());
    r.push("LC_TIME".to_owned());
    r.push("COLORTERM".to_owned());
    r.push("TERM_PROGRAM".to_owned());
    r.push("TERM_PROGRAM_VERSION".to_owned());
    assert(texts(r@) =~= forwarded_keys());
    r
}

/// The settings of the variables `keys` that have a local value and that `env` does not
/// set.
pub open spec fn forwarded(
    keys: Seq<Seq<char>>,
    local: Seq<Option<Seq<char>>>,
    env: Seq<Seq<char>>,
) -> Seq<Seq<char>>
    decreases keys.len(),
{
    if keys.len() == 0 || local.len() != keys.len() {
        Seq::empty()
    } else {
        let rest = forwarded(keys.drop_last(), local.drop_last(), env);
        match local.last() {
            Some(v) => if is_set(env, keys.last()) {
                rest
            } else {
                rest.push(setting(keys.last(), v))
            },
            None => rest,
        }
    }
}

/// The texts of optional strings.
pub open spec fn opt_strings(v: Seq<Option<String>>) -> Seq<Option<Seq<char>>> {
    v.map_values(|o: Option<String>| crate::forward::opt_text(o))
}

/// Appends a string.
fn push_string(out: &mut Vec<String>, s: String)
    ensures
        texts(final(out)@) == texts(old(out)@).push(s@),
{
    proof {
        lemma_texts_push(out@, s);
    }
    out.push(s);
}

/// `key=value`.
fn make_setting(key: &str, value: &str) -> (r: String)
    ensures
        r@ == setting(key@, value@),
{
    let mut r = key.to_owned();
    r.push('=');
    r.append(value);
    assert(r@ =~= setting(key@, value@));
    r
}

/// The settings that entries make; `local[i]` is the local value of the variable that
/// `raw[i]` names.
pub fn resolve_env(raw: &Vec<String>, local: &Vec<Option<String>>) -> (r: Vec<String>)
    requires
        raw@.len() == local@.len(),
    ensures
        texts(r@) == env_settings(texts(raw@), opt_strings(local@)),
{
    let ghost rs = texts(raw@);
    let ghost ls = opt_strings(local@);
    let mut r: Vec<String> = Vec::new();
    assert(texts(r@) =~= Seq::empty());
    assert(rs.take(0) =~= Seq::empty());
    for i in 0..raw.len()
        invariant
            raw@.len() == local@.len(),
            rs == texts(raw@),
            ls == opt_strings(local@),
            texts(r@) == env_settings(rs.take(i as int), ls.take(i as int)),
    {
        assert(rs.take(i + 1).drop_last() =~= rs.take(i as int));
        assert(ls.take(i + 1).drop_last() =~= ls.take(i as int));
        assert(rs.take(i + 1).last() == raw@[i as int]@);
        assert(ls.take(i + 1).last() == crate::forward::opt_text(local@[i as int]));
        let entry = raw[i].as_str();
        let cs = chars_of(entry);
        assert(entry@.skip(0) =~= entry@);
        if find_from(&cs, 0, '=') < cs.len() {
            push_string(&mut r, entry.to_owned());
        } else {
            match &local[i] {
                Some(v) => {
                    let s = make_setting(entry, v.as_str());
                    push_string(&mut r, s);
                },
                None => {},
            }
        }
    }
    assert(rs.take(rs.len() as int) =~= rs);
    assert(ls.take(ls.len() as int) =~= ls);
    r
}

/// Whether one of `env` sets the variable `key`.
fn variable_is_set(env: &Vec<String>, key: &str) -> (r: bool)
    ensures
        r == is_set(texts(env@), key@),
{
    let mut prefix = key.to_owned();
    prefix.push('=');
    for i in 0..env.len()
        invariant
            prefix@ == key@.push('='),
            forall|j: int| 0 <= j < i ==> !starts_with(#[trigger] texts(env@)[j], key@.push('=')),
    {
        assert(texts(env@)[i as int] == env@[i as int]@);
        if strip_prefix(env[i].as_str(), prefix.as_str()).is_some() {
            return true;
        }
    }
    false
}

/// The settings to send: terminal and locale first, then `env`, so that what was asked for
/// counts. `local[i]` is the local value of the i-th of [`forwarded_variables`].
pub fn with_forwarded(env: Vec<String>, local: &Vec<Option<String>>) -> (r: Vec<String>)
    requires
        local@.len() == forwarded_keys().len(),
    ensures
        texts(r@) == forwarded(forwarded_keys(), opt_strings(local@), texts(env@)) + texts(env@),
{
    let keys = forwarded_variables();
    let ghost ks = forwarded_keys();
    let ghost ls = opt_strings(local@);
    let ghost es = texts(env@);
    let mut r: Vec<String> = Vec::new();
    assert(texts(r@) =~= Seq::empty());
    assert(ks.take(0) =~= Seq::empty());
    assert(keys@.len() == ks.len()) by {
        assert(texts(keys@).len() == ks.len());
    }
    for i in 0..keys.len()
        invariant
            keys@.len() == local@.len(),
            ks == texts(keys@),
            ls == opt_strings(local@),
            es == texts(env@),
            texts(r@) == forwarded(ks.take(i as int), ls.take(i as int), es),
    {
        assert(ks.take(i + 1).drop_last() =~= ks.take(i as int));
        assert(ls.take(i + 1).drop_last() =~= ls.take(i as int));
        assert(ks.take(i + 1).last() == keys@[i as int]@);
        assert(ls.take(i + 1).last() == crate::forward::opt_text(local@[i as int]));
        match &local[i] {
            Some(v) => {
                if !variable_is_set(&env, keys[i].as_str()) {
                    let s = make_setting(keys[i].as_str(), v.as_str());
                    push_string(&mut r, s);
                }
            },
            None => {},
        }
    }
    assert(ks.take(ks.len() as int) =~= ks);
    assert(ls.take(ls.len() as int) =~= ls);
    let ghost head = r@;
    let mut env = env;
    r.append(&mut env);
    assert(texts(r@) =~= texts(head) + es);
    r
}

/// What was asked for is never overruled by a variable that is forwarded without being
/// asked for: every setting of the latter is for a variable that the former does not set.
pub proof fn law_explicit_env_wins(
    keys: Seq<Seq<char>>,
    local: Seq<Option<Seq<char>>>,
    env: Seq<Seq<char>>,
    i: int,
)
    requires
        0 <= i < forwarded(keys, local, env).len(),
    ensures
        exists|k: int, v: Seq<char>|
            0 <= k < keys.len() && #[trigger] setting(keys[k], v) == forwarded(keys, local, env)[i]
                && !is_set(env, keys[k]),
    decreases keys.len(),
{
    let all = forwarded(keys, local, env);
    let rest = forwarded(keys.drop_last(), local.drop_last(), env);
    if i < rest.len() {
        assert(all[i] == rest[i]);
        law_explicit_env_wins(keys.drop_last(), local.drop_last(), env, i);
        let (k, v) = choose|k: int, v: Seq<char>|
            0 <= k < keys.drop_last().len() && #[trigger] setting(keys.drop_last()[k], v)
                == rest[i] && !is_set(env, keys.drop_last()[k]);
        assert(keys.drop_last()[k] == keys[k]);
        assert(setting(keys[k], v) == all[i]);
    } else {
        let v = local.last().unwrap();
        assert(setting(keys[keys.len() - 1], v) == all[i]);
    }
}

// ---------------------------------------------------------------------------
// Server
// ---------------------------------------------------------------------------

/// How long a session waits for its client, in seconds, where nothing says otherwise.
pub const DEFAULT_RECONNECT_TIMEOUT: u64 = 1800;

/// How long a session waits for its client, in seconds: from the command line, else from
/// the environment (where that is a number), else from the configuration, else 1800.
pub fn effective_reconnect_timeout(cli: Option<u64>, env: Option<&str>, cfg: &ServerConfig) -> (r:
    u64)
    ensures
        r == (match cli {
            Some(n) => n,
            None => {
                let from_env = match env {
                    Some(s) => unsigned_value(s@, u64::MAX as nat),
                    None => None,
                };
                match from_env {
                    Some(n) => n as u64,
                    None => match cfg.reconnect_timeout {
                        Some(n) => n,
                        None => DEFAULT_RECONNECT_TIMEOUT,
                    },
                }
            },
        }),
{
    if let Some(n) = cli {
        return n;
    }
    let from_env = match env {
        Some(s) => parse_unsigned(s, u64::MAX),
        None => None,
    };
    match from_env {
        Some(n) => n,
        None => match cfg.reconnect_timeout {
            Some(n) => n,
            None => DEFAULT_RECONNECT_TIMEOUT,
        },
    }
}

/// The address that the server binds: the one asked for, else any address, of both families
/// unless IPv4 is preferred.
pub fn effective_bind_ip(explicit: Option<&str>, pref: AddrPref) -> (r: String)
    ensures
        r@ == (match explicit {
            Some(a) => a@,
            None => if pref == AddrPref::Ipv4 {
                "0.0.0.0"@
            } else {
                "[::]"@
            },
        }),
{
    match explicit {
        Some(a) => a.to_owned(),
        None => match pref {
            AddrPref::Ipv4 => "0.0.0.0".to_owned(),
            _ => "[::]".to_owned(),
        },
    }
}

/// The preference that counts on the server: the client's, or where it has none the
/// server's own.
pub fn server_pref(client: AddrPref, own: AddrPref) -> (r: AddrPref)
    ensures
        r == client.or_else(own),
{
    client.or(own)
}

/// A variable and its value.
pub open spec fn variable(s: Seq<char>) -> Option<(Seq<char>, Seq<char>)> {
    if first_index(s, '=') < s.len() {
        Some((s.take(first_index(s, '=') as int), s.skip(first_index(s, '=') as int + 1)))
    } else {
        None
    }
}

/// The variables that settings make; what is no setting is left out.
pub open spec fn variables(l: Seq<Seq<char>>) -> Seq<(Seq<char>, Seq<char>)>
    decreases l.len(),
{
    if l.len() == 0 {
        Seq::empty()
    } else {
        match variable(l.last()) {
            Some(kv) => variables(l.drop_last()).push(kv),
            None => variables(l.drop_last()),
        }
    }
}

/// The texts of pairs of strings.
pub open spec fn pairs(v: Seq<(String, String)>) -> Seq<(Seq<char>, Seq<char>)> {
    v.map_values(|p: (String, String)| (p.0@, p.1@))
}

/// The variables that the server sets for the remote shell, in order; a later one counts.
pub open spec fn shell_variables(
    display: Option<u16>,
    term: Seq<char>,
    version: Seq<char>,
    ssh_connection: Option<Seq<char>>,
    extra: Seq<Seq<char>>,
) -> Seq<(Seq<char>, Seq<char>)> {
    (match display {
        Some(d) => seq![("DISPLAY"@, "localhost:"@ + crate::text::decimal(d as nat) + ".0"@)],
        None => Seq::empty(),
    }) + seq![("TERM"@, term), ("ETR_CONNECTION"@, "1"@), ("ETR_VERSION"@, version)] + (
    match ssh_connection {
        Some(c) => seq![("SSH_CONNECTION"@, c)],
        None => Seq::empty(),
    }) + variables(extra)
}

/// Appends a variable.
fn push_variable(out: &mut Vec<(String, String)>, key: &str, value: &str)
    ensures
        pairs(final(out)@) == pairs(old(out)@).push((key@, value@)),
{
    let p = (key.to_owned(), value.to_owned());
    assert(pairs(out@.push(p)) =~= pairs(out@).push((p.0@, p.1@)));
    out.push(p);
}

/// The variables that the server sets for the remote shell.
pub fn shell_env(
    display: Option<u16>,
    term: &str,
    version: &str,
    ssh_connection: Option<&str>,
    extra: &Vec<String>,
) -> (r: Vec<(String, String)>)
    ensures
        pairs(r@) == shell_variables(
            display,
            term@,
            version@,
            crate::bootstrap::opt_str(ssh_connection),
            texts(extra@),
        ),
{
    let mut r: Vec<(String, String)> = Vec::new();
    assert(pairs(r@) =~= Seq::empty());
    if let Some(d) = display {
        let mut value = "localhost:".to_owned();
        value.append(crate::text::decimal_text(d as u64).as_str());
        value.append(".0");
        push_variable(&mut r, "DISPLAY", value.as_str());
    }
    push_variable(&mut r, "TERM", term);
    push_variable(&mut r, "ETR_CONNECTION", "1");
    push_variable(&mut r, "ETR_VERSION", version);
    if let Some(c) = ssh_connection {
        push_variable(&mut r, "SSH_CONNECTION", c);
    }
    let ghost head = pairs(r@);
    let ghost es = texts(extra@);
    assert(es.take(0) =~= Seq::empty());
    assert(head + Seq::<(Seq<char>, Seq<char>)>::empty() =~= head);
    for i in 0..extra.len()
        invariant
            es == texts(extra@),
            pairs(r@) == head + variables(es.take(i as int)),
    {
        assert(es.take(i + 1).drop_last() =~= es.take(i as int));
        assert(es.take(i + 1).last() == extra@[i as int]@);
        proof {
            crate::text::lemma_first_index(extra@[i as int]@, '=');
        }
        if let Some((k, v)) = split_once(extra[i].as_str(), '=') {
            push_variable(&mut r, k, v);
            assert(pairs(r@) =~= head + variables(es.take(i + 1)));
        }
    }
    assert(es.take(es.len() as int) =~= es);
    assert(pairs(r@) =~= shell_variables(
        display,
        term@,
        version@,
        crate::bootstrap::opt_str(ssh_connection),
        texts(extra@),
    ));
    r
}

/// The program and arguments that run a remote command: the user's shell, or `/bin/sh`
/// where none is known. Without a command the default shell is started.
pub fn shell_command(command: &Option<String>, shell: Option<&str>) -> (r: Option<Vec<String>>)
    ensures
        match *command {
            None => r is None,
            Some(c) => r matches Some(v) && texts(v@) == seq![
                (match shell {
                    Some(s) => s@,
                    None => "/bin/sh"@,
                }),
                "-c"@,
                c@,
            ],
        },
{
    match command {
        None => None,
        Some(c) => {
            let mut v: Vec<String> = Vec::new();
            match shell {
                Some(s) => {
                    v.push(s.to_owned());
                },
                None => {
                    v.push("/bin/sh".to_owned());
                },
            }
            v.push("-c".to_owned());
            v.push(c.clone());
            assert(texts(v@) =~= seq![v@[0]@, "-c"@, c@]);
            Some(v)
        },
    }
}

// ---------------------------------------------------------------------------
// Laws
// ---------------------------------------------------------------------------

/// The command line overrules the configuration, and the configuration the default.
pub proof fn law_command_line_wins(
    port: Option<u16>,
    path: Option<String>,
    cfg: ClientConfig,
    r: u16,
    p: String,
)
    requires
        call_ensures(effective_ssh_port, (port, &cfg), r),
        call_ensures(effective_server_path, (&path, &cfg), p),
    ensures
        port is Some ==> Some(r) == port,
        port is None && cfg.ssh_port is Some ==> Some(r) == cfg.ssh_port,
        port is None && cfg.ssh_port is None ==> r == 22,
        path matches Some(x) ==> p@ == x@,
        path is None ==> (cfg.server_path matches Some(x) ==> p@ == x@),
        path is None && cfg.server_path is None ==> p@ == "etrs"@,
{
}

/// A path, a list and a preference on the command line overrule those of the configuration.
pub proof fn law_command_line_wins_over_lists(
    cli_path: Option<String>,
    cfg_path: Option<String>,
    path: Option<String>,
    cli: Vec<String>,
    cfg: Option<Vec<String>>,
    list: Vec<String>,
    v4: bool,
    v6: bool,
    cfg_pref: Option<String>,
    pref: AddrPref,
)
    requires
        call_ensures(choose_path, (&cli_path, &cfg_path), path),
        call_ensures(choose_list, (&cli, &cfg), &list),
        call_ensures(effective_pref, (v4, v6, &cfg_pref), pref),
    ensures
        cli_path matches Some(a) ==> (path matches Some(b) && b@ == a@),
        cli_path is None ==> (cfg_path matches Some(a) ==> (path matches Some(b) && b@ == a@)),
        cli_path is None && cfg_path is None ==> path is None,
        cli@.len() > 0 ==> texts(list@) == texts(cli@),
        cli@.len() == 0 ==> (cfg matches Some(l) ==> texts(list@) == texts(l@)),
        cli@.len() == 0 && cfg is None ==> list@.len() == 0,
        v6 ==> pref == AddrPref::Ipv6,
        v4 && !v6 ==> pref == AddrPref::Ipv4,
        !v4 && !v6 ==> (cfg_pref matches Some(v) ==> pref == config_pref(v@)),
        !v4 && !v6 && cfg_pref is None ==> pref == AddrPref::Auto,
{
    assert(texts(list@).len() == list@.len());
    assert(texts(cli@).len() == cli@.len());
}

/// Each switch is on where the command line or the configuration turns it on, and only there.
pub proof fn law_switches(
    gateway: bool,
    x11: bool,
    trusted: bool,
    cfg: ClientConfig,
    g: bool,
    x: bool,
)
    requires
        call_ensures(effective_gateway, (gateway, &cfg), g),
        call_ensures(effective_x11, (x11, trusted, &cfg), x),
    ensures
        g <==> gateway || cfg.gateway_ports == Some(true),
        x <==> x11 || trusted || cfg.x11 == Some(true) || cfg.x11_trusted == Some(true),
{
}

/// `ssh` is told a family if and only if the host has an address of the preferred one.
pub proof fn law_ssh_family(pref: AddrPref, available: bool, r: Option<&'static str>)
    requires
        call_ensures(ssh_family_flag, (pref, available), r),
    ensures
        r is Some <==> available && pref != AddrPref::Auto,
        r matches Some(f) ==> f@ == if pref == AddrPref::Ipv4 {
            "-4"@
        } else {
            "-6"@
        },
{
}

/// The host is what stands behind the `@`, or all of a target without one.
pub proof fn law_host(user: Seq<char>, host: Seq<char>)
    requires
        forall|i: int| 0 <= i < user.len() ==> user[i] != '@',
    ensures
        target_host(user.push('@') + host) == host,
        target_host(user) == user,
{
    let t = user.push('@') + host;
    assert forall|i: int| 0 <= i < user.len() implies t[i] != '@' by {
        assert(t[i] == user[i]);
    }
    crate::text::lemma_first_index_is(t, '@', user.len() as int);
    crate::text::lemma_first_index_is(user, '@', user.len() as int);
    assert(t.skip(user.len() as int + 1) =~= host);
}

/// The words of a command stand one behind the other with a space between.
pub proof fn law_joined(words: Seq<Seq<char>>, w: Seq<char>)
    ensures
        joined(Seq::empty()).len() == 0,
        joined(seq![w]) == w,
        words.len() > 0 ==> joined(words.push(w)) == joined(words) + seq![' '] + w,
{
    assert(words.push(w).drop_last() =~= words);
}

/// All specifications are read, in order; the first that cannot be read refuses the list.
pub proof fn law_all_forwards_read(l: Seq<Seq<char>>, s: Seq<char>)
    ensures
        parsed_forwards(Seq::empty()) == Ok::<Seq<ForwardValue>, Seq<char>>(Seq::empty()),
        parsed_forwards(l) matches Ok(fs) ==> {
            &&& parsed_forward(s) matches Ok(f) ==> parsed_forwards(l.push(s)) == Ok::<
                Seq<ForwardValue>,
                Seq<char>,
            >(fs.push(f))
            &&& parsed_forward(s) matches Err(e) ==> parsed_forwards(l.push(s)) == Err::<
                Seq<ForwardValue>,
                Seq<char>,
            >(e)
        },
        parsed_forwards(l) is Err ==> parsed_forwards(l.push(s)) == parsed_forwards(l),
{
    assert(l.push(s).drop_last() =~= l);
}

/// An entry with an equals sign is sent as it is; one without is sent with its local value, and
/// not at all where it has none.
pub proof fn law_env_entries(
    raw: Seq<Seq<char>>,
    local: Seq<Option<Seq<char>>>,
    entry: Seq<char>,
    value: Option<Seq<char>>,
)
    requires
        raw.len() == local.len(),
    ensures
        ({
            let before = env_settings(raw, local);
            let after = env_settings(raw.push(entry), local.push(value));
            &&& entry.contains('=') ==> after == before.push(entry)
            &&& !entry.contains('=') ==> (value matches Some(v) ==> after == before.push(
                entry + seq!['='] + v,
            ))
            &&& !entry.contains('=') && value is None ==> after == before
        }),
{
    assert(raw.push(entry).drop_last() =~= raw);
    assert(local.push(value).drop_last() =~= local);
    crate::text::lemma_first_index(entry, '=');
    if entry.contains('=') {
        let i = choose|i: int| 0 <= i < entry.len() && entry[i] == '=';
        assert(entry[i] == '=');
    } else if first_index(entry, '=') < entry.len() {
        assert(entry.contains(entry[first_index(entry, '=') as int]));
    }
}

/// A variable that is forwarded without being asked for is sent with its local value, unless it
/// has none or was set on purpose.
pub proof fn law_forwarded_entries(
    keys: Seq<Seq<char>>,
    local: Seq<Option<Seq<char>>>,
    env: Seq<Seq<char>>,
    key: Seq<char>,
    value: Seq<char>,
)
    requires
        keys.len() == local.len(),
    ensures
        forwarded(keys.push(key), local.push(None), env) == forwarded(keys, local, env),
        is_set(env, key) ==> forwarded(keys.push(key), local.push(Some(value)), env) == forwarded(
            keys,
            local,
            env,
        ),
        !is_set(env, key) ==> forwarded(keys.push(key), local.push(Some(value)), env) == forwarded(
            keys,
            local,
            env,
        ).push(key + seq!['='] + value),
        is_set(env.push(key + seq!['='] + value), key),
{
    assert(keys.push(key).drop_last() =~= keys);
    assert(local.push(Some(value)).drop_last() =~= local);
    assert(local.push(None).drop_last() =~= local);
    let e = env.push(key + seq!['='] + value);
    let s = key + seq!['='] + value;
    assert(s.take(key.len() as int + 1) =~= key.push('='));
    assert(starts_with(e[env.len() as int], key.push('=')));
}

/// A setting is read as its variable and value: what stands before the first equals sign, and
/// what stands behind it.
pub proof fn law_setting_read_back(
    key: Seq<char>,
    value: Seq<char>,
    l: Seq<Seq<char>>,
)
    requires
        forall|i: int| 0 <= i < key.len() ==> key[i] != '=',
    ensures
        variable(setting(key, value)) == Some((key, value)),
        variables(l.push(setting(key, value))) == variables(l).push((key, value)),
        variable(key) is None,
        variables(l.push(key)) == variables(l),
{
    let s = setting(key, value);
    assert forall|i: int| 0 <= i < key.len() implies s[i] != '=' by {
        assert(s[i] == key[i]);
    }
    crate::text::lemma_first_index_is(s, '=', key.len() as int);
    crate::text::lemma_first_index_is(key, '=', key.len() as int);
    assert(s.take(key.len() as int) =~= key);
    assert(s.skip(key.len() as int + 1) =~= value);
    assert(l.push(s).drop_last() =~= l);
    assert(l.push(key).drop_last() =~= l);
}

/// The remote shell gets its terminal type, the signs that it runs here, its display and
/// connection where there are any, and behind them what the client asked for, so that the
/// latter counts.
pub proof fn law_shell_gets(
    display: Option<u16>,
    term: Seq<char>,
    version: Seq<char>,
    ssh: Option<Seq<char>>,
    extra: Seq<Seq<char>>,
)
    ensures
        ({
            let v = shell_variables(display, term, version, ssh, extra);
            let n = v.len() - variables(extra).len();
            &&& v.contains(("TERM"@, term))
            &&& v.contains(("ETR_CONNECTION"@, "1"@))
            &&& v.contains(("ETR_VERSION"@, version))
            &&& display matches Some(d) ==> v.contains(
                ("DISPLAY"@, "localhost:"@ + crate::text::decimal(d as nat) + ".0"@),
            )
            &&& ssh matches Some(c) ==> v.contains(("SSH_CONNECTION"@, c))
            &&& n == 3 + (if display is Some {
                1int
            } else {
                0
            }) + (if ssh is Some {
                1int
            } else {
                0
            })
            &&& v.skip(n) == variables(extra)
        }),
{
    let v = shell_variables(display, term, version, ssh, extra);
    let k = if display is Some {
        1int
    } else {
        0
    };
    assert(v[k] == ("TERM"@, term));
    assert(v[k + 1] == ("ETR_CONNECTION"@, "1"@));
    assert(v[k + 2] == ("ETR_VERSION"@, version));
    if let Some(d) = display {
        assert(v[0] == ("DISPLAY"@, "localhost:"@ + crate::text::decimal(d as nat) + ".0"@));
    }
    if let Some(c) = ssh {
        assert(v[k + 3] == ("SSH_CONNECTION"@, c));
    }
    let n = v.len() - variables(extra).len();
    assert(v.skip(n) =~= variables(extra));
}

/// A session waits as long as the command line says, else the environment where that is a
/// number, else the configuration, else half an hour.
pub proof fn law_reconnect_timeout(
    cli: Option<u64>,
    env: Option<&str>,
    n: u64,
    cfg: ServerConfig,
    r: u64,
)
    requires
        call_ensures(effective_reconnect_timeout, (cli, env, &cfg), r),
    ensures
        cli matches Some(c) ==> r == c,
        cli is None ==> (env matches Some(s) ==> (s@ == crate::text::decimal(n as nat) ==> r == n)),
        cli is None && env is None ==> (cfg.reconnect_timeout matches Some(c) ==> r == c),
        cli is None && env is None && cfg.reconnect_timeout is None ==> r == 1800,
        cli is None ==> (env matches Some(s) ==> (s@.len() == 0 ==> (cfg.reconnect_timeout
            matches Some(c) ==> r == c))),
{
    crate::text::lemma_decimal_value(n as nat);
}

/// The server binds what it is told to, else every address: IPv4 alone where that is
/// preferred, both families otherwise. The client's preference overrules the server's.
pub proof fn law_server_addresses(
    explicit: Option<&str>,
    own: AddrPref,
    client: AddrPref,
    bind: String,
    pref: AddrPref,
)
    requires
        call_ensures(effective_bind_ip, (explicit, own), bind),
        call_ensures(server_pref, (client, own), pref),
    ensures
        explicit matches Some(a) ==> bind@ == a@,
        explicit is None && own == AddrPref::Ipv4 ==> bind@ == "0.0.0.0"@,
        explicit is None && own != AddrPref::Ipv4 ==> bind@ == "[::]"@,
        client != AddrPref::Auto ==> pref == client,
        client == AddrPref::Auto ==> pref == own,
{
}

/// A command is run by the user's shell, or `/bin/sh`, as one argument behind `-c`.
pub proof fn law_command_runs_in_shell(
    command: Option<String>,
    shell: Option<&str>,
    r: Option<Vec<String>>,
)
    requires
        call_ensures(shell_command, (&command, shell), r),
    ensures
        command is None <==> r is None,
        r matches Some(v) ==> {
            &&& v@.len() == 3
            &&& shell matches Some(s) ==> v@[0]@ == s@
            &&& shell is None ==> v@[0]@ == "/bin/sh"@
            &&& v@[1]@ == "-c"@
            &&& Some(v@[2]@) == crate::forward::opt_text(command)
        },
{
    if let Some(v) = r {
        let t = texts(v@);
        assert(t.len() == v@.len());
        assert(t[0] == v@[0]@ && t[1] == v@[1]@ && t[2] == v@[2]@);
    }
}

/// What was asked for comes last, all of it and in order, so that it counts.
pub proof fn law_asked_for_comes_last(
    env: Vec<String>,
    local: Vec<Option<String>>,
    r: Vec<String>,
)
    requires
        local@.len() == forwarded_keys().len(),
        call_ensures(with_forwarded, (env, &local), r),
    ensures
        r@.len() >= env@.len(),
        texts(r@).skip(r@.len() - env@.len()) == texts(env@),
        r@.len() <= env@.len() + 11,
{
    lemma_forwarded_len(forwarded_keys(), opt_strings(local@), texts(env@));
    assert(texts(r@).len() == r@.len());
    assert(texts(env@).len() == env@.len());
    assert(texts(r@).skip(r@.len() - env@.len()) =~= texts(env@));
}

proof fn lemma_forwarded_len(
    keys: Seq<Seq<char>>,
    local: Seq<Option<Seq<char>>>,
    env: Seq<Seq<char>>,
)
    ensures
        forwarded(keys, local, env).len() <= keys.len(),
    decreases keys.len(),
{
    if keys.len() > 0 && local.len() == keys.len() {
        lemma_forwarded_len(keys.drop_last(), local.drop_last(), env);
    }
}

/// The command is the words joined by spaces, and there is none without words.
pub proof fn law_command_of_words(words: Vec<String>, r: Option<String>)
    requires
        call_ensures(remote_command, (&words,), r),
    ensures
        words@.len() == 0 ==> r is None,
        words@.len() == 1 && words@[0]@.len() > 0 ==> (r matches Some(c) && c@ == words@[0]@),
        words@.len() == 2 ==> (r matches Some(c) && c@ == words@[0]@ + seq![' '] + words@[1]@),
{
    let t = texts(words@);
    assert(t.len() == words@.len());
    if words@.len() == 1 {
        assert(t =~= seq![words@[0]@]);
    }
    if words@.len() == 2 {
        assert(t =~= seq![words@[0]@].push(words@[1]@));
        law_joined(seq![words@[0]@], words@[1]@);
        law_joined(Seq::empty(), words@[0]@);
    }
}

/// Language, colours and the terminal program go along without being asked for.
pub proof fn law_locale_goes_along(r: Vec<String>)
    requires
        call_ensures(forwarded_variables, (), r),
    ensures
        texts(r@) == forwarded_keys(),
        forwarded_keys().len() == 11,
        forwarded_keys().contains("LANG"@),
        forwarded_keys().contains("LC_ALL"@),
        forwarded_keys().contains("LC_CTYPE"@),
        forwarded_keys().contains("LC_COLLATE"@),
        forwarded_keys().contains("LC_MESSAGES"@),
        forwarded_keys().contains("LC_MONETARY"@),
        forwarded_keys().contains("LC_NUMERIC"@),
        forwarded_keys().contains("LC_TIME"@),
        forwarded_keys().contains("COLORTERM"@),
        forwarded_keys().contains("TERM_PROGRAM"@),
        forwarded_keys().contains("TERM_PROGRAM_VERSION"@),
{
    let k = forwarded_keys();
    assert(k[0] == "LANG"@ && k[1] == "LC_ALL"@ && k[2] == "LC_CTYPE"@ && k[3] == "LC_COLLATE"@);
    assert(k[4] == "LC_MESSAGES"@ && k[5] == "LC_MONETARY"@ && k[6] == "LC_NUMERIC"@);
    assert(k[7] == "LC_TIME"@ && k[8] == "COLORTERM"@ && k[9] == "TERM_PROGRAM"@);
    assert(k[10] == "TERM_PROGRAM_VERSION"@);
}

} // verus!
