//! Load generation: what to run, when to go on after a failed send, and how the result is
//! reported.
use vstd::prelude::*;

use crate::forward::port_of;
use crate::text::{decimal, decimal_text, parse_u16, parse_unsigned, text_eq, texts, unsigned_value};

verus! {

/// What to run.
#[derive(Debug, Clone, Copy, PartialEq, Eq, Structural)]
pub enum Task {
    /// Echoes over TCP.
    TcpEcho,
    /// Echoes over UDP.
    UdpEcho,
    /// Sends over TCP and counts what comes back.
    TcpPump,
    /// Sends over UDP, with so many microseconds between datagrams, and counts what comes
    /// back.
    UdpPump {
        /// Microseconds between datagrams; 0 to send without a pause.
        pace_us: u64,
    },
}

/// Why there is nothing to run.
#[derive(Debug, Clone, Copy, PartialEq, Eq, Structural)]
pub enum TaskError {
    /// A command or port is missing.
    Usage,
    /// The port is not a port.
    BadPort,
    /// There is no such command.
    Unknown,
}

/// The pause that an argument asks for: none where it is not a number.
pub open spec fn pace_of(args: Seq<Seq<char>>) -> u64 {
    if args.len() > 2 {
        match unsigned_value(args[2], u64::MAX as nat) {
            Some(n) => n as u64,
            None => 0,
        }
    } else {
        0
    }
}

/// What the arguments (without the program's name) ask for, and on which port.
pub open spec fn task_of(args: Seq<Seq<char>>) -> Result<(Task, u16), TaskError> {
    if args.len() < 2 {
        Err(TaskError::Usage)
    } else {
        match port_of(args[1]) {
            None => Err(TaskError::BadPort),
            Some(port) => if args[0] == "tcp-echo"@ {
                Ok((Task::TcpEcho, port))
            } else if args[0] == "udp-echo"@ {
                Ok((Task::UdpEcho, port))
            } else if args[0] == "tcp-pump"@ {
                Ok((Task::TcpPump, port))
            } else if args[0] == "udp-pump"@ {
                Ok((Task::UdpPump { pace_us: pace_of(args) }, port))
            } else {
                Err(TaskError::Unknown)
            },
        }
    }
}

/// What the arguments (without the program's name) ask for, and on which port.
pub fn parse_task(args: &Vec<String>) -> (r: Result<(Task, u16), TaskError>)
    ensures
        r == task_of(texts(args@)),
{
    let ghost all = texts(args@);
    if args.len() < 2 {
        return Err(TaskError::Usage);
    }
    assert(all[0] == args@[0]@);
    assert(all[1] == args@[1]@);
    let port: u16 = match parse_u16(args[1].as_str()) {
        Some(p) => p,
        None => {
            return Err(TaskError::BadPort);
        },
    };
    let name = args[0].as_str();
    if text_eq(name, "tcp-echo") {
        Ok((Task::TcpEcho, port))
    } else if text_eq(name, "udp-echo") {
        Ok((Task::UdpEcho, port))
    } else if text_eq(name, "tcp-pump") {
        Ok((Task::TcpPump, port))
    } else if text_eq(name, "udp-pump") {
        let pace_us: u64 = if args.len() > 2 {
            assert(all[2] == args@[2]@);
            match parse_unsigned(args[2].as_str(), u64::MAX) {
                Some(n) => n,
                None => 0,
            }
        } else {
            0
        };
        Ok((Task::UdpPump { pace_us }, port))
    } else {
        Err(TaskError::Unknown)
    }
}

/// Why a datagram was not sent.
#[derive(Debug, Clone, Copy, PartialEq, Eq, Structural)]
pub enum SendFailure {
    /// The socket would block.
    WouldBlock,
    /// There is no memory.
    OutOfMemory,
    /// The port is not open yet.
    Refused,
    /// There is no buffer space.
    NoBuffers,
    /// Anything else.
    Other,
}

/// Whether to go on after a datagram was not sent: full buffers and a port that is not open
/// yet pass.
pub fn send_goes_on(failure: SendFailure) -> (r: bool)
    ensures
        r == (failure != SendFailure::Other),
{
    match failure {
        SendFailure::Other => false,
        _ => true,
    }
}

/// How often a connection is tried before giving up.
pub const CONNECT_ATTEMPTS: u32 = 50;

/// How long to wait between tries, in milliseconds.
pub const CONNECT_PAUSE_MS: u64 = 100;

/// A number below 1000 in three digits.
pub open spec fn three_digits(n: nat) -> Seq<char> {
    if n < 10 {
        "00"@ + decimal(n)
    } else if n < 100 {
        "0"@ + decimal(n)
    } else {
        decimal(n)
    }
}

/// The line that reports a result: the bytes sent and received, and the time in seconds with
/// three decimals.
pub open spec fn stats(udp: bool, sent: u64, received: u64, elapsed_ms: u64) -> Seq<char> {
    (if udp {
        "UDP"@
    } else {
        "TCP"@
    }) + " sent="@ + decimal(sent as nat) + " recv="@ + decimal(received as nat) + " elapsed="@
        + decimal((elapsed_ms / 1000) as nat) + "."@ + three_digits((elapsed_ms % 1000) as nat)
}

/// The line that reports a result.
pub fn stats_line(udp: bool, sent: u64, received: u64, elapsed_ms: u64) -> (r: String)
    ensures
        r@ == stats(udp, sent, received, elapsed_ms),
{
    let mut r = if udp {
        "UDP".to_owned()
    } else {
        "TCP".to_owned()
    };
    r.append(" sent=");
    r.append(decimal_text(sent).as_str());
    r.append(" recv=");
    r.append(decimal_text(received).as_str());
    r.append(" elapsed=");
    r.append(decimal_text(elapsed_ms / 1000).as_str());
    r.append(".");
    let ms: u64 = elapsed_ms % 1000;
    let ghost before = r@;
    if ms < 10 {
        r.append("00");
    } else if ms < 100 {
        r.append("0");
    }
    r.append(decimal_text(ms).as_str());
    assert(r@ =~= before + three_digits(ms as nat));
    r
}

/// A command needs a port; each of the four commands is known by its name, on the port given,
/// and no other name is a command. The pause is a number, or none.
pub proof fn law_tasks(args: Seq<Seq<char>>, port: u16)
    requires
        args.len() >= 2,
        args[1] == decimal(port as nat),
    ensures
        args[0] == "tcp-echo"@ ==> task_of(args) == Ok::<(Task, u16), TaskError>(
            (Task::TcpEcho, port),
        ),
        args[0] == "udp-echo"@ ==> task_of(args) == Ok::<(Task, u16), TaskError>(
            (Task::UdpEcho, port),
        ),
        args[0] == "tcp-pump"@ ==> task_of(args) == Ok::<(Task, u16), TaskError>(
            (Task::TcpPump, port),
        ),
        args[0] == "udp-pump"@ && args.len() == 2 ==> task_of(args) == Ok::<(Task, u16), TaskError>(
            (Task::UdpPump { pace_us: 0 }, port),
        ),
        args[0] != "tcp-echo"@ && args[0] != "udp-echo"@ && args[0] != "tcp-pump"@ && args[0]
            != "udp-pump"@ ==> task_of(args) == Err::<(Task, u16), TaskError>(TaskError::Unknown),
{
    crate::forward::law_ports(port as nat);
    reveal_strlit("tcp-echo");
    reveal_strlit("udp-echo");
    reveal_strlit("tcp-pump");
    reveal_strlit("udp-pump");
    assert("tcp-echo"@[0] != "udp-echo"@[0]);
    assert("tcp-echo"@[4] != "tcp-pump"@[4]);
    assert("tcp-echo"@[0] != "udp-pump"@[0]);
    assert("udp-echo"@[0] != "tcp-pump"@[0]);
    assert("udp-echo"@[4] != "udp-pump"@[4]);
    assert("tcp-pump"@[0] != "udp-pump"@[0]);
}

/// The pause of a UDP pump is the number behind the port; sending goes on after every failure
/// that passes, and stops at others; milliseconds are written with three digits.
pub proof fn law_pump(args: Seq<Seq<char>>, pace: u64, failure: SendFailure, r: bool, ms: nat)
    requires
        args.len() > 2,
        args[2] == decimal(pace as nat),
        call_ensures(send_goes_on, (failure,), r),
        ms < 1000,
    ensures
        pace_of(args) == pace,
        r <==> failure != SendFailure::Other,
        three_digits(ms).len() == 3,
        unsigned_value(three_digits(ms), 999) == Some(ms),
{
    crate::text::lemma_decimal_value(pace as nat);
    crate::text::lemma_decimal_value(ms);
    crate::text::lemma_decimal_value((ms / 10) as nat);
    reveal_strlit("00");
    reveal_strlit("0");
    let t = three_digits(ms);
    let d = decimal(ms);
    if ms < 10 {
        assert(d.len() == 1);
        assert(t =~= seq!['0', '0'] + d);
        lemma_leading_zero(d);
        lemma_leading_zero(seq!['0'] + d);
        assert(seq!['0'] + (seq!['0'] + d) =~= t);
    } else if ms < 100 {
        assert(decimal((ms / 10) as nat).len() == 1);
        assert(d.len() == 2);
        assert(t =~= seq!['0'] + d);
        lemma_leading_zero(d);
    } else {
        assert(decimal((ms / 100) as nat).len() == 1);
        assert((ms / 10) / 10 == ms / 100);
        assert(decimal((ms / 10) as nat).len() == 2);
        assert(d.len() == 3);
    }
}

proof fn lemma_leading_zero(d: Seq<char>)
    requires
        crate::text::all_digits(d),
    ensures
        crate::text::all_digits(seq!['0'] + d),
        crate::text::digits_value(seq!['0'] + d) == crate::text::digits_value(d),
    decreases d.len(),
{
    let z = seq!['0'] + d;
    assert forall|i: int| 0 <= i < z.len() implies crate::text::is_digit(#[trigger] z[i]) by {
        if i > 0 {
            assert(z[i] == d[i - 1]);
        }
    }
    if d.len() > 0 {
        let init = d.drop_last();
        assert forall|i: int| 0 <= i < init.len() implies crate::text::is_digit(
            #[trigger] init[i],
        ) by {
            assert(init[i] == d[i]);
        }
        lemma_leading_zero(init);
        assert(z.drop_last() =~= seq!['0'] + init);
    } else {
        assert(z.drop_last() =~= Seq::empty());
        assert(crate::text::digits_value(z.drop_last()) == 0);
    }
}

/// A report names the protocol, the bytes sent and received, and the time in seconds with
/// three decimals.
pub proof fn law_report(sent: u64, received: u64, ms: u64, tcp: String, udp: String)
    requires
        call_ensures(stats_line, (false, sent, received, ms), tcp),
        call_ensures(stats_line, (true, sent, received, ms), udp),
    ensures
        ({
            let rest = " sent="@ + decimal(sent as nat) + " recv="@ + decimal(received as nat)
                + " elapsed="@ + decimal((ms / 1000) as nat) + "."@ + three_digits(
                (ms % 1000) as nat,
            );
            tcp@ == "TCP"@ + rest && udp@ == "UDP"@ + rest
        }),
{
    let rest = " sent="@ + decimal(sent as nat) + " recv="@ + decimal(received as nat)
        + " elapsed="@ + decimal((ms / 1000) as nat) + "."@ + three_digits((ms % 1000) as nat);
    assert(tcp@ =~= "TCP"@ + rest);
    assert(udp@ =~= "UDP"@ + rest);
}

} // verus!
