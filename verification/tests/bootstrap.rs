use etr::addrfam::AddrPref;
use etr::bootstrap::{
    bootstrap_input, parse_bootstrap_line, parse_bootstrap_lines, parse_report, parse_session_line,
    report_line, ssh_args, BootstrapError,
};
use etr::hex::{hex_decode, hex_encode};

#[test]
fn test_hex_decode() {
    assert_eq!(hex_decode("deadbeef"), Some(vec![0xde, 0xad, 0xbe, 0xef]));
    assert_eq!(hex_decode("odd"), None);
    assert_eq!(hex_decode("zz"), None);
}

#[test]
fn hexadecimal_in_both_directions() {
    assert_eq!(hex_encode(&[0, 0x0f, 0xa5]), "000fa5");
    assert_eq!(hex_decode("000FA5"), Some(vec![0, 0x0f, 0xa5]));
    assert_eq!(hex_decode(""), Some(vec![]));
    assert_eq!(hex_decode("+f"), Some(vec![15]));
    assert_eq!(hex_decode("-f"), None);
    assert_eq!(hex_decode("\u{e9}\u{e9}"), None);
}

#[test]
fn test_etrcmd_line_parsing() {
    let lines = vec![
        "KEY=VALUE".to_string(),
        "ETRCMD:distrobox -- btop".to_string(),
        "OTHER=foo".to_string(),
    ];
    let extras = parse_bootstrap_lines(&lines);
    assert_eq!(extras.command.as_deref(), Some("distrobox -- btop"));
    assert_eq!(extras.env, vec!["KEY=VALUE", "OTHER=foo"]);
}

#[test]
fn test_etrcmd_absent_yields_none() {
    let lines: Vec<String> = vec!["KEY=VALUE".to_string()];
    assert!(parse_bootstrap_lines(&lines).command.is_none());
}

#[test]
fn test_etrx11_line_parsing() {
    let lines: Vec<String> = vec![
        "KEY=VALUE".to_string(),
        "ETRX11:true".to_string(),
        "OTHER=foo".to_string(),
    ];
    let extras = parse_bootstrap_lines(&lines);
    assert!(extras.x11);
    assert_eq!(extras.env, vec!["KEY=VALUE", "OTHER=foo"]);
}

#[test]
fn an_empty_line_ends_the_requests() {
    let lines = vec!["A=1".to_string(), String::new(), "ETRX11:true".to_string()];
    let mut extras = parse_bootstrap_lines(&lines);
    assert!(!extras.x11);
    assert_eq!(extras.env, vec!["A=1"]);
    parse_bootstrap_line(&mut extras, "ETRPREFER: 6 ");
    assert_eq!(extras.pref, AddrPref::Ipv6);
    parse_bootstrap_line(&mut extras, "ETRPREFER:9");
    assert_eq!(extras.pref, AddrPref::Auto);
}

#[test]
fn session_lines_are_read_and_refused() {
    let (id, passkey, term) =
        parse_session_line("000102030405060708090a0b0c0d0e0f/secret/xterm\n").unwrap();
    assert_eq!(id[15], 15);
    assert_eq!((passkey.as_str(), term.as_str()), ("secret", "xterm"));
    assert_eq!(parse_session_line("aa/b").err(), Some(BootstrapError::MissingParts));
    assert_eq!(parse_session_line("aa/b/c").err(), Some(BootstrapError::BadSessionId));
    assert_eq!(parse_session_line("x/b/c").err(), Some(BootstrapError::BadSessionId));
    assert_eq!(BootstrapError::BadSessionId.message(), "invalid session_id hex");
    assert_eq!(
        BootstrapError::MissingParts.message(),
        "Expected SESSION_ID_HEX/PASSKEY/TERM on stdin"
    );
}

#[test]
fn what_the_client_writes_the_server_reads() {
    let env = vec!["LANG=C".to_string()];
    let lines =
        bootstrap_input(&[3; 16], "pk", "vt100", &env, true, AddrPref::Ipv4, Some("ls -l"));
    assert_eq!(
        lines,
        vec![
            "03030303030303030303030303030303/pk/vt100",
            "LANG=C",
            "ETRX11:true",
            "ETRPREFER:4",
            "ETRCMD:ls -l",
        ]
    );
    let (id, passkey, term) = parse_session_line(&lines[0]).unwrap();
    assert_eq!((id, passkey.as_str(), term.as_str()), ([3; 16], "pk", "vt100"));
    let extras = parse_bootstrap_lines(&lines[1..].to_vec());
    assert_eq!(extras.env, env);
    assert!(extras.x11);
    assert_eq!(extras.pref, AddrPref::Ipv4);
    assert_eq!(extras.command.as_deref(), Some("ls -l"));
}

#[test]
fn ssh_is_called_with_what_was_asked_for() {
    let args = ssh_args("me@host", 22, Some("-6"), "etrs", Some("/tmp/l"), 3);
    assert_eq!(args, vec!["-p", "22", "-6", "me@host", "etrs", "--log-path", "/tmp/l", "-vvv"]);
    let args = ssh_args("host", 2222, None, "/opt/etrs", None, 0);
    assert_eq!(args, vec!["-p", "2222", "host", "/opt/etrs"]);
}

#[test]
fn reports_are_found_among_other_output() {
    let line = report_line(4433, &[0xab, 0xcd]);
    assert_eq!(line, "PORT 4433 CERT abcd");
    let stdout = format!("welcome\nPORT x CERT 00\n  {line} \r\nPORT 1 CERT 01\n");
    assert_eq!(parse_report(&stdout), Some((4433, vec![0xab, 0xcd])));
    assert_eq!(parse_report("PORT 1 cert 00"), None);
    assert_eq!(parse_report(""), None);
}
