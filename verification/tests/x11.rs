use etr::x11::{
    display_port_overflows, display_target, find_xauth_cookie, next_display, process_x11_setup,
    x11_setup_len, x11_socket_path, x11_tcp_targets, xauth_names, DisplayTarget, X11Display,
    X11SetupError,
};

/// A setup block with the usual protocol and a cookie.
fn setup(little: bool, cookie: &[u8]) -> Vec<u8> {
    let bytes = |n: u16| if little { n.to_le_bytes() } else { n.to_be_bytes() };
    let mut input = vec![if little { 0x6cu8 } else { 0x42 }, 0, 11, 0, 0, 0];
    input.extend_from_slice(&bytes(18));
    input.extend_from_slice(&bytes(cookie.len() as u16));
    input.extend_from_slice(&[0, 0]);
    input.extend_from_slice(b"MIT-MAGIC-COOKIE-1");
    input.extend_from_slice(&[0, 0]);
    input.extend_from_slice(cookie);
    input
}

#[test]
fn test_process_x11_setup_empty_real_cookie() {
    let fake_cookie = [7u8; 16];
    let setup_block = process_x11_setup(&setup(true, &fake_cookie), &fake_cookie, &[]).unwrap();
    assert_eq!(setup_block.len(), 12);
    assert_eq!(setup_block[0], 0x6c);
    assert_eq!(setup_block[6], 0);
    assert_eq!(setup_block[7], 0);
    assert_eq!(setup_block[8], 0);
    assert_eq!(setup_block[9], 0);
}

#[test]
fn test_process_x11_setup_replace_cookie() {
    let fake_cookie = [7u8; 16];
    let real_cookie = [9u8; 16];
    let setup_block =
        process_x11_setup(&setup(true, &fake_cookie), &fake_cookie, &real_cookie).unwrap();
    assert_eq!(setup_block[0], 0x6c);
    let name_len = u16::from_le_bytes([setup_block[6], setup_block[7]]);
    assert_eq!(name_len, 18);
    let data_len = u16::from_le_bytes([setup_block[8], setup_block[9]]);
    assert_eq!(data_len, 16);
    assert_eq!(&setup_block[12..30], b"MIT-MAGIC-COOKIE-1");
    assert_eq!(&setup_block[32..48], &real_cookie);
}

#[test]
fn test_process_x11_setup_skip_validation() {
    let mut input = vec![0x6cu8, 0, 11, 0, 0, 0];
    input.extend_from_slice(&(0u16.to_le_bytes()));
    input.extend_from_slice(&(0u16.to_le_bytes()));
    input.extend_from_slice(&[0, 0]);
    let setup_block = process_x11_setup(&input, &[], &[]).unwrap();
    assert_eq!(setup_block.len(), 12);
}

#[test]
fn test_process_x11_setup_mismatch() {
    let fake_cookie = [7u8; 16];
    let res = process_x11_setup(&setup(true, &[8u8; 16]), &fake_cookie, &[]);
    assert!(res.is_err());
    assert_eq!(res.unwrap_err(), X11SetupError::CookieMismatch);
}

#[test]
fn big_endian_setups_keep_their_byte_order() {
    let out = process_x11_setup(&setup(false, &[7; 16]), &[7; 16], &[9; 5]).unwrap();
    assert_eq!(&out[6..10], &[0, 18, 0, 5]);
    assert_eq!(out.len(), 12 + 20 + 8);
    assert_eq!(&out[32..], &[9, 9, 9, 9, 9, 0, 0, 0]);
}

#[test]
fn short_setups_and_cookies_are_refused() {
    let block = setup(true, &[7; 16]);
    assert_eq!(x11_setup_len(&block), 48);
    assert_eq!(process_x11_setup(&block[..11], &[], &[]), Err(X11SetupError::Incomplete));
    assert_eq!(process_x11_setup(&block[..47], &[], &[]), Err(X11SetupError::Incomplete));
    assert_eq!(
        process_x11_setup(&setup(true, &[7; 4]), &[7; 16], &[]),
        Err(X11SetupError::CookieTooShort)
    );
    assert_eq!(X11SetupError::CookieTooShort.message(), "X11 auth cookie too short");
    assert_eq!(X11SetupError::CookieMismatch.message(), "X11 auth cookie mismatch");
}

#[test]
fn displays_that_cannot_be_read_say_why() {
    assert_eq!(X11Display::parse("nothing").unwrap_err(), "invalid DISPLAY 'nothing'");
    assert_eq!(X11Display::parse("h:x.0").unwrap_err(), "invalid display number 'x'");
    assert_eq!(X11Display::Path("/tmp/x".into()).display_num(), 0);
    assert_eq!(X11Display::Path("/tmp/x:3.1".into()).display_num(), 3);
    assert_eq!(X11Display::Tcp("h".into(), 80).display_num(), 0);
}

#[test]
fn display_numbers_that_leave_no_port_are_seen() {
    assert!(display_port_overflows("h:59536"));
    assert!(!display_port_overflows("h:59535.0"));
    assert!(!display_port_overflows(":65535"));
    assert!(!display_port_overflows("unix:65535"));
    assert!(!display_port_overflows("/h:65535"));
}

#[test]
fn displays_lead_to_sockets_and_addresses() {
    let target = |s: &str| display_target(&X11Display::parse(s).unwrap());
    assert!(matches!(target(":3"), DisplayTarget::Socket(p) if p == "/tmp/.X11-unix/X3"));
    assert!(matches!(target("/a:0"), DisplayTarget::Socket(p) if p == "/a:0"));
    assert!(matches!(target("h:2.1"), DisplayTarget::Tcp(a) if a == "h:6002"));
}

const LISTING: &str = "\
host/unix:0  MIT-MAGIC-COOKIE-1  00ff\n\
bad line\n\
host:10  XDM-AUTHORIZATION-1  zz\n\
localhost/unix:10  MIT-MAGIC-COOKIE-1  0102\n";

#[test]
fn the_cookie_of_the_display_is_found() {
    let (proto, cookie) = find_xauth_cookie(":10.0", LISTING).unwrap();
    assert_eq!(proto, "MIT-MAGIC-COOKIE-1");
    assert_eq!(cookie, vec![1, 2]);
}

#[test]
fn another_cookie_serves_where_the_display_has_none() {
    let (_, cookie) = find_xauth_cookie(":77", LISTING).unwrap();
    assert_eq!(cookie, vec![0, 0xff]);
    assert_eq!(
        find_xauth_cookie(":77", "a b c").unwrap_err(),
        "no xauth cookie found for display :77"
    );
    assert_eq!(find_xauth_cookie("x", LISTING).unwrap_err(), "invalid DISPLAY 'x'");
}

#[test]
fn displays_are_tried_from_10_to_99() {
    let mut tried = Vec::new();
    let mut d = next_display(None);
    while let Some(n) = d {
        tried.push(n);
        d = next_display(Some(n));
    }
    assert_eq!(tried, (10..100).collect::<Vec<u16>>());
    assert_eq!(x11_socket_path(12), "/tmp/.X11-unix/X12");
    assert_eq!(x11_tcp_targets(12), ("127.0.0.1:6012".to_string(), "[::1]:6012".to_string()));
    assert_eq!(xauth_names(12), ("localhost/unix:12".to_string(), "localhost:12".to_string()));
}
