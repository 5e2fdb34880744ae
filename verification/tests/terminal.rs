use etr::terminal::{
    restore_terminal, EscapeFilter, ESCAPE_CHAR, TERM_RESET_MODES, TERM_RESET_SCREEN,
};

#[test]
fn test_escape_char_value() {
    assert_eq!(ESCAPE_CHAR, b'~');
}

#[test]
fn test_term_reset_modes_covers_critical_modes() {
    let seq = TERM_RESET_MODES.as_bytes();
    let contains = |needle: &[u8]| seq.windows(needle.len()).any(|w| w == needle);
    // Disable every mouse-reporting mode (mouse wheel spewing escapes).
    assert!(contains(b"\x1b[?1000l"));
    assert!(contains(b"\x1b[?1002l"));
    assert!(contains(b"\x1b[?1003l"));
    assert!(contains(b"\x1b[?1006l"));
    // Disable bracketed paste.
    assert!(contains(b"\x1b[?2004l"));
    // Show the cursor again.
    assert!(contains(b"\x1b[?25h"));
    // Reset SGR attributes.
    assert!(seq.ends_with(b"\x1b[0m"));
    // The cursor must stay: no alternate-screen switch, no scroll-region reset, no full
    // reset.
    assert!(!contains(b"\x1b[?1049l"));
    assert!(!contains(b"\x1b[r"));
    assert!(!contains(b"\x1bc"));
}

#[test]
fn test_term_reset_screen_leaves_alt_screen() {
    let seq = TERM_RESET_SCREEN.as_bytes();
    let contains = |needle: &[u8]| seq.windows(needle.len()).any(|w| w == needle);
    assert!(contains(b"\x1b[?1049l"));
    assert!(contains(b"\x1b[r"));
    assert!(!contains(b"\x1bc"));
}

#[test]
fn the_terminal_is_restored_only_if_it_was_changed() {
    assert_eq!(restore_terminal(false, true), "");
    assert_eq!(restore_terminal(true, false), TERM_RESET_MODES);
    assert_eq!(restore_terminal(true, true), format!("{TERM_RESET_SCREEN}{TERM_RESET_MODES}"));
}

#[test]
fn escape_and_dot_end_the_session_at_line_start_only() {
    assert_eq!(EscapeFilter::new().feed(b"~."), None);
    assert_eq!(EscapeFilter::new().feed(b"ls\r~."), None);
    assert_eq!(EscapeFilter::new().feed(b"cd ~."), Some(b"cd ~.".to_vec()));
    assert_eq!(EscapeFilter::new().feed(b"~~."), Some(b"~.".to_vec()));
    assert_eq!(EscapeFilter::new().feed(b"~\n~."), None);
}

#[test]
fn other_escapes_are_sent_as_typed() {
    assert_eq!(EscapeFilter::new().feed(b"~/bin\n"), Some(b"~/bin\n".to_vec()));
    assert_eq!(EscapeFilter::new().feed(b"plain"), Some(b"plain".to_vec()));
}

#[test]
fn an_escape_may_come_in_pieces() {
    let mut f = EscapeFilter::new();
    assert_eq!(f.feed(b"a\n~"), Some(b"a\n".to_vec()));
    assert_eq!(f.feed(b""), Some(vec![]));
    let mut g = f;
    assert_eq!(f.feed(b"."), None);
    assert_eq!(g.feed(b"x"), Some(b"~x".to_vec()));
}

#[test]
fn quitting_leaves_the_filter_as_it_was() {
    let mut f = EscapeFilter::new();
    assert_eq!(f.feed(b"ls\r"), Some(b"ls\r".to_vec()));
    let before = f;
    assert_eq!(f.feed(b"x\r~."), None);
    assert_eq!(f, before);
}
