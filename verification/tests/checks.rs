use asciinema::format::asciicast::{event_code, EventCode};
use asciinema::api::{
    handle_response_status, stream_legacy_fallback, upload_legacy_fallback, StatusOutcome,
};
use asciinema::locale::{check_utf8_locale, get_encoding};
use asciinema::pty::pty_from_lsof_output;

#[test]
fn encodings() {
    assert_eq!(get_encoding("ANSI_X3.4-1968"), "US-ASCII");
    assert_eq!(get_encoding("UTF-8"), "UTF-8");
    assert_eq!(check_utf8_locale("UTF-8", None, None, None), Ok(()));
    assert_eq!(check_utf8_locale("US-ASCII", None, None, None), Ok(()));
    assert_eq!(
        check_utf8_locale(
            "ISO-8859-1",
            None,
            Some("pl_PL".to_owned()),
            Some("C".to_owned())
        ),
        Err("asciinema requires ASCII or UTF-8 character encoding. The environment (LC_CTYPE=pl_PL) specifies the character set \"ISO-8859-1\". Check the output of `locale` command.".to_owned())
    );
    assert_eq!(
        check_utf8_locale("ISO-8859-2", None, None, None),
        Err("asciinema requires ASCII or UTF-8 character encoding. The environment () specifies the character set \"ISO-8859-2\". Check the output of `locale` command.".to_owned())
    );
}

#[test]
fn response_statuses() {
    assert_eq!(handle_response_status(true, Some("x".to_owned()), None), StatusOutcome::Success);
    assert_eq!(
        handle_response_status(false, Some("bad".to_owned()), Some("old".to_owned())),
        StatusOutcome::Message("bad".to_owned())
    );
    assert_eq!(
        handle_response_status(false, None, Some("old".to_owned())),
        StatusOutcome::Message("old".to_owned())
    );
    assert_eq!(handle_response_status(false, None, None), StatusOutcome::StatusError);
    assert_eq!(
        upload_legacy_fallback(413),
        Some("The recording exceeds the server-configured size limit".to_owned())
    );
    assert_eq!(upload_legacy_fallback(500), None);
    assert_eq!(
        stream_legacy_fallback(404, "asciinema.example"),
        Some("asciinema.example doesn't support streaming".to_owned())
    );
    assert_eq!(
        stream_legacy_fallback(422, "h"),
        Some("h doesn't support streaming".to_owned())
    );
    assert_eq!(stream_legacy_fallback(500, "h"), None);
}

#[test]
fn lsof_output() {
    let out = "COMMAND   PID USER   FD   TYPE DEVICE SIZE/OFF NODE NAME\n\
               bash    12345 user    0u   CHR  16,5      0t0 1234 /dev/ttys005\n";
    assert_eq!(pty_from_lsof_output(12345, out), Ok("/dev/ttys005".to_owned()));
    let out = "COMMAND PID USER FD TYPE DEVICE SIZE/OFF NODE NAME\r\n\
               zsh 7 u 0u CHR 4,1 0t0 9 /dev/null\r\n\
               zsh 7 u 0u CHR 4,1 0t0 9 /dev/ptyp3\r\n";
    assert_eq!(pty_from_lsof_output(7, out), Ok("/dev/ptyp3".to_owned()));
    let header_only = "bash 1 u 0u CHR 1 0 1 /dev/ttys001\n";
    assert_eq!(
        pty_from_lsof_output(1, header_only),
        Err("could not find PTY for process 1".to_owned())
    );
    assert_eq!(
        pty_from_lsof_output(-3, ""),
        Err("could not find PTY for process -3".to_owned())
    );
}

#[test]
fn earlier_event_codes() {
    assert_eq!(event_code(Some("o"), 2), Ok(EventCode::Output));
    assert_eq!(event_code(Some("i"), 2), Ok(EventCode::Input));
    assert_eq!(event_code(Some("r"), 2), Ok(EventCode::Resize));
    assert_eq!(event_code(Some("m"), 2), Ok(EventCode::Marker));
    assert_eq!(event_code(Some("xyz"), 2), Ok(EventCode::Other('x')));
    assert_eq!(event_code(Some(""), 7), Err("line 7: missing event code".to_owned()));
    assert_eq!(
        event_code(None, 3),
        Err("line 3: event code must be a string".to_owned())
    );
    assert_eq!(EventCode::Other('q').to_string(), "q");
    assert_eq!(EventCode::Resize.to_string(), "r");
}
