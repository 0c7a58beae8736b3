use asciinema::logger::Logger;
use asciinema::notifier::{get_notifier, AnyNotifier, Notifier};
use asciinema::output::raw::Raw;
use asciinema::pty::{resolve_pty_from_pid, stdin_link_path};
use asciinema::tty::TtySize;

#[test]
fn notifier_choice() {
    let n = get_notifier(Some("say $TEXT".to_owned()), Some("/usr/bin/tmux".to_owned()), None, None);
    assert!(matches!(n, AnyNotifier::Custom(_)));
    let c = n.command("hi").unwrap();
    assert_eq!(c.program, "/bin/sh");
    assert_eq!(c.args, vec!["-c".to_owned(), "say $TEXT".to_owned()]);
    assert_eq!(c.env, vec![("TEXT".to_owned(), "hi".to_owned())]);

    let n = get_notifier(None, Some("/usr/bin/tmux".to_owned()), Some("/n".to_owned()), None);
    let c = n.command("recording paused").unwrap();
    assert_eq!(c.program, "/usr/bin/tmux");
    assert_eq!(c.args, vec!["display-message".to_owned(), "asciinema: recording paused".to_owned()]);

    let n = get_notifier(None, None, Some("/usr/bin/notify-send".to_owned()), Some("/o".to_owned()));
    assert_eq!(n.command("x").unwrap().args, vec!["asciinema".to_owned(), "x".to_owned()]);

    let n = get_notifier(None, None, None, Some("/usr/bin/osascript".to_owned()));
    assert_eq!(
        n.command("say \"hi\"").unwrap().args,
        vec![
            "-e".to_owned(),
            "display notification \"say \\\"hi\\\"\" with title \"asciinema\"".to_owned()
        ]
    );

    let n = get_notifier(None, None, None, None);
    assert!(n.command("x").is_none());
}

#[test]
fn logger_can_be_disabled() {
    let mut logger = Logger::new();
    assert_eq!(logger.line("hello"), Some("::: hello".to_owned()));
    logger.disable();
    assert_eq!(logger.line("hello"), None);
}

#[test]
fn raw_output() {
    let mut raw = Raw::new(false);
    assert_eq!(raw.start(TtySize(100, 50)), b"\x1b[8;50;100t".to_vec());
    assert_eq!(raw.output(b"abc"), b"abc".to_vec());
    assert!(raw.input(b"abc").is_empty());
    assert!(raw.resize((1, 2)).is_empty());
    assert!(raw.marker().is_empty());

    let mut raw = Raw::new(true);
    assert!(raw.start(TtySize(100, 50)).is_empty());
}

#[test]
fn pty_of_process() {
    assert_eq!(stdin_link_path(42), "/proc/42/fd/0");
    assert_eq!(resolve_pty_from_pid(42, "/dev/pts/3"), Ok("/dev/pts/3".to_owned()));
    assert_eq!(resolve_pty_from_pid(42, "/dev/tty1"), Ok("/dev/tty1".to_owned()));
    assert_eq!(
        resolve_pty_from_pid(-7, "/dev/null"),
        Err("process -7 does not have a PTY as stdin (found: /dev/null)".to_owned())
    );
}
