use asciinema::cmd::play::get_key_bindings as player_keys;
use asciinema::cmd::session::get_key_bindings as session_keys;
use asciinema::asciicast::Version;
use asciinema::cli::Format;
use asciinema::cmd::session::{
    append_format, build_exec_command, build_exec_extra_env, capture_env, get_file_format,
    get_file_mode, hex_text, relay_id,
};
use asciinema::hash::fnv1a_128;
use asciinema::session::{
    elapsed_time, exit_status, handle_exit, handle_input, handle_output, handle_resize, input_event,
    output_event, Event, ExitKind, KeyBindings, Record, SessionState,
};
use asciinema::tty::TtySize;
use std::collections::HashMap;

fn state() -> SessionState {
    SessionState {
        pause_time: None,
        prefix_mode: false,
        record_input: true,
        time_offset: 0,
        tty_size: TtySize(80, 24),
    }
}

#[test]
fn session_records_output_and_input_at_the_clock() {
    let s = state();
    let keys = KeyBindings::default();
    assert_eq!(handle_output(&s, 5), Some(Record::Output(5)));
    let mut s = s;
    let out = handle_input(&mut s, &keys, b"ls", 7);
    assert!(out.forward);
    assert_eq!(out.record, Some(Record::Input(7)));
    assert_eq!(out.notify, None);
}

#[test]
fn pause_key_pauses_and_resumes_without_a_gap() {
    let mut s = state();
    let keys = KeyBindings::default();
    let out = handle_input(&mut s, &keys, &[0x1c], 10);
    assert!(!out.forward);
    assert_eq!(out.notify, Some(0));
    assert_eq!(s.pause_time, Some(10));
    assert_eq!(handle_output(&s, 20), None);
    assert_eq!(elapsed_time(&s, 25), 10);
    let out = handle_input(&mut s, &keys, &[0x1c], 30);
    assert_eq!(out.notify, Some(1));
    assert_eq!(s.pause_time, None);
    assert_eq!(s.time_offset, 20);
    assert_eq!(elapsed_time(&s, 30), 10);
    assert_eq!(handle_output(&s, 31), Some(Record::Output(11)));
}

#[test]
fn prefix_key_arms_the_other_keys() {
    let mut s = state();
    let keys = KeyBindings {
        prefix: Some(vec![0x01]),
        pause: Some(vec![b'p']),
        add_marker: Some(vec![b'm']),
    };
    let out = handle_input(&mut s, &keys, b"m", 1);
    assert!(out.forward);
    assert_eq!(out.record, Some(Record::Input(1)));
    let out = handle_input(&mut s, &keys, &[0x01], 2);
    assert!(!out.forward);
    assert!(s.prefix_mode);
    let out = handle_input(&mut s, &keys, b"m", 3);
    assert!(!out.forward);
    assert_eq!(out.record, Some(Record::Marker(3)));
    assert_eq!(out.notify, Some(2));
    assert!(!s.prefix_mode);
}

#[test]
fn input_is_not_recorded_when_not_captured() {
    let mut s = state();
    s.record_input = false;
    let out = handle_input(&mut s, &KeyBindings::default(), b"x", 1);
    assert!(out.forward);
    assert_eq!(out.record, None);
}

#[test]
fn resize_is_recorded_only_when_the_size_changes() {
    let mut s = state();
    assert_eq!(handle_resize(&mut s, TtySize(80, 24), 3), None);
    assert_eq!(
        handle_resize(&mut s, TtySize(100, 30), 4),
        Some(Record::Resize(4, TtySize(100, 30)))
    );
    assert_eq!(s.tty_size, TtySize(100, 30));
}

#[test]
fn exit_statuses() {
    assert_eq!(exit_status(ExitKind::Exited(3)), 3);
    assert_eq!(exit_status(ExitKind::Signaled(9)), 137);
    assert_eq!(exit_status(ExitKind::Other), 1);
    assert_eq!(handle_exit(&state(), 2, 50), Record::Exit(50, 2));
}

#[test]
fn file_mode_decisions() {
    assert_eq!(get_file_mode(false, true, false, 0), Ok((false, false)));
    assert_eq!(get_file_mode(false, true, true, 0), Ok((true, false)));
    assert_eq!(get_file_mode(false, true, true, 9), Ok((false, true)));
    assert_eq!(get_file_mode(true, false, true, 9), Ok((true, false)));
    assert_eq!(
        get_file_mode(false, false, true, 9),
        Err("file exists, use --overwrite or --append".to_owned())
    );
}

#[test]
fn file_format_decisions() {
    assert_eq!(get_file_format(Some(Format::Raw), "a.txt", false), Some(Format::Raw));
    assert_eq!(get_file_format(None, "dir/a.txt", true), Some(Format::Txt));
    assert_eq!(get_file_format(None, ".txt", false), Some(Format::AsciicastV3));
    assert_eq!(get_file_format(None, "a.TXT", false), Some(Format::AsciicastV3));
    assert_eq!(get_file_format(None, "a.cast", true), None);
    assert_eq!(append_format(Ok(Version::Two)), Ok(Format::AsciicastV2));
    assert_eq!(append_format(Ok(Version::Three)), Ok(Format::AsciicastV3));
    assert_eq!(
        append_format(Ok(Version::One)),
        Err("appending to asciicast v1 files is not supported".to_owned())
    );
    assert_eq!(
        append_format(Err("empty file".to_owned())),
        Err("can't append: empty file".to_owned())
    );
}

fn pairs(v: &[(&str, &str)]) -> Vec<(String, String)> {
    v.iter().map(|(a, b)| (a.to_string(), b.to_string())).collect()
}

#[test]
fn captured_environment() {
    let vars = pairs(&[("SHELL", "/bin/zsh"), ("TERM", "xterm"), ("HOME", "/h")]);
    assert_eq!(capture_env(None, None, vars.clone()), pairs(&[("SHELL", "/bin/zsh")]));
    assert_eq!(
        capture_env(Some("TERM,HOME".to_owned()), Some("SHELL".to_owned()), vars.clone()),
        pairs(&[("TERM", "xterm"), ("HOME", "/h")])
    );
    assert_eq!(
        capture_env(None, Some("HOME".to_owned()), vars),
        pairs(&[("HOME", "/h")])
    );
}

#[test]
fn exec_command() {
    assert_eq!(
        build_exec_command(Some("ls -l".to_owned()), Some("/bin/zsh".to_owned())),
        vec!["/bin/sh", "-c", "ls -l"]
    );
    assert_eq!(
        build_exec_command(None, Some("/bin/zsh".to_owned())),
        vec!["/bin/sh", "-c", "/bin/zsh"]
    );
    assert_eq!(build_exec_command(None, None), vec!["/bin/sh", "-c", "/bin/sh"]);
}

#[test]
fn hex_texts() {
    assert_eq!(hex_text(0), "0");
    assert_eq!(hex_text(255), "ff");
    assert_eq!(hex_text(0x1234abcd), "1234abcd");
    assert_eq!(hex_text(u128::MAX), "ffffffffffffffffffffffffffffffff");
}

#[test]
fn exec_extra_env() {
    let vars = vec!["A=1".to_owned(), "B".to_owned(), "C=x=y".to_owned(), "A=2".to_owned()];
    let env: HashMap<String, String> =
        build_exec_extra_env(&vars, Some("r1".to_owned()), 42).into_iter().collect();
    assert_eq!(env.get("A").map(String::as_str), Some("2"));
    assert_eq!(env.get("B"), None);
    assert_eq!(env.get("C").map(String::as_str), Some("x=y"));
    assert_eq!(env.get("ASCIINEMA_RELAY_ID").map(String::as_str), Some("r1"));
    let id = format!("{:x}", fnv1a_128(b"42"));
    assert_eq!(env.get("ASCIINEMA_SESSION"), Some(&id));
    assert_eq!(env.len(), 4);
    let env2: HashMap<String, String> = build_exec_extra_env(&vec![], None, 42).into_iter().collect();
    assert_eq!(env2.len(), 1);
    assert_eq!(relay_id("wss://example.com/ws/x"), format!("{:x}", fnv1a_128(b"wss://example.com/ws/x")));
}

#[test]
fn session_key_bindings_from_config() {
    let k = session_keys(None, None, None).unwrap();
    assert_eq!(k.prefix, None);
    assert_eq!(k.pause, Some(vec![0x1c]));
    assert_eq!(k.add_marker, None);
    let k = session_keys(Some("^a".to_owned()), Some("".to_owned()), Some("m".to_owned())).unwrap();
    assert_eq!(k.prefix, Some(vec![0x01]));
    assert_eq!(k.pause, None);
    assert_eq!(k.add_marker, Some(vec![b'm']));
    assert!(matches!(
        session_keys(None, Some("xyz".to_owned()), Some("also bad".to_owned())),
        Err(e) if e == "invalid key definition 'xyz'"
    ));
}

#[test]
fn player_key_bindings_from_config() {
    let k = player_keys(None, None, None).unwrap();
    assert_eq!(k.quit, Some(vec![0x03]));
    assert_eq!(k.pause, Some(vec![b' ']));
    assert_eq!(k.step, Some(vec![b'.']));
    assert_eq!(k.step_back, Some(vec![b',']));
    assert_eq!(k.next_marker, Some(vec![b']']));
    let k = player_keys(Some("p".to_owned()), Some("C-s".to_owned()), None).unwrap();
    assert_eq!(k.pause, Some(vec![b'p']));
    assert_eq!(k.step, Some(vec![0x13]));
    assert!(player_keys(None, None, Some("^1".to_owned())).is_err());
}

#[test]
fn refuses_to_stream_the_streaming_shell() {
    let id = Some("abc".to_owned());
    let url = Some("https://asciinema.org/s/x".to_owned());
    assert_eq!(
        asciinema::cmd::session::already_streamed_error(&id, &id, &url),
        Some("This shell is already being streamed at https://asciinema.org/s/x".to_owned())
    );
    assert_eq!(
        asciinema::cmd::session::already_streamed_error(&id, &id, &None),
        Some("This shell is already being streamed".to_owned())
    );
    assert_eq!(
        asciinema::cmd::session::already_streamed_error(&id, &Some("def".to_owned()), &url),
        None
    );
    assert_eq!(asciinema::cmd::session::already_streamed_error(&None, &None, &url), None);
}

#[test]
fn empty_decoded_text_records_nothing() {
    assert_eq!(input_event(5, String::new()), None);
    assert_eq!(input_event(5, "ls".to_owned()), Some(Event::Input(5, "ls".to_owned())));
    assert_eq!(output_event(7, String::new()), None);
    assert_eq!(output_event(7, "ok".to_owned()), Some(Event::Output(7, "ok".to_owned())));
}
