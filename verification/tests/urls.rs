use asciinema::cli::{validate_forward_target, RelayTarget};
use asciinema::cmd::stream::build_producer_url;
use asciinema::config::parse_server_url;

#[test]
fn forward_targets() {
    assert_eq!(
        validate_forward_target("  wss://relay.example/ws/abc "),
        Ok(RelayTarget::WsProducerUrl("wss://relay.example/ws/abc".to_owned()))
    );
    assert_eq!(
        validate_forward_target("ws://localhost:8080/"),
        Ok(RelayTarget::WsProducerUrl("ws://localhost:8080/".to_owned()))
    );
    assert_eq!(
        validate_forward_target("https://asciinema.org/s/x"),
        Err("must be a WebSocket URL (ws:// or wss://)".to_owned())
    );
    assert_eq!(
        validate_forward_target("abc123"),
        Ok(RelayTarget::StreamId("abc123".to_owned()))
    );
    assert_eq!(
        validate_forward_target("ws://[::1"),
        Err("invalid IPv6 address".to_owned())
    );
}

#[test]
fn server_urls() {
    assert_eq!(
        parse_server_url("https://asciinema.org"),
        Ok("https://asciinema.org/".to_owned())
    );
    assert_eq!(
        parse_server_url("mailto:someone@example.com"),
        Err("server URL is missing a host".to_owned())
    );
    assert_eq!(
        parse_server_url("asciinema.org"),
        Err("relative URL without a base".to_owned())
    );
}

#[test]
fn producer_urls() {
    assert_eq!(
        build_producer_url(
            "wss://r.example/ws?x=1",
            Some("xterm-256color".to_owned()),
            Some("/bin/bash".to_owned())
        ),
        Ok("wss://r.example/ws?term%5Btype%5D=xterm-256color&shell=%2Fbin%2Fbash&env%5BTERM%5D=xterm-256color&env%5BSHELL%5D=%2Fbin%2Fbash".to_owned())
    );
    assert_eq!(
        build_producer_url("wss://r.example/ws", Some("".to_owned()), Some("sh".to_owned())),
        Ok("wss://r.example/ws?shell=sh&env%5BSHELL%5D=sh".to_owned())
    );
    assert_eq!(
        build_producer_url("wss://r.example/ws", Some("a b*\u{e9}".to_owned()), None),
        Ok("wss://r.example/ws?term%5Btype%5D=a+b*%C3%A9&env%5BTERM%5D=a+b*%C3%A9".to_owned())
    );
    assert_eq!(
        build_producer_url("wss://r.example/ws", None, None),
        Ok("wss://r.example/ws?".to_owned())
    );
    assert_eq!(
        build_producer_url("not a url", None, None),
        Err("relative URL without a base".to_owned())
    );
}
