use asciinema::server::{digest_path, etag_matches, hex_encode, mime_from_path, rewrite_index_html};

#[test]
fn mime_types_by_extension() {
    assert_eq!(mime_from_path("index.html"), "text/html");
    assert_eq!(mime_from_path("App.JS"), "text/javascript");
    assert_eq!(mime_from_path("a/b.css"), "text/css");
    assert_eq!(mime_from_path("fonts/x.woff2"), "font/woff2");
    assert_eq!(mime_from_path("x.png"), "application/octet-stream");
    assert_eq!(mime_from_path("noext"), "application/octet-stream");
    assert_eq!(mime_from_path(".html"), "application/octet-stream");
}

#[test]
fn digest_paths() {
    assert_eq!(digest_path("app.js", "abc"), Some("app.abc.js".to_owned()));
    assert_eq!(digest_path("a.b.c", "h"), Some("a.b.h.c".to_owned()));
    assert_eq!(digest_path("favicon", "h"), Some("favicon.h".to_owned()));
    assert_eq!(digest_path("index.html", "h"), None);
}

#[test]
fn hex_encoding() {
    assert_eq!(hex_encode(&[0, 255, 16, 0xab]), "00ff10ab");
    assert_eq!(hex_encode(&[]), "");
}

#[test]
fn index_rewrite_replaces_longest_paths_first() {
    let html = "<script src=\"lib/a.js\"></script><script src=\"a.js\"></script>".to_owned();
    let mappings = vec![
        ("a.js".to_owned(), "a.X.js".to_owned()),
        ("lib/a.js".to_owned(), "lib/a.Y.js".to_owned()),
    ];
    assert_eq!(
        rewrite_index_html(html, mappings),
        "<script src=\"lib/a.Y.js\"></script><script src=\"a.X.js\"></script>"
    );
}

#[test]
fn etag_matching() {
    let etag = "W/\"0123\"";
    assert!(!etag_matches(None, etag));
    assert!(etag_matches(Some("\"0123\""), etag));
    assert!(etag_matches(Some("W/\"zz\", W/\"0123\""), etag));
    assert!(etag_matches(Some(" * "), etag));
    assert!(etag_matches(Some("W/W/\"0123\""), etag));
    assert!(!etag_matches(Some("\"zz\""), etag));
    assert!(!etag_matches(Some(""), etag));
}

#[test]
fn rewrite_replaces_matches_from_the_front_without_overlaps() {
    let html = "aaa|aaaa".to_owned();
    let mappings = vec![("aa".to_owned(), "X".to_owned())];

    assert_eq!(rewrite_index_html(html, mappings), "Xa|XX");
}

#[test]
fn rewrite_with_an_empty_path_surrounds_each_character() {
    let mappings = vec![("".to_owned(), "-".to_owned())];

    assert_eq!(rewrite_index_html("ab".to_owned(), mappings), "-a-b-");
}
