use asciinema::html::extract_asciicast_link;

    #[test]
    fn extract_asciicast_link_valid_html() {
        let html = r#"
        <html>
        <head>
            <title>Test</title>
            <link rel="alternate" type="application/x-asciicast" href="https://example.com/demo.cast">
        </head>
        <body>Content</body>
        </html>
        "#;

        assert_eq!(
            extract_asciicast_link(html),
            Some("https://example.com/demo.cast".to_string())
        );
    }

    #[test]
    fn extract_asciicast_link_alternate_mime_type() {
        let html = r#"
        <html>
        <head>
            <link rel="alternate" type="application/asciicast+json" href="/demo.json">
        </head>
        </html>
        "#;

        assert_eq!(extract_asciicast_link(html), Some("/demo.json".to_string()));
    }

    #[test]
    fn extract_asciicast_link_multiple_rel_values() {
        let html = r#"
        <html>
        <head>
            <link rel="foobar alternate" type="application/x-asciicast" href="demo.cast">
        </head>
        </html>
        "#;

        assert_eq!(extract_asciicast_link(html), Some("demo.cast".to_string()));
    }

    #[test]
    fn extract_asciicast_link_case_insensitive() {
        let html = r#"
        <HTML>
        <HEAD>
            <LINK REL="ALTERNATE" TYPE="APPLICATION/X-ASCIICAST" HREF="DEMO.CAST">
        </HEAD>
        </HTML>
        "#;

        assert_eq!(extract_asciicast_link(html), Some("DEMO.CAST".to_string()));
    }

    #[test]
    fn extract_asciicast_link_single_quotes() {
        let html = r#"
        <html>
        <head>
            <link rel='alternate' type='application/x-asciicast' href='demo.cast'>
        </head>
        </html>
        "#;

        assert_eq!(extract_asciicast_link(html), Some("demo.cast".to_string()));
    }

    #[test]
    fn extract_asciicast_link_mixed_quotes() {
        let html = r#"
        <html>
        <head>
            <link rel="alternate" type='application/x-asciicast' href="demo.cast">
        </head>
        </html>
        "#;

        assert_eq!(extract_asciicast_link(html), Some("demo.cast".to_string()));
    }

    #[test]
    fn extract_asciicast_link_multiple_links() {
        let html = r#"
        <html>
        <head>
            <link rel="stylesheet" href="style.css">
            <link rel="alternate" type="application/rss+xml" href="feed.rss">
            <link rel="alternate" type="application/x-asciicast" href="first.cast">
            <link rel="alternate" type="application/x-asciicast" href="second.cast">
        </head>
        </html>
        "#;

        assert_eq!(extract_asciicast_link(html), Some("first.cast".to_string()));
    }

    #[test]
    fn extract_asciicast_link_no_head() {
        let html = r#"
        <html>
        <body>
            <link rel="alternate" type="application/x-asciicast" href="demo.cast">
        </body>
        </html>
        "#;

        assert_eq!(extract_asciicast_link(html), None);
    }

    #[test]
    fn extract_asciicast_link_no_matching_link() {
        let html = r#"
        <html>
        <head>
            <link rel="stylesheet" href="style.css">
            <link rel="alternate" type="application/rss+xml" href="feed.rss">
        </head>
        </html>
        "#;

        assert_eq!(extract_asciicast_link(html), None);
    }

    #[test]
    fn extract_asciicast_link_wrong_rel() {
        let html = r#"
        <html>
        <head>
            <link rel="stylesheet" type="application/x-asciicast" href="demo.cast">
        </head>
        </html>
        "#;

        assert_eq!(extract_asciicast_link(html), None);
    }

    #[test]
    fn extract_asciicast_link_wrong_type() {
        let html = r#"
        <html>
        <head>
            <link rel="alternate" type="text/plain" href="demo.cast">
        </head>
        </html>
        "#;

        assert_eq!(extract_asciicast_link(html), None);
    }

    #[test]
    fn extract_asciicast_link_no_href() {
        let html = r#"
        <html>
        <head>
            <link rel="alternate" type="application/x-asciicast">
        </head>
        </html>
        "#;

        assert_eq!(extract_asciicast_link(html), None);
    }

    #[test]
    fn extract_asciicast_link_empty_href() {
        let html = r#"
        <html>
        <head>
            <link rel="alternate" type="application/x-asciicast" href="">
        </head>
        </html>
        "#;

        assert_eq!(extract_asciicast_link(html), None);
    }

    #[test]
    fn extract_asciicast_link_malformed_html() {
        let html = r#"
        <html>
        <head>
            <link rel="alternate" type="application/x-asciicast" href="demo.cast"
        </head>
        </html>
        "#;

        assert_eq!(extract_asciicast_link(html), None);
    }

    #[test]
    fn extract_asciicast_link_empty_html() {
        assert_eq!(extract_asciicast_link(""), None);
    }

    #[test]
    fn extract_asciicast_link_invalid_html() {
        let html = "This is not HTML at all";
        assert_eq!(extract_asciicast_link(html), None);
    }

    #[test]
    fn extract_asciicast_link_special_characters_in_href() {
        let html = r#"
        <html>
        <head>
            <link rel="alternate" type="application/x-asciicast" href="https://example.com/cast?id=123&format=v3">
        </head>
        </html>
        "#;

        assert_eq!(
            extract_asciicast_link(html),
            Some("https://example.com/cast?id=123&format=v3".to_string())
        );
    }

#[test]
fn extract_asciicast_link_href_with_whitespace_before_quote() {
    let html = "<head><link rel = \"alternate\" type= \"application/x-asciicast\" href=  'a.cast'></head>";
    assert_eq!(extract_asciicast_link(html), None);
    let html = "<head><link rel=\"alternate\" type=\"application/x-asciicast\" href=  'a.cast'></head>";
    assert_eq!(extract_asciicast_link(html), Some("a.cast".to_string()));
}

#[test]
fn extract_asciicast_link_unquoted_value_is_ignored() {
    let html = "<head><link rel=alternate type=\"application/x-asciicast\" href=\"a.cast\"></head>";
    assert_eq!(extract_asciicast_link(html), None);
}

#[test]
fn extract_asciicast_link_non_ascii_page() {
    let html = "<html><head><title>żółć 🌍</title><link rel=\"alternate\" type=\"application/x-asciicast\" href=\"ż.cast\"></head></html>";
    assert_eq!(extract_asciicast_link(html), Some("ż.cast".to_string()));
}
