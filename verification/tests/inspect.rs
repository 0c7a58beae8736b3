use asciinema::tty::inspect;
use asciinema::tty::inspect::{ParseResult, ReplyParser};
use asciinema::tty::{TtyTheme, RGB8};

const FG_RESP: &[u8] = b"\x1b]10;rgb:1122/3344/5566\x07";
const BG_RESP: &[u8] = b"\x1b]11;rgb:7788/99aa/bbcc\x07";
const DA_RESP: &[u8] = b"\x1b[?1;2c";
const XTVERSION_RESP: &[u8] = b"\x1bP>|xterm-395\x1b\\";

fn palette_resp() -> Vec<u8> {
    let parts: [&[u8]; 16] = [
        b"\x1b]4;0;rgb:0000/1111/2222\x07",
        b"\x1b]4;1;rgb:3333/4444/5555\x07",
        b"\x1b]4;2;rgb:6666/7777/8888\x07",
        b"\x1b]4;3;rgb:9999/aaaa/bbbb\x07",
        b"\x1b]4;4;rgb:cccc/dddd/eeee\x07",
        b"\x1b]4;5;rgb:ffff/0000/1111\x07",
        b"\x1b]4;6;rgb:2222/3333/4444\x07",
        b"\x1b]4;7;rgb:5555/6666/7777\x07",
        b"\x1b]4;8;rgb:8888/9999/aaaa\x07",
        b"\x1b]4;9;rgb:bbbb/cccc/dddd\x07",
        b"\x1b]4;10;rgb:eeee/ffff/0000\x07",
        b"\x1b]4;11;rgb:1111/2222/3333\x07",
        b"\x1b]4;12;rgb:4444/5555/6666\x07",
        b"\x1b]4;13;rgb:7777/8888/9999\x07",
        b"\x1b]4;14;rgb:aaaa/bbbb/cccc\x07",
        b"\x1b]4;15;rgb:dddd/eeee/ffff\x07",
    ];
    parts.concat()
}

fn feed_chunks(chunks: &[&[u8]]) -> (Option<String>, Option<TtyTheme>, bool) {
    let mut parser = ReplyParser::new();

    for chunk in chunks {
        if let ParseResult::Done = parser.feed(chunk) {
            let (version, theme) = parser.result();
            return (version, theme, true);
        }
    }

    let (version, theme) = parser.result();

    (version, theme, false)
}

#[test]
fn parse_rgb_color() {
    let parse = inspect::parse_rgb_color;
    let color = Some(RGB8::new(0xaa, 0xbb, 0xcc));

    assert_eq!(parse(b"rgb:aa11/bb22/cc33"), color);
    assert_eq!(parse(b"rgb:aa11/bb22/cc33\x07"), color);
    assert_eq!(parse(b"rgb:aa11/bb22/cc33\x1b\\"), color);
    assert_eq!(parse(b"rgb:aa11/bb22/cc33.."), color);
    assert_eq!(parse(b"rgb:aa1/bb2/cc3"), color);
    assert_eq!(parse(b"rgb:aa1/bb2/cc3\x07"), color);
    assert_eq!(parse(b"rgb:aa1/bb2/cc3\x1b\\"), color);
    assert_eq!(parse(b"rgb:aa1/bb2/cc3.."), color);
    assert_eq!(parse(b"rgb:aa/bb/cc"), color);
    assert_eq!(parse(b"rgb:aa/bb/cc\x07"), color);
    assert_eq!(parse(b"rgb:aa/bb/cc\x1b\\"), color);
    assert_eq!(parse(b"rgb:aa/bb/cc.."), color);
    assert_eq!(parse(b"rgb:aa11/bb22"), None);
    assert_eq!(parse(b"rgb:xxxx/yyyy/zzzz"), None);
    assert_eq!(parse(b"rgb:xxx/yyy/zzz"), None);
    assert_eq!(parse(b"rgb:xx/yy/zz"), None);
    assert_eq!(parse(b"foo"), None);
    assert_eq!(parse(b""), None);
}

#[test]
fn parse_palette_entries() {
    let parse = inspect::parse_palette_entries;

    // Valid entries
    let entries = parse(b"0;rgb:0000/1111/2222;1;rgb:3333/4444/5555");
    assert_eq!(entries.len(), 2);
    assert_eq!(entries[0], (0, RGB8::new(0x00, 0x11, 0x22)));
    assert_eq!(entries[1], (1, RGB8::new(0x33, 0x44, 0x55)));

    // Index >= 16 is ignored
    let entries = parse(b"16;rgb:3333/4444/5555");
    assert_eq!(entries.len(), 0);

    // Invalid index stops parsing
    let entries = parse(b"0;rgb:0000/1111/2222;xx;rgb:ffff/eeee/dddd");
    assert_eq!(entries.len(), 1);
    assert_eq!(entries[0], (0, RGB8::new(0x00, 0x11, 0x22)));

    // Empty input
    let entries = parse(b"");
    assert_eq!(entries.len(), 0);
}

#[test]
fn parser_version_only() {
    // Just XTVERSION response, no theme
    let (version, theme, done) = feed_chunks(&[XTVERSION_RESP]);

    assert!(!done); // not done because no DA response
    assert!(theme.is_none());
    assert_eq!(version, Some("xterm-395".to_string()));

    // XTVERSION response with DA
    let (version, theme, done) = feed_chunks(&[XTVERSION_RESP, DA_RESP]);
    assert!(done);
    assert!(theme.is_none());
    assert_eq!(version, Some("xterm-395".to_string()));

    // No XTVERSION response at all
    let (version, theme, done) = feed_chunks(&[b""]);
    assert!(!done);
    assert!(theme.is_none());
    assert!(version.is_none());
}

#[test]
fn parser_theme_only() {
    // Theme with out-of-order palette and mixed terminators (BEL and ST)
    let (version, theme, done) = feed_chunks(&[
        b"\x1b]4;1;rgb:3333/4444/5555\x07",   // index 1 first
        b"\x1b]4;0;rgb:0000/1111/2222\x1b\\", // index 0 with ST terminator
        b"\x1b]4;2;rgb:6666/7777/8888\x07",
        b"\x1b]4;3;rgb:9999/aaaa/bbbb\x07",
        b"\x1b]4;4;rgb:cccc/dddd/eeee\x07",
        b"\x1b]4;5;rgb:ffff/0000/1111\x07",
        b"\x1b]4;6;rgb:2222/3333/4444\x07",
        b"\x1b]4;7;rgb:5555/6666/7777\x07",
        b"\x1b]4;8;rgb:8888/9999/aaaa\x07",
        b"\x1b]4;9;rgb:bbbb/cccc/dddd\x07",
        b"\x1b]4;10;rgb:eeee/ffff/0000\x07",
        b"\x1b]4;11;rgb:1111/2222/3333\x07",
        b"\x1b]4;12;rgb:4444/5555/6666\x07",
        b"\x1b]4;13;rgb:7777/8888/9999\x07",
        b"\x1b]4;14;rgb:aaaa/bbbb/cccc\x07",
        b"\x1b]4;15;rgb:dddd/eeee/ffff\x07",
        b"\x1b]10;rgb:1122/3344/5566\x1b\\", // fg with ST
        BG_RESP,
        DA_RESP,
    ]);

    let theme = theme.expect("theme should be present");

    assert!(done);
    assert!(version.is_none());
    assert_eq!(theme.fg, RGB8::new(0x11, 0x33, 0x55));
    assert_eq!(theme.bg, RGB8::new(0x77, 0x99, 0xbb));
    assert_eq!(theme.palette.len(), 16);
    assert_eq!(theme.palette[0], RGB8::new(0x00, 0x11, 0x22));
    assert_eq!(theme.palette[1], RGB8::new(0x33, 0x44, 0x55));
    assert_eq!(theme.palette[15], RGB8::new(0xdd, 0xee, 0xff));
}

#[test]
fn parser_version_and_theme() {
    // The happy path: both version and theme in one response
    let palette = palette_resp();
    let (version, theme, done) = feed_chunks(&[
        b"\x1bP>|foot(1.22.0)\x1b\\",
        &palette,
        FG_RESP,
        BG_RESP,
        DA_RESP,
    ]);

    let theme = theme.expect("theme should be present");

    assert!(done);
    assert_eq!(version, Some("foot(1.22.0)".to_string()));
    assert_eq!(theme.fg, RGB8::new(0x11, 0x33, 0x55));
    assert_eq!(theme.bg, RGB8::new(0x77, 0x99, 0xbb));
    assert_eq!(theme.palette.len(), 16);
}

#[test]
fn parser_packed_palette() {
    // OSC 4 with multiple colors per response
    let (version, theme, done) = feed_chunks(&[
        b"\x1b]4;0;rgb:0000/1111/2222;1;rgb:3333/4444/5555;2;rgb:6666/7777/8888\x07",
        b"\x1b]4;3;rgb:9999/aaaa/bbbb;4;rgb:cccc/dddd/eeee;5;rgb:ffff/0000/1111\x07",
        b"\x1b]4;6;rgb:2222/3333/4444;7;rgb:5555/6666/7777;8;rgb:8888/9999/aaaa\x07",
        b"\x1b]4;9;rgb:bbbb/cccc/dddd;10;rgb:eeee/ffff/0000;11;rgb:1111/2222/3333\x07",
        b"\x1b]4;12;rgb:4444/5555/6666;13;rgb:7777/8888/9999;14;rgb:aaaa/bbbb/cccc;15;rgb:dddd/eeee/ffff\x07",
        FG_RESP,
        BG_RESP,
        DA_RESP,
    ]);

    let theme = theme.expect("theme should be present");

    assert!(done);
    assert!(version.is_none());
    assert_eq!(theme.fg, RGB8::new(0x11, 0x33, 0x55));
    assert_eq!(theme.bg, RGB8::new(0x77, 0x99, 0xbb));
    assert_eq!(theme.palette.len(), 16);
    assert_eq!(theme.palette[0], RGB8::new(0x00, 0x11, 0x22));
    assert_eq!(theme.palette[15], RGB8::new(0xdd, 0xee, 0xff));
}

#[test]
fn parser_chunked_response() {
    // Response split across multiple feed() calls at awkward boundaries
    let chunks = [
        b"\x1bP>|xterm-".as_slice(), // version split mid-string
        b"395\x1b".as_slice(),       // escape without backslash
        b"\\\x1b]10;rgb:1122/3344/5566\x1b".as_slice(), // OSC 10 with partial ST
        b"\\\x1b]4;0;rgb:0000/1111/2222;".as_slice(), // packed palette, split mid-entry
        b"1;rgb:3333/4444/5555;2;rgb:6666/7777/8888\x07".as_slice(),
        b"\x1b]4;3;rgb:9999/aaaa/bbbb\x07".as_slice(),
        b"\x1b]4;4;rgb:cccc/dd".as_slice(), // color split mid-value
        b"dd/eeee\x07".as_slice(),
        b"\x1b]4;5;rgb:ffff/0000/1111\x07".as_slice(),
        b"\x1b]4;6;rgb:2222/3333/4444\x07".as_slice(),
        b"\x1b]4;7;rgb:5555/6666/7777\x07".as_slice(),
        b"\x1b]4;8;rgb:8888/9999/aaaa\x07".as_slice(),
        b"\x1b]4;9;rgb:bbbb/cccc/dddd\x07".as_slice(),
        b"\x1b]4;10;rgb:eeee/ffff/0000\x07".as_slice(),
        b"\x1b]4;11;rgb:1111/2222/3333\x07".as_slice(),
        b"\x1b]4;12;rgb:4444/5555/6666\x07".as_slice(),
        b"\x1b]4;13;rgb:7777/8888/9999\x07".as_slice(),
        b"\x1b]4;14;rgb:aaaa/bbbb/cccc\x07".as_slice(),
        b"\x1b]4;15;rgb:dddd/eeee/ffff\x07".as_slice(),
        b"\x1b]11;rgb:7788/99aa/bbcc\x07".as_slice(),
        DA_RESP,
    ];

    let (version, theme, done) = feed_chunks(&chunks);
    let theme = theme.expect("theme should be present");

    assert!(done);
    assert_eq!(version, Some("xterm-395".to_string()));
    assert_eq!(theme.fg, RGB8::new(0x11, 0x33, 0x55));
    assert_eq!(theme.bg, RGB8::new(0x77, 0x99, 0xbb));
    assert_eq!(theme.palette.len(), 16);
}

#[test]
fn parser_garbage_ignored() {
    // Unknown sequences between valid ones should be skipped
    let palette = palette_resp();
    let (version, theme, done) = feed_chunks(&[
        b"\x1b[?25h",            // DECSET (ignored)
        b"\x1bP>|ghostty\x1b\\", // version
        b"\x1b[>0;1;2c",         // DA2 response (ignored)
        b"random garbage",       // plain text (ignored)
        &palette,
        FG_RESP,
        BG_RESP,
        DA_RESP,
    ]);

    let theme = theme.expect("theme should be present");

    assert!(done);
    assert_eq!(version, Some("ghostty".to_string()));
    assert_eq!(theme.fg, RGB8::new(0x11, 0x33, 0x55));
    assert_eq!(theme.bg, RGB8::new(0x77, 0x99, 0xbb));
    assert_eq!(theme.palette.len(), 16);
}

#[test]
fn parser_incomplete_theme() {
    let palette = palette_resp();

    // Missing fg -> theme is None
    let (_version, theme, done) = feed_chunks(&[
        &palette,
        BG_RESP, // only bg, no fg
        DA_RESP,
    ]);

    assert!(done);
    assert!(theme.is_none());

    // Missing palette -> theme is None
    let (_version, theme, done) = feed_chunks(&[FG_RESP, BG_RESP, DA_RESP]);
    assert!(done);
    assert!(theme.is_none());

    // Partial palette (only 8 colors) -> theme is None
    let partial_palette: Vec<u8> = [
        b"\x1b]4;0;rgb:0000/1111/2222\x07".as_slice(),
        b"\x1b]4;1;rgb:3333/4444/5555\x07",
        b"\x1b]4;2;rgb:6666/7777/8888\x07",
        b"\x1b]4;3;rgb:9999/aaaa/bbbb\x07",
        b"\x1b]4;4;rgb:cccc/dddd/eeee\x07",
        b"\x1b]4;5;rgb:ffff/0000/1111\x07",
        b"\x1b]4;6;rgb:2222/3333/4444\x07",
        b"\x1b]4;7;rgb:5555/6666/7777\x07",
    ]
    .concat();

    let (_version, theme, done) = feed_chunks(&[&partial_palette, FG_RESP, BG_RESP, DA_RESP]);

    assert!(done);
    assert!(theme.is_none());
}

#[test]
fn parser_keeps_incomplete_reply_buffered() {
    // The same replies fed whole and byte by byte give the same result.
    let mut whole: Vec<u8> = Vec::new();
    whole.extend_from_slice(XTVERSION_RESP);
    whole.extend_from_slice(&palette_resp());
    whole.extend_from_slice(FG_RESP);
    whole.extend_from_slice(BG_RESP);
    whole.extend_from_slice(DA_RESP);

    let bytes: Vec<&[u8]> = whole.chunks(1).collect();
    let (version, theme, done) = feed_chunks(&bytes);
    let theme = theme.expect("theme should be present");

    assert!(done);
    assert_eq!(version, Some("xterm-395".to_string()));
    assert_eq!(theme.palette[3], RGB8::new(0x99, 0xaa, 0xbb));

    let (version2, theme2, done2) = feed_chunks(&[&whole]);
    assert!(done2);
    assert_eq!(version2, version);
    assert_eq!(theme2.unwrap().palette, theme.palette);
}

#[test]
fn parser_unterminated_dec_reply_is_not_done() {
    let (_version, theme, done) = feed_chunks(&[b"\x1b[?1;2"]);
    assert!(!done);
    assert!(theme.is_none());
}

#[test]
fn parser_palette_ordered_by_index_last_report_wins() {
    let mut entries: Vec<u8> = Vec::new();
    entries.extend_from_slice(b"\x1b]4;5;rgb:0101/0202/0303\x07");
    for i in (0..16).rev() {
        entries.extend_from_slice(format!("\x1b]4;{};rgb:{:02x}00/0000/0000\x07", i, i).as_bytes());
    }
    entries.extend_from_slice(b"\x1b]4;7;rgb:aaaa/bbbb/cccc\x07");
    let (_, theme, done) = feed_chunks(&[FG_RESP, BG_RESP, &entries, DA_RESP]);
    let theme = theme.expect("theme should be present");

    assert!(done);
    assert_eq!(theme.palette.len(), 16);
    for i in 0..16u8 {
        let expected = if i == 7 { RGB8::new(0xaa, 0xbb, 0xcc) } else { RGB8::new(i, 0, 0) };
        assert_eq!(theme.palette[i as usize], expected);
    }
}
