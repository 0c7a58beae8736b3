use asciinema::tty::{FixedSizeTty, NullTty, RawTty, TtySize, Winsize};

#[test]
fn fixed_size_tty_get_size() {
    let tty = FixedSizeTty::new(NullTty, Some(100), Some(50));
    let winsize = tty.get_size();
    assert!(winsize.ws_col == 100);
    assert!(winsize.ws_row == 50);

    let tty = FixedSizeTty::new(NullTty, Some(100), None);
    let winsize = tty.get_size();
    assert!(winsize.ws_col == 100);
    assert!(winsize.ws_row == 24);

    let tty = FixedSizeTty::new(NullTty, None, None);
    let winsize = tty.get_size();
    assert!(winsize.ws_col == 80);
    assert!(winsize.ws_row == 24);
}

#[test]
fn default_size() {
    assert_eq!(TtySize::default(), TtySize(80, 24));
}

struct PixelTty;

impl RawTty for PixelTty {
    fn spec_size(&self) -> Winsize {
        self.get_size()
    }

    fn get_size(&self) -> Winsize {
        Winsize { ws_row: 30, ws_col: 90, ws_xpixel: 900, ws_ypixel: 600 }
    }
}

#[test]
fn fixed_size_tty_keeps_pixel_size() {
    let tty = FixedSizeTty::new(PixelTty, Some(100), None);
    assert_eq!(
        tty.get_size(),
        Winsize { ws_row: 30, ws_col: 100, ws_xpixel: 900, ws_ypixel: 600 }
    );
}
