use px2ansi_rs::encode::encode;
use px2ansi_rs::grid::Pixel;

#[test]
fn encode_both_transparent_is_reset_space() {
    let top = Pixel::new(12, 34, 56, 0);
    let bot = Pixel::new(78, 90, 12, 0);
    assert_eq!(encode(top, bot), "\u{1b}[0m ".as_bytes().to_vec());
}

#[test]
fn encode_both_visible_sets_foreground_and_background() {
    let top = Pixel::new(1, 2, 3, 255);
    let bot = Pixel::new(200, 100, 0, 7);
    assert_eq!(
        encode(top, bot),
        "\u{1b}[38;2;1;2;3m\u{1b}[48;2;200;100;0m\u{2580}".as_bytes().to_vec()
    );
}

#[test]
fn encode_top_only_resets_background() {
    let top = Pixel::new(255, 255, 255, 1);
    let bot = Pixel::new(9, 9, 9, 0);
    assert_eq!(
        encode(top, bot),
        "\u{1b}[38;2;255;255;255m\u{1b}[49m\u{2580}".as_bytes().to_vec()
    );
}

#[test]
fn encode_bottom_only_uses_lower_half_block() {
    let top = Pixel::new(9, 9, 9, 0);
    let bot = Pixel::new(0, 128, 255, 200);
    assert_eq!(
        encode(top, bot),
        "\u{1b}[38;2;0;128;255m\u{1b}[49m\u{2584}".as_bytes().to_vec()
    );
}

#[test]
fn encode_writes_unpadded_decimal_channels() {
    let top = Pixel::new(0, 9, 10, 255);
    let bot = Pixel::new(99, 100, 255, 255);
    assert_eq!(
        encode(top, bot),
        "\u{1b}[38;2;0;9;10m\u{1b}[48;2;99;100;255m\u{2580}".as_bytes().to_vec()
    );
}

#[test]
fn encode_any_nonzero_alpha_is_opaque() {
    let faint = Pixel::new(50, 60, 70, 1);
    let strong = Pixel::new(50, 60, 70, 255);
    let bot = Pixel::new(0, 0, 0, 0);
    assert_eq!(encode(faint, bot), encode(strong, bot));
}
