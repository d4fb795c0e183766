use px2ansi_rs::grid::{Pixel, PixelGrid};
use px2ansi_rs::render::render;

fn solid(r: u8, g: u8, b: u8) -> Pixel {
    Pixel::new(r, g, b, 255)
}

fn clear() -> Pixel {
    Pixel::new(0, 0, 0, 0)
}

#[test]
fn render_zero_height_is_empty() {
    let g = PixelGrid::new(3, 0, vec![]).unwrap();
    assert_eq!(render(&g), Vec::<u8>::new());
}

#[test]
fn render_zero_width_is_empty() {
    let g = PixelGrid::new(0, 4, vec![]).unwrap();
    assert_eq!(render(&g), Vec::<u8>::new());
}

#[test]
fn render_single_red_pixel() {
    let g = PixelGrid::new(1, 1, vec![solid(255, 0, 0)]).unwrap();
    assert_eq!(
        render(&g),
        "\u{1b}[38;2;255;0;0m\u{1b}[49m\u{2580}\u{1b}[0m\n".as_bytes().to_vec()
    );
}

#[test]
fn render_two_by_two_with_transparent_column() {
    let g = PixelGrid::new(
        2,
        2,
        vec![solid(0, 0, 255), clear(), solid(0, 255, 0), clear()],
    )
    .unwrap();
    assert_eq!(
        render(&g),
        "\u{1b}[38;2;0;0;255m\u{1b}[48;2;0;255;0m\u{2580}\u{1b}[0m \u{1b}[0m\n"
            .as_bytes()
            .to_vec()
    );
}

#[test]
fn render_odd_height_rows_and_last_row() {
    let g = PixelGrid::new(
        1,
        3,
        vec![solid(10, 20, 30), solid(40, 50, 60), solid(70, 80, 90)],
    )
    .unwrap();
    let text = String::from_utf8(render(&g)).unwrap();
    let rows: Vec<&str> = text.split_terminator('\n').collect();
    assert_eq!(rows.len(), 2);
    assert_eq!(rows[0], "\u{1b}[38;2;10;20;30m\u{1b}[48;2;40;50;60m\u{2580}\u{1b}[0m");
    assert_eq!(rows[1], "\u{1b}[38;2;70;80;90m\u{1b}[49m\u{2580}\u{1b}[0m");
    assert!(!rows[1].contains("\u{1b}[48"));
    assert!(!rows[1].contains('\u{2584}'));
}

#[test]
fn render_bottom_only_pair_uses_lower_half_block() {
    let g = PixelGrid::new(1, 2, vec![clear(), solid(5, 6, 7)]).unwrap();
    assert_eq!(
        render(&g),
        "\u{1b}[38;2;5;6;7m\u{1b}[49m\u{2584}\u{1b}[0m\n".as_bytes().to_vec()
    );
}

#[test]
fn render_odd_height_transparent_last_pixel_is_space() {
    let g = PixelGrid::new(1, 1, vec![clear()]).unwrap();
    assert_eq!(render(&g), "\u{1b}[0m \u{1b}[0m\n".as_bytes().to_vec());
}

#[test]
fn render_is_deterministic() {
    let g = PixelGrid::new(
        2,
        3,
        vec![
            solid(1, 2, 3),
            clear(),
            clear(),
            solid(4, 5, 6),
            solid(7, 8, 9),
            Pixel::new(10, 11, 12, 1),
        ],
    )
    .unwrap();
    assert_eq!(render(&g), render(&g));
}

#[test]
fn grid_new_rejects_wrong_length() {
    assert!(PixelGrid::new(2, 2, vec![clear(); 3]).is_none());
}

#[test]
fn grid_get_is_row_major() {
    let g = PixelGrid::new(
        2,
        2,
        vec![solid(1, 0, 0), solid(2, 0, 0), solid(3, 0, 0), solid(4, 0, 0)],
    )
    .unwrap();
    assert_eq!(g.get(1, 0), solid(2, 0, 0));
    assert_eq!(g.get(0, 1), solid(3, 0, 0));
}
