use exploration::content::{
    digits_of, BannerWindowContent, MapWindowContent, SkullWindowContent, StatWindowContent,
    WindowContent,
};
use exploration::game::Game;
use exploration::image::{graphics, RawImage, TerminalImage};
use exploration::screen::{clip_image, create_borders, ScreenWrite, TerminalScreen};

fn digit_sprite_9x9() -> RawImage {
    // 81 distinct-per-column characters: row r is "0".."8" shifted by r
    let mut gfx = Vec::new();
    for r in 0..9u32 {
        for c in 0..9u32 {
            gfx.push(char::from_digit((r + c) % 10, 10).unwrap());
        }
    }
    RawImage { gfx, rows: 9, cols: 9 }
}

fn text_of(w: &ScreenWrite) -> String {
    w.text.iter().collect()
}

#[test]
fn clipping_left_edge_keeps_six_columns() {
    // a 9 by 9 sprite at local (-3, 0) in a 30-column viewport: each row
    // keeps exactly 6 characters, columns 3..9, written at the window's x
    let raw = digit_sprite_9x9();
    let img = TerminalImage::new(&raw, -3, 0);
    let mut out: Vec<ScreenWrite> = Vec::new();
    clip_image(&img, 13, 30, 24, 6, &mut out);
    assert_eq!(out.len(), 9);
    for (i, w) in out.iter().enumerate() {
        assert_eq!(w.text.len(), 6);
        assert_eq!(w.x, 24);
        assert_eq!(w.y, 6 + i);
        let row: String = raw.gfx[i * 9 + 3..i * 9 + 9].iter().collect();
        assert_eq!(text_of(w), row);
    }
}

#[test]
fn clipping_fully_contained_sprite_is_identity() {
    let raw = digit_sprite_9x9();
    let img = TerminalImage::new(&raw, 2, 1);
    let mut out: Vec<ScreenWrite> = Vec::new();
    clip_image(&img, 13, 30, 24, 6, &mut out);
    assert_eq!(out.len(), 9);
    for (i, w) in out.iter().enumerate() {
        assert_eq!(w.text.len(), 9);
        assert_eq!(w.x, 24 + 2);
        assert_eq!(w.y, 6 + 1 + i);
        let row: String = raw.gfx[i * 9..i * 9 + 9].iter().collect();
        assert_eq!(text_of(w), row);
    }
}

#[test]
fn clipping_right_and_bottom_edges() {
    let raw = digit_sprite_9x9();
    // ends 4 columns past a 30-column viewport and 2 rows past a 9-row one
    let img = TerminalImage::new(&raw, 25, 2);
    let mut out: Vec<ScreenWrite> = Vec::new();
    clip_image(&img, 9, 30, 10, 20, &mut out);
    assert_eq!(out.len(), 7);
    for (i, w) in out.iter().enumerate() {
        assert_eq!(w.text.len(), 5);
        assert_eq!(w.x, 10 + 25);
        assert_eq!(w.y, 20 + 2 + i);
        let row: String = raw.gfx[i * 9..i * 9 + 5].iter().collect();
        assert_eq!(text_of(w), row);
    }
}

#[test]
fn clipping_sprite_fully_outside_emits_nothing() {
    let raw = digit_sprite_9x9();
    let far_right = TerminalImage::new(&raw, 100, 0);
    let mut out: Vec<ScreenWrite> = Vec::new();
    clip_image(&far_right, 13, 30, 0, 0, &mut out);
    assert_eq!(out.len(), 0);
    let above = TerminalImage::new(&raw, 0, -9);
    clip_image(&above, 13, 30, 0, 0, &mut out);
    assert_eq!(out.len(), 0);
}

#[test]
fn borders_have_fill_and_corners() {
    let (h, v) = create_borders(5, '.', true);
    let h: String = h.unwrap().iter().collect();
    let v: String = v.unwrap().iter().collect();
    assert_eq!(h, "+-----+");
    assert_eq!(v, "|.....|");
    let (h2, v2) = create_borders(5, ' ', false);
    assert!(h2.is_none());
    assert!(v2.is_none());
}

#[test]
fn render_window_draws_border_then_images() {
    let mut screen = TerminalScreen::new(20, 20);
    screen.add_window(WindowContent::LogView, 3, 5, 2, 6, true, ' ');
    let writes = screen.render_window(0);
    // 3 background lines, then the top and bottom frame lines
    assert_eq!(writes.len(), 5);
    for y in 0..3 {
        assert_eq!(writes[y].x, 1);
        assert_eq!(writes[y].y, 6 + y);
        assert_eq!(text_of(&writes[y]), "|     |");
    }
    assert_eq!(writes[3].y, 5);
    assert_eq!(text_of(&writes[3]), "+-----+");
    assert_eq!(writes[4].y, 9);
    assert_eq!(text_of(&writes[4]), "+-----+");
}

#[test]
fn digits_of_formats_decimals() {
    let cases: [(usize, &str); 5] =
        [(0, "0"), (7, "7"), (10, "10"), (1234, "1234"), (900719, "900719")];
    for (n, s) in cases {
        let d: String = digits_of(n).iter().collect();
        assert_eq!(d, s);
    }
}

#[test]
fn stat_window_lists_labels_and_values() {
    let game = Game::new(20, 20, 9);
    let imgs = StatWindowContent.render(&game.vars, 13, 15);
    assert_eq!(imgs.len(), 11);
    let table = graphics();
    for (k, idx) in [(0usize, 17usize), (1, 18), (2, 19), (3, 20), (4, 21), (5, 22)] {
        assert_eq!(imgs[k].gfx, table[idx].gfx);
        assert_eq!(imgs[k].pos_x, 1);
        assert_eq!(imgs[k].pos_y, 1 + k as isize);
    }
    let level: String = imgs[6].gfx.iter().collect();
    assert_eq!(level, "1");
    let attack: String = imgs[7].gfx.iter().collect();
    assert_eq!(attack, "2");
    let armor: String = imgs[8].gfx.iter().collect();
    assert_eq!(armor, "0");
    let speed: String = imgs[9].gfx.iter().collect();
    assert_eq!(speed, "2");
    let exp: String = imgs[10].gfx.iter().collect();
    assert_eq!(exp, "0");
    for k in [6usize, 7, 8, 9, 10] {
        assert_eq!(imgs[k].pos_x, 10);
    }
}

#[test]
fn map_window_shows_fog_and_hero() {
    let game = Game::new(20, 20, 9);
    let imgs = MapWindowContent.render(&game.vars, 13, 30);
    // visible cells: rows 3..=5, cols 2..=6, plus the explorer
    assert_eq!(imgs.len(), 16);
    let table = graphics();
    let hero = &imgs[15];
    assert_eq!(hero.gfx, table[16].gfx);
    assert_eq!(hero.pos_x, 15);
    assert_eq!(hero.pos_y, 6);
    // cell (3, 2) is undiscovered: the fog tile at (-7, -7)
    assert_eq!(imgs[0].gfx, table[25].gfx);
    assert_eq!(imgs[0].pos_x, -7);
    assert_eq!(imgs[0].pos_y, -7);
    // cell (4, 4) is the discovered start: its true wall tile, fully open
    let k = 1 * 5 + 2;
    assert_eq!(imgs[k].gfx, table[0b1111].gfx);
    assert_eq!(imgs[k].pos_x, 11);
    assert_eq!(imgs[k].pos_y, 2);
    // every other visible cell is fog
    for (i, img) in imgs.iter().enumerate().take(15) {
        if i != k {
            assert_eq!(img.gfx, table[25].gfx);
        }
    }
}

#[test]
fn skull_and_banner_are_single_sprites() {
    let game = Game::new(20, 20, 9);
    let table = graphics();
    let skull = SkullWindowContent.render(&game.vars, 13, 20);
    assert_eq!(skull.len(), 1);
    assert_eq!(skull[0].gfx, table[23].gfx);
    assert_eq!((skull[0].pos_x, skull[0].pos_y), (2, 0));
    let banner = BannerWindowContent.render(&game.vars, 1, 69);
    assert_eq!(banner.len(), 1);
    assert_eq!(banner[0].gfx, table[24].gfx);
    assert_eq!((banner[0].pos_x, banner[0].pos_y), (32, 0));
}

#[test]
fn full_frame_renders_every_window() {
    let mut game = Game::new(20, 20, 9);
    game.screen.add_window(WindowContent::SkullView, 13, 20, 2, 6, true, ' ');
    game.screen.add_window(WindowContent::MapView, 13, 30, 24, 6, true, '.');
    game.screen.add_window(WindowContent::StatsView, 13, 15, 24 + 30 + 2, 6, true, ' ');
    game.screen.add_window(WindowContent::BannerView, 1, 69, 2, 3, true, ' ');
    game.screen.add_window(WindowContent::LogView, 3, 69, 2, 21, true, ' ');
    assert!(game.check_frame());
    let frames = game.render();
    assert_eq!(frames.len(), 5);
    // each bordered window emits its rows + 2 frame lines, then its images
    assert!(frames[0].len() >= 15);
    // the map window: 15 border lines, then 16 sprites' surviving rows
    assert!(frames[1].len() > 15);
    // the log window holds no images: exactly its border
    assert_eq!(frames[4].len(), 5);
    // rendering again from the same state yields the same writes
    let again = game.render();
    for (a, b) in frames.iter().zip(again.iter()) {
        assert_eq!(a.len(), b.len());
        for (wa, wb) in a.iter().zip(b.iter()) {
            assert_eq!(wa.x, wb.x);
            assert_eq!(wa.y, wb.y);
            assert_eq!(text_of(wa), text_of(wb));
        }
    }
}

#[test]
fn catalog_entries_match_their_sizes() {
    let table = graphics();
    assert_eq!(table.len(), 26);
    for im in &table {
        assert_eq!(im.gfx.len(), im.rows * im.cols);
    }
    let hero: String = table[16].gfx.iter().collect();
    assert_eq!(hero, "@");
    assert_eq!((table[23].rows, table[23].cols), (13, 16));
    let banner: String = table[24].gfx.iter().collect();
    assert_eq!(banner, "EXPLORATION");
}
