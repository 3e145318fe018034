//! Per-viewport content: the closed set of view kinds and the pure functions
//! that turn game state into positioned images.
use vstd::prelude::*;

use crate::game::GameVars;
use crate::image::{RawImage, TerminalImage, HERO_TILE, UNKNOWN_TILE};

verus! {

/// The closed set of view kinds a window can show.
#[derive(Copy, Clone, PartialEq, Eq, Structural, Debug)]
pub enum WindowContent {
    MapView,
    StatsView,
    SkullView,
    BannerView,
    LogView,
}

/// The decimal digit character for `d`.
pub open spec fn digit_char(d: int) -> char {
    if d == 0 {
        '0'
    } else if d == 1 {
        '1'
    } else if d == 2 {
        '2'
    } else if d == 3 {
        '3'
    } else if d == 4 {
        '4'
    } else if d == 5 {
        '5'
    } else if d == 6 {
        '6'
    } else if d == 7 {
        '7'
    } else if d == 8 {
        '8'
    } else {
        '9'
    }
}

/// The decimal digits of `n`, most significant first.
pub open spec fn dec_digits(n: int) -> Seq<char>
    decreases n,
{
    if n < 10 {
        seq![digit_char(n)]
    } else {
        dec_digits(n / 10).push(digit_char(n % 10))
    }
}

/// Ten to the `k`.
pub open spec fn pow10(k: nat) -> int
    decreases k,
{
    if k == 0 {
        1
    } else {
        10 * pow10((k - 1) as nat)
    }
}

/// Any number below ten to the `k` has at most `k` digits.
pub proof fn lemma_digits_len(n: int, k: nat)
    requires
        0 <= n < pow10(k),
        1 <= k,
    ensures
        1 <= dec_digits(n).len() <= k,
    decreases k,
{
    if n >= 10 {
        assert(pow10(k) == 10 * pow10((k - 1) as nat));
        lemma_digits_len(n / 10, (k - 1) as nat);
    }
}

/// The decimal form of `n`, as characters.
pub fn digits_of(n: usize) -> (r: Vec<char>)
    ensures
        r@ == dec_digits(n as int),
        1 <= r@.len() <= 20,
    decreases n,
{
    if n < 10 {
        let d: u8 = (n as u8) + 48;
        let c = d as char;
        proof {
            assert(c == digit_char(n as int));
        }
        let mut r: Vec<char> = Vec::new();
        r.push(c);
        proof {
            assert(r@ =~= dec_digits(n as int));
        }
        r
    } else {
        let mut r = digits_of(n / 10);
        let m: usize = n % 10;
        let d: u8 = (m as u8) + 48;
        let c = d as char;
        proof {
            assert(c == digit_char(m as int));
        }
        r.push(c);
        proof {
            assert(r@ =~= dec_digits(n as int));
            reveal_with_fuel(pow10, 21);
            assert(n < pow10(20));
            lemma_digits_len(n as int, 20);
        }
        r
    }
}

/// `img` shows catalog entry `raw` at viewport-local (x, y).
pub open spec fn img_is(img: TerminalImage, raw: RawImage, x: int, y: int) -> bool {
    &&& img.wf()
    &&& img.gfx@ == raw.gfx@
    &&& img.rows == raw.rows
    &&& img.cols == raw.cols
    &&& img.pos_x as int == x
    &&& img.pos_y as int == y
}

/// `img` is a one-line text `t` at viewport-local (x, y).
pub open spec fn text_is(img: TerminalImage, t: Seq<char>, x: int, y: int) -> bool {
    &&& img.wf()
    &&& img.gfx@ == t
    &&& img.rows == 1
    &&& img.cols as int == t.len()
    &&& img.pos_x as int == x
    &&& img.pos_y as int == y
}

/// World pixel where the camera's view begins: the explorer centered, clamped
/// at the world origin.
pub open spec fn cam_st(pos: int, half: int) -> int {
    if pos >= half {
        pos - half
    } else {
        0
    }
}

/// First visible cell column.
pub open spec fn m_st_col(g: GameVars, cols: int) -> int {
    cam_st(g.hero_pos_x as int, cols / 2) / g.base as int
}

/// Last visible cell column.
pub open spec fn m_end_col(g: GameVars, cols: int) -> int {
    (g.hero_pos_x as int + cols / 2) / g.base as int
}

/// First visible cell row.
pub open spec fn m_st_row(g: GameVars, rows: int) -> int {
    cam_st(g.hero_pos_y as int, rows / 2) / g.base as int
}

/// Last visible cell row.
pub open spec fn m_end_row(g: GameVars, rows: int) -> int {
    (g.hero_pos_y as int + rows / 2) / g.base as int
}

/// Number of visible cell columns.
pub open spec fn m_nvc(g: GameVars, cols: int) -> int {
    m_end_col(g, cols) + 1 - m_st_col(g, cols)
}

/// Number of visible cell rows.
pub open spec fn m_nvr(g: GameVars, rows: int) -> int {
    m_end_row(g, rows) + 1 - m_st_row(g, rows)
}

/// Horizontal camera offset: world pixel that lands on viewport column 0.
pub open spec fn m_xpad(g: GameVars, cols: int) -> int {
    g.hero_pos_x as int - cols / 2
}

/// Vertical camera offset.
pub open spec fn m_ypad(g: GameVars, rows: int) -> int {
    g.hero_pos_y as int - rows / 2
}

/// Catalog index a map cell shows: its wall mask when discovered, the fog
/// tile otherwise.
pub open spec fn map_cell_idx(g: GameVars, r: int, c: int) -> int {
    if !g.visit_map.visited(r, c) {
        UNKNOWN_TILE as int
    } else {
        g.map.matrix.spec_get(r, c) as int
    }
}

/// What the map view needs of the state: the visible cell range lies on the
/// grid and the coordinates stay far from the machine limits.
pub open spec fn map_view_ok(g: GameVars, rows: int, cols: int) -> bool {
    &&& g.wf()
    &&& 0 <= rows
    &&& 0 <= cols
    &&& m_end_col(g, cols) < g.map.matrix.cols
    &&& m_end_row(g, rows) < g.map.matrix.rows
    &&& g.hero_pos_x as int + cols + 200 <= isize::MAX as int
    &&& g.hero_pos_y as int + rows + 200 <= isize::MAX as int
}

/// The image list of one map frame: one tile per visible cell in row-major
/// order, then the explorer glyph at the viewport center.
pub open spec fn map_images_match(g: GameVars, rows: int, cols: int, imgs: Seq<
    TerminalImage,
>) -> bool {
    &&& imgs.len() == m_nvr(g, rows) * m_nvc(g, cols) + 1
    &&& forall|k: int|
        0 <= k < m_nvr(g, rows) * m_nvc(g, cols) ==> img_is(
            #[trigger] imgs[k],
            g.gfx_table@[map_cell_idx(
                g,
                m_st_row(g, rows) + k / m_nvc(g, cols),
                m_st_col(g, cols) + k % m_nvc(g, cols),
            )],
            (m_st_col(g, cols) + k % m_nvc(g, cols)) * g.base as int - m_xpad(g, cols),
            (m_st_row(g, rows) + k / m_nvc(g, cols)) * g.base as int - m_ypad(g, rows),
        )
    &&& img_is(
        imgs[m_nvr(g, rows) * m_nvc(g, cols)],
        g.gfx_table@[HERO_TILE as int],
        cols / 2,
        rows / 2,
    )
}

/// The image list of one stats frame: six labels and five counter values.
pub open spec fn stat_images_match(g: GameVars, imgs: Seq<TerminalImage>) -> bool {
    &&& imgs.len() == 11
    &&& img_is(imgs[0], g.gfx_table@[17], 1, 1)
    &&& img_is(imgs[1], g.gfx_table@[18], 1, 2)
    &&& img_is(imgs[2], g.gfx_table@[19], 1, 3)
    &&& img_is(imgs[3], g.gfx_table@[20], 1, 4)
    &&& img_is(imgs[4], g.gfx_table@[21], 1, 5)
    &&& img_is(imgs[5], g.gfx_table@[22], 1, 6)
    &&& text_is(imgs[6], dec_digits(g.level as int), 10, 1)
    &&& text_is(imgs[7], dec_digits(g.attack as int), 10, 3)
    &&& text_is(imgs[8], dec_digits(g.armor as int), 10, 4)
    &&& text_is(imgs[9], dec_digits(g.speed as int), 10, 5)
    &&& text_is(imgs[10], dec_digits(g.exp as int), 10, 6)
}

/// What one frame of each view kind contains.
pub open spec fn content_images_match(
    content: WindowContent,
    g: GameVars,
    rows: int,
    cols: int,
    imgs: Seq<TerminalImage>,
) -> bool {
    match content {
        WindowContent::MapView => map_images_match(g, rows, cols, imgs),
        WindowContent::StatsView => stat_images_match(g, imgs),
        WindowContent::SkullView => imgs.len() == 1 && img_is(imgs[0], g.gfx_table@[23], 2, 0),
        WindowContent::BannerView => imgs.len() == 1 && img_is(imgs[0], g.gfx_table@[24], 32, 0),
        WindowContent::LogView => imgs.len() == 0,
    }
}

/// What a view kind needs of the state before it can render.
pub open spec fn content_reqs(content: WindowContent, g: GameVars, rows: int, cols: int) -> bool {
    &&& g.wf()
    &&& (content == WindowContent::MapView ==> map_view_ok(g, rows, cols))
}

/// Renders the camera-following maze view.
pub struct MapWindowContent;

/// Renders the explorer's counters.
pub struct StatWindowContent;

/// Renders the skull decoration.
pub struct SkullWindowContent;

/// Renders the title banner.
pub struct BannerWindowContent;

/// Renders the (empty) message log.
pub struct LogWindowContent;

impl MapWindowContent {
    /// One tile per visible cell — the fog tile for undiscovered cells — and
    /// the explorer at the viewport center.
    pub fn render(&self, game: &GameVars, rows: usize, cols: usize) -> (r: Vec<TerminalImage>)
        requires
            map_view_ok(*game, rows as int, cols as int),
        ensures
            map_images_match(*game, rows as int, cols as int, r@),
    {
        let win_h = rows;
        let win_w = cols;
        let mut imgs: Vec<TerminalImage> = Vec::new();

        let camera_st_x: usize = if game.hero_pos_x >= win_w / 2 {
            game.hero_pos_x - win_w / 2
        } else {
            0
        };
        let camera_end_x: usize = game.hero_pos_x + win_w / 2;
        let camera_st_y: usize = if game.hero_pos_y >= win_h / 2 {
            game.hero_pos_y - win_h / 2
        } else {
            0
        };
        let camera_end_y: usize = game.hero_pos_y + win_h / 2;

        let st_cell_left: usize = camera_st_x / game.base;
        let end_cell_right: usize = camera_end_x / game.base;
        let st_cell_up: usize = camera_st_y / game.base;
        let end_cell_down: usize = camera_end_y / game.base;

        let ghost g = *game;
        let ghost nvc = m_nvc(g, cols as int);
        let ghost nvr = m_nvr(g, rows as int);
        proof {
            assert(st_cell_left == m_st_col(g, cols as int));
            assert(end_cell_right == m_end_col(g, cols as int));
            vstd::arithmetic::div_mod::lemma_div_is_ordered(
                camera_st_x as int,
                camera_end_x as int,
                g.base as int,
            );
            vstd::arithmetic::div_mod::lemma_div_is_ordered(
                camera_st_y as int,
                camera_end_y as int,
                g.base as int,
            );
            vstd::arithmetic::mul::lemma_mul_basics(nvc);
        }

        let mut row: usize = st_cell_up;
        while row < end_cell_down + 1
            invariant
                map_view_ok(g, rows as int, cols as int),
                g == *game,
                win_h == rows,
                win_w == cols,
                camera_end_x as int == g.hero_pos_x as int + cols as int / 2,
                camera_end_y as int == g.hero_pos_y as int + rows as int / 2,
                st_cell_left == m_st_col(g, cols as int),
                end_cell_right == m_end_col(g, cols as int),
                st_cell_up == m_st_row(g, rows as int),
                end_cell_down == m_end_row(g, rows as int),
                nvc == m_nvc(g, cols as int),
                nvr == m_nvr(g, rows as int),
                st_cell_left <= end_cell_right,
                st_cell_up <= row <= end_cell_down + 1,
                imgs@.len() == (row - st_cell_up) * nvc,
                forall|k: int|
                    0 <= k < imgs@.len() ==> img_is(
                        #[trigger] imgs@[k],
                        g.gfx_table@[map_cell_idx(
                            g,
                            m_st_row(g, rows as int) + k / nvc,
                            m_st_col(g, cols as int) + k % nvc,
                        )],
                        (m_st_col(g, cols as int) + k % nvc) * g.base as int - m_xpad(
                            g,
                            cols as int,
                        ),
                        (m_st_row(g, rows as int) + k / nvc) * g.base as int - m_ypad(
                            g,
                            rows as int,
                        ),
                    ),
            decreases end_cell_down + 1 - row,
        {
            let mut col: usize = st_cell_left;
            while col < end_cell_right + 1
                invariant
                    map_view_ok(g, rows as int, cols as int),
                    g == *game,
                    win_h == rows,
                    win_w == cols,
                    camera_end_x as int == g.hero_pos_x as int + cols as int / 2,
                    camera_end_y as int == g.hero_pos_y as int + rows as int / 2,
                    st_cell_left == m_st_col(g, cols as int),
                    end_cell_right == m_end_col(g, cols as int),
                    st_cell_up == m_st_row(g, rows as int),
                    end_cell_down == m_end_row(g, rows as int),
                    nvc == m_nvc(g, cols as int),
                    nvr == m_nvr(g, rows as int),
                    st_cell_left <= col <= end_cell_right + 1,
                    st_cell_up <= row <= end_cell_down,
                    imgs@.len() == (row - st_cell_up) * nvc + (col - st_cell_left),
                    forall|k: int|
                        0 <= k < imgs@.len() ==> img_is(
                            #[trigger] imgs@[k],
                            g.gfx_table@[map_cell_idx(
                                g,
                                m_st_row(g, rows as int) + k / nvc,
                                m_st_col(g, cols as int) + k % nvc,
                            )],
                            (m_st_col(g, cols as int) + k % nvc) * g.base as int - m_xpad(
                                g,
                                cols as int,
                            ),
                            (m_st_row(g, rows as int) + k / nvc) * g.base as int - m_ypad(
                                g,
                                rows as int,
                            ),
                        ),
                decreases end_cell_right + 1 - col,
            {
                proof {
                    vstd::arithmetic::div_mod::lemma_fundamental_div_mod(
                        camera_end_x as int,
                        g.base as int,
                    );
                    vstd::arithmetic::div_mod::lemma_fundamental_div_mod(
                        camera_end_y as int,
                        g.base as int,
                    );
                    vstd::arithmetic::mul::lemma_mul_inequality(
                        col as int,
                        end_cell_right as int,
                        g.base as int,
                    );
                    vstd::arithmetic::mul::lemma_mul_inequality(
                        row as int,
                        end_cell_down as int,
                        g.base as int,
                    );
                    vstd::arithmetic::mul::lemma_mul_nonnegative(col as int, g.base as int);
                    vstd::arithmetic::mul::lemma_mul_nonnegative(row as int, g.base as int);
                    vstd::arithmetic::div_mod::lemma_mod_bound(
                        camera_end_x as int,
                        g.base as int,
                    );
                    vstd::arithmetic::div_mod::lemma_mod_bound(
                        camera_end_y as int,
                        g.base as int,
                    );
                    assert(g.base as int * end_cell_right as int <= camera_end_x as int);
                    assert(col as int * g.base as int <= end_cell_right as int * g.base as int);
                    assert(col as int * g.base as int <= camera_end_x as int);
                    assert(g.base as int * end_cell_down as int <= camera_end_y as int);
                    assert(row as int * g.base as int <= end_cell_down as int * g.base as int);
                    assert(row as int * g.base as int <= camera_end_y as int);
                }
                let x_pad: isize = (game.hero_pos_x as isize) - ((win_w / 2) as isize);
                let y_pad: isize = (game.hero_pos_y as isize) - ((win_h / 2) as isize);

                let x: isize = ((col * game.base) as isize) - x_pad;
                let y: isize = ((row * game.base) as isize) - y_pad;

                let idx: usize = if game.visit_map.get(row, col) == 0 {
                    UNKNOWN_TILE
                } else {
                    game.map.get(row, col)
                };

                let img = TerminalImage::new(&game.gfx_table[idx], x, y);
                imgs.push(img);
                proof {
                    let k0 = imgs@.len() - 1;
                    assert(k0 == (row - st_cell_up) * nvc + (col - st_cell_left));
                    vstd::arithmetic::div_mod::lemma_fundamental_div_mod_converse(
                        k0,
                        nvc,
                        row as int - st_cell_up as int,
                        col as int - st_cell_left as int,
                    );
                    assert(img_is(
                        imgs@[k0],
                        g.gfx_table@[map_cell_idx(g, row as int, col as int)],
                        col as int * g.base as int - m_xpad(g, cols as int),
                        row as int * g.base as int - m_ypad(g, rows as int),
                    ));
                }
                col = col + 1;
            }
            proof {
                vstd::arithmetic::mul::lemma_mul_is_distributive_add_other_way(
                    nvc,
                    row as int - st_cell_up as int,
                    1,
                );
            }
            row = row + 1;
        }

        // the explorer, always at the viewport center
        let pos_x: isize = (cols as isize) / 2;
        let pos_y: isize = (rows as isize) / 2;
        let hero = TerminalImage::new(&game.gfx_table[HERO_TILE], pos_x, pos_y);
        imgs.push(hero);
        proof {
            assert(imgs@.len() == nvr * nvc + 1);
            assert(img_is(
                imgs@[nvr * nvc],
                g.gfx_table@[HERO_TILE as int],
                cols as int / 2,
                rows as int / 2,
            ));
        }
        imgs
    }
}

impl StatWindowContent {
    /// The six labels and the five counter values.
    pub fn render(&self, game: &GameVars, _rows: usize, _cols: usize) -> (r: Vec<TerminalImage>)
        requires
            game.wf(),
        ensures
            stat_images_match(*game, r@),
    {
        let mut imgs: Vec<TerminalImage> = Vec::new();

        imgs.push(TerminalImage::new(&game.gfx_table[17], 1, 1));
        imgs.push(TerminalImage::new(&game.gfx_table[18], 1, 2));
        imgs.push(TerminalImage::new(&game.gfx_table[19], 1, 3));
        imgs.push(TerminalImage::new(&game.gfx_table[20], 1, 4));
        imgs.push(TerminalImage::new(&game.gfx_table[21], 1, 5));
        imgs.push(TerminalImage::new(&game.gfx_table[22], 1, 6));

        imgs.push(TerminalImage::with_text(digits_of(game.level), 10, 1));
        imgs.push(TerminalImage::with_text(digits_of(game.attack), 10, 3));
        imgs.push(TerminalImage::with_text(digits_of(game.armor), 10, 4));
        imgs.push(TerminalImage::with_text(digits_of(game.speed), 10, 5));
        imgs.push(TerminalImage::with_text(digits_of(game.exp), 10, 6));

        imgs
    }
}

impl SkullWindowContent {
    /// The skull decoration at its fixed spot.
    pub fn render(&self, game: &GameVars, _rows: usize, _cols: usize) -> (r: Vec<TerminalImage>)
        requires
            game.wf(),
        ensures
            r@.len() == 1,
            img_is(r@[0], game.gfx_table@[23], 2, 0),
    {
        let mut imgs: Vec<TerminalImage> = Vec::new();
        imgs.push(TerminalImage::new(&game.gfx_table[23], 2, 0));
        imgs
    }
}

impl BannerWindowContent {
    /// The title banner at its fixed spot.
    pub fn render(&self, game: &GameVars, _rows: usize, _cols: usize) -> (r: Vec<TerminalImage>)
        requires
            game.wf(),
        ensures
            r@.len() == 1,
            img_is(r@[0], game.gfx_table@[24], 32, 0),
    {
        let mut imgs: Vec<TerminalImage> = Vec::new();
        imgs.push(TerminalImage::new(&game.gfx_table[24], 32, 0));
        imgs
    }
}

impl LogWindowContent {
    /// Nothing yet.
    pub fn render(&self, _game: &GameVars, _rows: usize, _cols: usize) -> (r: Vec<TerminalImage>)
        ensures
            r@.len() == 0,
    {
        Vec::new()
    }
}

/// Dispatches to the view kind's renderer.
pub fn render_content(content: WindowContent, game: &GameVars, rows: usize, cols: usize) -> (r: Vec<
    TerminalImage,
>)
    requires
        content_reqs(content, *game, rows as int, cols as int),
    ensures
        content_images_match(content, *game, rows as int, cols as int, r@),
{
    match content {
        WindowContent::MapView => MapWindowContent.render(game, rows, cols),
        WindowContent::StatsView => StatWindowContent.render(game, rows, cols),
        WindowContent::SkullView => SkullWindowContent.render(game, rows, cols),
        WindowContent::BannerView => BannerWindowContent.render(game, rows, cols),
        WindowContent::LogView => LogWindowContent.render(game, rows, cols),
    }
}

/// Every image a content provider emits stays near its viewport: its bounding
/// box ends at most 150 cells beyond the viewport's extent.
pub proof fn lemma_content_imgs_fit(
    content: WindowContent,
    g: GameVars,
    rows: int,
    cols: int,
    imgs: Seq<TerminalImage>,
)
    requires
        content_reqs(content, g, rows, cols),
        content_images_match(content, g, rows, cols, imgs),
        0 <= rows,
        0 <= cols,
    ensures
        forall|j: int|
            0 <= j < imgs.len() ==> ((#[trigger] imgs[j]).wf() && imgs[j].end_x as int <= cols + 150
                && imgs[j].end_y as int <= rows + 150),
{
    match content {
        WindowContent::MapView => {
            let nvc = m_nvc(g, cols);
            let nvr = m_nvr(g, rows);
            let base = g.base as int;
            let endx = g.hero_pos_x as int + cols / 2;
            let endy = g.hero_pos_y as int + rows / 2;
            vstd::arithmetic::div_mod::lemma_div_is_ordered(
                cam_st(g.hero_pos_x as int, cols / 2),
                endx,
                base,
            );
            vstd::arithmetic::div_mod::lemma_div_is_ordered(
                cam_st(g.hero_pos_y as int, rows / 2),
                endy,
                base,
            );
            assert forall|j: int| 0 <= j < imgs.len() implies ((#[trigger] imgs[j]).wf()
                && imgs[j].end_x as int <= cols + 150 && imgs[j].end_y as int <= rows + 150) by {
                if j < nvr * nvc {
                    let cc = m_st_col(g, cols) + j % nvc;
                    let rr = m_st_row(g, rows) + j / nvc;
                    vstd::arithmetic::div_mod::lemma_mod_bound(j, nvc);
                    vstd::arithmetic::div_mod::lemma_fundamental_div_mod(j, nvc);
                    assert(0 <= j / nvc < nvr) by {
                        vstd::arithmetic::div_mod::lemma_fundamental_div_mod(j, nvc);
                        if j / nvc >= nvr {
                            vstd::arithmetic::mul::lemma_mul_inequality(nvr, j / nvc, nvc);
                        }
                        vstd::arithmetic::div_mod::lemma_div_is_ordered(0, j, nvc);
                    }
                    assert(cc <= m_end_col(g, cols));
                    assert(rr <= m_end_row(g, rows));
                    vstd::arithmetic::div_mod::lemma_fundamental_div_mod(endx, base);
                    vstd::arithmetic::div_mod::lemma_mod_bound(endx, base);
                    vstd::arithmetic::mul::lemma_mul_inequality(cc, m_end_col(g, cols), base);
                    vstd::arithmetic::div_mod::lemma_fundamental_div_mod(endy, base);
                    vstd::arithmetic::div_mod::lemma_mod_bound(endy, base);
                    vstd::arithmetic::mul::lemma_mul_inequality(rr, m_end_row(g, rows), base);
                    assert(cc * base <= endx);
                    assert(rr * base <= endy);
                }
            }
        },
        WindowContent::StatsView => {
            assert forall|j: int| 0 <= j < imgs.len() implies ((#[trigger] imgs[j]).wf()
                && imgs[j].end_x as int <= cols + 150 && imgs[j].end_y as int <= rows + 150) by {
                reveal_with_fuel(pow10, 21);
                if j == 0 {
                } else if j == 1 {
                } else if j == 2 {
                } else if j == 3 {
                } else if j == 4 {
                } else if j == 5 {
                } else if j == 6 {
                    lemma_digits_len(g.level as int, 20);
                } else if j == 7 {
                    lemma_digits_len(g.attack as int, 20);
                } else if j == 8 {
                    lemma_digits_len(g.armor as int, 20);
                } else if j == 9 {
                    lemma_digits_len(g.speed as int, 20);
                } else {
                    assert(j == 10);
                    lemma_digits_len(g.exp as int, 20);
                }
            }
        },
        _ => {
        },
    }
}

} // verus!
