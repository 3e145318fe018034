//! Game state: the maze, the discovered-cells grid, the explorer's position
//! and counters, and the per-frame rendering entry point.
use vstd::prelude::*;

use crate::amatrix::AMatrix;
use crate::content::{
    content_images_match, content_reqs, lemma_content_imgs_fit, render_content, WindowContent,
};
use crate::dir::Dir;
use crate::image::{catalog_wf, graphics, RawImage};
use crate::matrix::VMatrix;
use crate::screen::{
    geom_ok, imgs_ok, window_writes, window_writes_match, ScreenWrite, TerminalScreen,
    TerminalWindow,
};

verus! {

/// Base progression counters of a fresh explorer.
pub const BASE_ATTACK: usize = 2;

pub const BASE_ARMOR: usize = 0;

pub const BASE_EXP: usize = 0;

pub const BASE_SPEED: usize = 2;

/// Level dimensions grow from this with the level number.
pub const BASE_LEVEL_W: usize = 8;

pub const BASE_LEVEL_H: usize = 8;

/// The shared state every content provider reads.
pub struct GameVars {
    pub map: AMatrix,
    pub visit_map: VMatrix,
    pub base: usize,
    pub hero_pos_x: usize,
    pub hero_pos_y: usize,
    pub level: usize,
    pub attack: usize,
    pub armor: usize,
    pub speed: usize,
    pub exp: usize,
    pub gfx_table: Vec<RawImage>,
}

impl GameVars {
    /// The maze and discovered grids agree in size, the cell edge is
    /// positive, and the sprite catalog is usable.
    pub open spec fn wf(self) -> bool {
        &&& self.map.wf()
        &&& self.visit_map.wf()
        &&& self.visit_map.matrix.rows == self.map.matrix.rows
        &&& self.visit_map.matrix.cols == self.map.matrix.cols
        &&& self.base >= 1
        &&& catalog_wf(self.gfx_table@)
    }

    /// The room-grid row the explorer stands in.
    pub open spec fn hero_row(self) -> int {
        self.hero_pos_y as int / self.base as int
    }

    /// The room-grid column the explorer stands in.
    pub open spec fn hero_col(self) -> int {
        self.hero_pos_x as int / self.base as int
    }

    pub open spec fn hero_cell_ok(self) -> bool {
        self.hero_row() < self.map.matrix.rows && self.hero_col() < self.map.matrix.cols
    }

    /// Whether the explorer's cell lies on both grids.
    pub fn hero_in_bounds(&self) -> (r: bool)
        requires
            self.base >= 1,
        ensures
            r == self.hero_cell_ok(),
    {
        self.hero_pos_y / self.base < self.map.matrix.rows && self.hero_pos_x / self.base
            < self.map.matrix.cols
    }

    /// Opens all four walls of the explorer's starting cell, so the start is
    /// passable whatever the generation produced.
    pub fn set_st_hero_pos(&mut self)
        requires
            old(self).wf(),
            old(self).hero_cell_ok(),
        ensures
            final(self).wf(),
            final(self).map.matrix.rows == old(self).map.matrix.rows,
            final(self).map.matrix.cols == old(self).map.matrix.cols,
            final(self).map.block_chance == old(self).map.block_chance,
            final(self).visit_map == old(self).visit_map,
            final(self).base == old(self).base,
            final(self).hero_pos_x == old(self).hero_pos_x,
            final(self).hero_pos_y == old(self).hero_pos_y,
            final(self).level == old(self).level,
            final(self).attack == old(self).attack,
            final(self).armor == old(self).armor,
            final(self).speed == old(self).speed,
            final(self).exp == old(self).exp,
            final(self).gfx_table == old(self).gfx_table,
            forall|k: Dir| final(self).map.open_at(old(self).hero_row(), old(self).hero_col(), k),
            forall|r: int, c: int|
                old(self).map.in_bounds(r, c) && !AMatrix::near(
                    old(self).hero_row(),
                    old(self).hero_col(),
                    r,
                    c,
                ) ==> #[trigger] final(self).map.matrix.spec_get(r, c) == old(
                    self,
                ).map.matrix.spec_get(r, c),
    {
        self.map.unblock_all(self.hero_pos_y / self.base, self.hero_pos_x / self.base);
    }

    /// Marks the explorer's current cell as discovered.
    pub fn visit_room(&mut self)
        requires
            old(self).wf(),
            old(self).hero_cell_ok(),
        ensures
            final(self).wf(),
            final(self).map == old(self).map,
            final(self).visit_map.matrix.rows == old(self).visit_map.matrix.rows,
            final(self).visit_map.matrix.cols == old(self).visit_map.matrix.cols,
            final(self).base == old(self).base,
            final(self).hero_pos_x == old(self).hero_pos_x,
            final(self).hero_pos_y == old(self).hero_pos_y,
            final(self).level == old(self).level,
            final(self).attack == old(self).attack,
            final(self).armor == old(self).armor,
            final(self).speed == old(self).speed,
            final(self).exp == old(self).exp,
            final(self).gfx_table == old(self).gfx_table,
            final(self).visit_map.visited(old(self).hero_row(), old(self).hero_col()),
            forall|r: int, c: int|
                old(self).visit_map.in_bounds(r, c) && !(r == old(self).hero_row() && c == old(
                    self,
                ).hero_col()) ==> #[trigger] final(self).visit_map.matrix.spec_get(r, c) == old(
                    self,
                ).visit_map.matrix.spec_get(r, c),
    {
        self.visit_map.set(self.hero_pos_y / self.base, self.hero_pos_x / self.base, 1);
    }
}

/// The previous window's frame data carried over with fresh images.
pub open spec fn window_updated(oldw: TerminalWindow, neww: TerminalWindow, g: GameVars) -> bool {
    &&& neww.content == oldw.content
    &&& neww.rows == oldw.rows
    &&& neww.cols == oldw.cols
    &&& neww.pos_x == oldw.pos_x
    &&& neww.pos_y == oldw.pos_y
    &&& neww.vborder.is_some() == oldw.vborder.is_some()
    &&& neww.hborder.is_some() == oldw.hborder.is_some()
    &&& (neww.vborder.is_some() ==> neww.vborder.unwrap()@ == oldw.vborder.unwrap()@)
    &&& (neww.hborder.is_some() ==> neww.hborder.unwrap()@ == oldw.hborder.unwrap()@)
    &&& content_images_match(neww.content, g, neww.rows as int, neww.cols as int, neww.imgs@)
}

/// Everything the renderer needs of one window: sane geometry, a state the
/// content provider accepts, and room below the machine limits.
pub open spec fn win_ok(win: TerminalWindow, g: GameVars) -> bool {
    &&& geom_ok(win)
    &&& content_reqs(win.content, g, win.rows as int, win.cols as int)
    &&& win.pos_x + win.cols + 150 <= usize::MAX
    &&& win.pos_y + win.rows + 150 <= usize::MAX
}

/// The whole game: the screen layout and the mutable state.
pub struct Game {
    pub screen: TerminalScreen,
    pub vars: GameVars,
}

impl Game {
    pub open spec fn frame_ok(self) -> bool {
        forall|w: int|
            0 <= w < self.screen.winds@.len() ==> win_ok(#[trigger] self.screen.winds@[w], self.vars)
    }

    /// A fresh game: a level-one maze with its border sealed, the explorer
    /// centered on a fully opened start cell, and exactly that cell
    /// discovered.
    pub fn new(screen_w: usize, screen_h: usize, base: usize) -> (g: Game)
        requires
            1 <= base,
            base <= usize::MAX / 16,
        ensures
            g.vars.wf(),
            g.vars.map.matrix.rows == 9,
            g.vars.map.matrix.cols == 9,
            g.vars.map.sealed(),
            g.vars.base == base,
            g.vars.hero_pos_x == 4 * base + base / 2,
            g.vars.hero_pos_y == 4 * base + base / 2,
            g.vars.hero_row() == 4,
            g.vars.hero_col() == 4,
            g.vars.level == 1,
            g.vars.attack == BASE_ATTACK,
            g.vars.armor == BASE_ARMOR,
            g.vars.speed == BASE_SPEED,
            g.vars.exp == BASE_EXP,
            forall|k: Dir| g.vars.map.open_at(4, 4, k),
            forall|r: int, c: int|
                g.vars.visit_map.in_bounds(r, c) ==> (g.vars.visit_map.visited(r, c) <==> (r == 4
                    && c == 4)),
            g.screen.rows == screen_w,
            g.screen.cols == screen_h,
            g.screen.winds@.len() == 0,
    {
        let level: usize = 1;

        let w: usize = BASE_LEVEL_W + level;
        let h: usize = BASE_LEVEL_H + level;

        let hero_pos_x: usize = w / 2 * base + base / 2;
        let hero_pos_y: usize = h / 2 * base + base / 2;

        let map: AMatrix = AMatrix::new(w, h);
        let visit_map: VMatrix = VMatrix::new(w, h, h / 2, w / 2);
        let ghost map0 = map;

        let mut game: Game = Game {
            screen: TerminalScreen::new(screen_w, screen_h),
            vars: GameVars {
                map,
                visit_map,
                base,
                hero_pos_x,
                hero_pos_y,
                level,
                attack: BASE_ATTACK,
                armor: BASE_ARMOR,
                speed: BASE_SPEED,
                exp: BASE_EXP,
                gfx_table: graphics(),
            },
        };
        proof {
            vstd::arithmetic::div_mod::lemma_fundamental_div_mod_converse(
                hero_pos_x as int,
                base as int,
                4,
                (base / 2) as int,
            );
            vstd::arithmetic::div_mod::lemma_fundamental_div_mod_converse(
                hero_pos_y as int,
                base as int,
                4,
                (base / 2) as int,
            );
        }
        let ghost v0 = game.vars;
        game.vars.set_st_hero_pos();
        proof {
            assert forall|r: int, c: int|
                game.vars.map.in_bounds(r, c) && game.vars.map.on_border(r, c) implies #[trigger] game.vars.map.matrix.spec_get(
                r,
                c,
            ) == 0 by {
                assert(!AMatrix::near(v0.hero_row(), v0.hero_col(), r, c));
                assert(game.vars.map.matrix.spec_get(r, c) == v0.map.matrix.spec_get(r, c));
            }
            assert forall|k: Dir| game.vars.map.open_at(4, 4, k) by {
                assert(game.vars.map.open_at(v0.hero_row(), v0.hero_col(), k));
            }
        }
        game
    }

    /// Whether the current state and layout are renderable.
    pub fn check_frame(&self) -> (r: bool)
        requires
            self.vars.wf(),
        ensures
            r == self.frame_ok(),
    {
        let n = self.screen.winds.len();
        let mut w: usize = 0;
        while w < n
            invariant
                w <= n,
                n == self.screen.winds@.len(),
                self.vars.wf(),
                forall|i: int| 0 <= i < w ==> win_ok(#[trigger] self.screen.winds@[i], self.vars),
            decreases n - w,
        {
            let win = &self.screen.winds[w];
            let im: usize = isize::MAX as usize;
            if !(win.cols <= im && win.rows <= im) {
                return false;
            }
            if win.vborder.is_some() && win.hborder.is_some() {
                if !(1 <= win.pos_x && 1 <= win.pos_y && win.pos_y < usize::MAX - win.rows) {
                    return false;
                }
            }
            if !(win.cols <= usize::MAX - 150 && win.pos_x <= usize::MAX - 150 - win.cols) {
                return false;
            }
            if !(win.rows <= usize::MAX - 150 && win.pos_y <= usize::MAX - 150 - win.rows) {
                return false;
            }
            let is_map = match win.content {
                WindowContent::MapView => true,
                _ => false,
            };
            if is_map {
                if !(win.cols <= im - 200 && self.vars.hero_pos_x <= im - 200 - win.cols) {
                    return false;
                }
                if !(win.rows <= im - 200 && self.vars.hero_pos_y <= im - 200 - win.rows) {
                    return false;
                }
                let ecol = (self.vars.hero_pos_x + win.cols / 2) / self.vars.base;
                let erow = (self.vars.hero_pos_y + win.rows / 2) / self.vars.base;
                if !(ecol < self.vars.map.matrix.cols && erow < self.vars.map.matrix.rows) {
                    return false;
                }
            }
            w = w + 1;
        }
        true
    }

    /// Computes one frame: every window's images are recomputed from the
    /// current state, and the returned batches hold, window by window, the
    /// absolute-position writes of that window's border and clipped images.
    pub fn render(&mut self) -> (r: Vec<Vec<ScreenWrite>>)
        requires
            old(self).vars.wf(),
            old(self).frame_ok(),
        ensures
            final(self).vars == old(self).vars,
            final(self).screen.rows == old(self).screen.rows,
            final(self).screen.cols == old(self).screen.cols,
            final(self).screen.winds@.len() == old(self).screen.winds@.len(),
            forall|w: int|
                0 <= w < old(self).screen.winds@.len() ==> window_updated(
                    old(self).screen.winds@[w],
                    #[trigger] final(self).screen.winds@[w],
                    old(self).vars,
                ),
            r@.len() == old(self).screen.winds@.len(),
            forall|w: int|
                0 <= w < r@.len() ==> window_writes_match(
                    final(self).screen.winds@[w],
                    (#[trigger] r@[w])@,
                ),
    {
        let mut new_winds: Vec<TerminalWindow> = Vec::new();
        let mut outs: Vec<Vec<ScreenWrite>> = Vec::new();
        let n = self.screen.winds.len();
        let mut w: usize = 0;
        while w < n
            invariant
                w <= n,
                *self == *old(self),
                n == self.screen.winds@.len(),
                self.vars.wf(),
                self.frame_ok(),
                new_winds@.len() == w,
                outs@.len() == w,
                forall|i: int|
                    0 <= i < w ==> window_updated(
                        old(self).screen.winds@[i],
                        #[trigger] new_winds@[i],
                        old(self).vars,
                    ),
                forall|i: int|
                    0 <= i < w ==> window_writes_match(new_winds@[i], (#[trigger] outs@[i])@),
            decreases n - w,
        {
            let wind = &self.screen.winds[w];
            let imgs = render_content(wind.content, &self.vars, wind.rows, wind.cols);
            let vb: Option<Vec<char>> = match &wind.vborder {
                Some(v) => Some(crate::screen::copy_chars(v)),
                None => None,
            };
            let hb: Option<Vec<char>> = match &wind.hborder {
                Some(v) => Some(crate::screen::copy_chars(v)),
                None => None,
            };
            let wind2 = TerminalWindow {
                imgs,
                content: wind.content,
                rows: wind.rows,
                cols: wind.cols,
                pos_x: wind.pos_x,
                pos_y: wind.pos_y,
                vborder: vb,
                hborder: hb,
            };
            proof {
                lemma_content_imgs_fit(
                    wind2.content,
                    self.vars,
                    wind2.rows as int,
                    wind2.cols as int,
                    wind2.imgs@,
                );
                assert(imgs_ok(wind2));
            }
            let out = window_writes(&wind2);
            new_winds.push(wind2);
            outs.push(out);
            w = w + 1;
        }
        self.screen.winds = new_winds;
        outs
    }
}

} // verus!
