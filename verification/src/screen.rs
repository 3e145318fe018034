//! The compositor: windows on a character screen, border drawing, and the
//! clipping of positioned images into absolute-position writes.
use vstd::prelude::*;

use crate::content::WindowContent;
use crate::image::TerminalImage;

verus! {

/// One absolute-position run of characters to put on the surface.
pub struct ScreenWrite {
    pub x: usize,
    pub y: usize,
    pub text: Vec<char>,
}

/// Columns of the image hanging off the left viewport edge.
pub open spec fn t_left(img: TerminalImage) -> int {
    if img.pos_x < 0 {
        -(img.pos_x as int)
    } else {
        0
    }
}

/// Rows of the image hanging off the top viewport edge.
pub open spec fn t_top(img: TerminalImage) -> int {
    if img.pos_y < 0 {
        -(img.pos_y as int)
    } else {
        0
    }
}

/// Columns of the image hanging off the right viewport edge.
pub open spec fn t_right(img: TerminalImage, wcols: int) -> int {
    if img.end_x as int >= wcols {
        img.end_x as int - wcols
    } else {
        0
    }
}

/// Rows of the image hanging off the bottom viewport edge.
pub open spec fn t_bottom(img: TerminalImage, wrows: int) -> int {
    if img.end_y as int >= wrows {
        img.end_y as int - wrows
    } else {
        0
    }
}

/// Whether any part of the image survives clipping.
pub open spec fn emits(img: TerminalImage, wrows: int, wcols: int) -> bool {
    t_left(img) + t_right(img, wcols) < img.cols as int && t_top(img) + t_bottom(img, wrows)
        < img.rows as int
}

/// How many rows of the image survive clipping.
pub open spec fn emit_count(img: TerminalImage, wrows: int, wcols: int) -> int {
    if emits(img, wrows, wcols) {
        img.rows as int - t_top(img) - t_bottom(img, wrows)
    } else {
        0
    }
}

/// The characters of sprite row `line` that survive clipping.
pub open spec fn row_text(img: TerminalImage, wcols: int, line: int) -> Seq<char> {
    img.gfx@.subrange(
        line * img.cols as int + t_left(img),
        line * img.cols as int + img.cols as int - t_right(img, wcols),
    )
}

/// `w` puts `t` at surface position (x, y).
pub open spec fn write_matches(w: ScreenWrite, x: int, y: int, t: Seq<char>) -> bool {
    w.x as int == x && w.y as int == y && w.text@ == t
}

/// A copy of a character vector.
pub fn copy_chars(v: &Vec<char>) -> (r: Vec<char>)
    ensures
        r@ == v@,
{
    let mut r: Vec<char> = Vec::new();
    let mut i: usize = 0;
    let n = v.len();
    while i < n
        invariant
            i <= n,
            n == v@.len(),
            r@ == v@.subrange(0, i as int),
        decreases n - i,
    {
        r.push(v[i]);
        proof {
            assert(r@ =~= v@.subrange(0, i + 1 as int));
        }
        i = i + 1;
    }
    proof {
        assert(r@ =~= v@);
    }
    r
}

/// Appends to `out` the clipped rows of `img`, one absolute-position write per
/// surviving sprite row. Rows or columns outside the `wrows` by `wcols`
/// viewport at surface position (wx, wy) are trimmed; an image wholly outside
/// adds nothing.
pub fn clip_image(
    img: &TerminalImage,
    wrows: usize,
    wcols: usize,
    wx: usize,
    wy: usize,
    out: &mut Vec<ScreenWrite>,
)
    requires
        img.wf(),
        wcols as int <= isize::MAX as int,
        wrows as int <= isize::MAX as int,
        wx as int + img.end_x as int <= usize::MAX as int,
        wy as int + img.end_y as int <= usize::MAX as int,
    ensures
        final(out)@.len() == old(out)@.len() + emit_count(*img, wrows as int, wcols as int),
        forall|i: int| 0 <= i < old(out)@.len() ==> #[trigger] final(out)@[i] == old(out)@[i],
        forall|i: int|
            0 <= i < emit_count(*img, wrows as int, wcols as int) ==> write_matches(
                #[trigger] final(out)@[old(out)@.len() + i],
                wx as int + img.pos_x as int + t_left(*img),
                wy as int + img.pos_y as int + t_top(*img) + i,
                row_text(*img, wcols as int, t_top(*img) + i),
            ),
{
    let ghost old_len = out@.len() as int;
    let wcols_i: isize = wcols as isize;
    let wrows_i: isize = wrows as isize;
    let mut trim_left: isize = 0;
    let mut trim_up: isize = 0;
    let mut trim_down: usize = 0;
    let mut trim_right: usize = 0;

    if img.pos_x < 0 {
        trim_left = -img.pos_x;
    }
    if img.pos_y < 0 {
        trim_up = -img.pos_y;
    }
    if img.end_x >= wcols_i {
        trim_right = (img.end_x - wcols_i) as usize;
    }
    if img.end_y >= wrows_i {
        trim_down = (img.end_y - wrows_i) as usize;
    }
    // nothing survives: the whole span is clipped away
    if trim_right >= img.cols {
        return ;
    }
    if trim_left as usize >= img.cols - trim_right {
        return ;
    }
    if trim_down >= img.rows {
        return ;
    }
    if trim_up as usize >= img.rows - trim_down {
        return ;
    }
    let base_x: usize = if img.pos_x < 0 {
        wx
    } else {
        wx + (img.pos_x as usize)
    };
    let end_line: usize = img.rows - trim_down;
    let mut line: usize = trim_up as usize;
    while line < end_line
        invariant
            img.wf(),
            wcols as int <= isize::MAX as int,
            wrows as int <= isize::MAX as int,
            wx as int + img.end_x as int <= usize::MAX as int,
            wy as int + img.end_y as int <= usize::MAX as int,
            trim_left as int == t_left(*img),
            trim_up as int == t_top(*img),
            trim_right as int == t_right(*img, wcols as int),
            trim_down as int == t_bottom(*img, wrows as int),
            emits(*img, wrows as int, wcols as int),
            end_line as int == img.rows as int - t_bottom(*img, wrows as int),
            base_x as int == wx as int + img.pos_x as int + t_left(*img),
            t_top(*img) <= line as int <= end_line as int,
            out@.len() == old_len + (line as int - t_top(*img)),
            old_len == old(out)@.len(),
            forall|i: int| 0 <= i < old_len ==> #[trigger] out@[i] == old(out)@[i],
            forall|i: int|
                0 <= i < line as int - t_top(*img) ==> write_matches(
                    #[trigger] out@[old_len + i],
                    wx as int + img.pos_x as int + t_left(*img),
                    wy as int + img.pos_y as int + t_top(*img) + i,
                    row_text(*img, wcols as int, t_top(*img) + i),
                ),
        decreases end_line - line,
    {
        proof {
            vstd::arithmetic::mul::lemma_mul_inequality(
                line as int + 1,
                img.rows as int,
                img.cols as int,
            );
            vstd::arithmetic::mul::lemma_mul_is_distributive_add_other_way(
                img.cols as int,
                line as int,
                1,
            );
        }
        let left: usize = line * img.cols + (trim_left as usize);
        let right: usize = line * img.cols + img.cols - trim_right;
        if left < right && right <= img.gfx.len() {
            let mut text: Vec<char> = Vec::new();
            let mut j: usize = left;
            while j < right
                invariant
                    left <= j <= right,
                    right <= img.gfx@.len(),
                    text@ == img.gfx@.subrange(left as int, j as int),
                decreases right - j,
            {
                text.push(img.gfx[j]);
                proof {
                    assert(text@ =~= img.gfx@.subrange(left as int, j + 1 as int));
                }
                j = j + 1;
            }
            let y: usize = if img.pos_y < 0 {
                wy + (line - (trim_up as usize))
            } else {
                wy + (img.pos_y as usize) + line
            };
            out.push(ScreenWrite { x: base_x, y, text });
        }
        line = line + 1;
    }
}

/// The frame line drawn above and below a bordered window: `+`, dashes, `+`.
pub open spec fn hborder_spec(cols: int) -> Seq<char> {
    seq!['+'] + Seq::new(cols as nat, |i: int| '-') + seq!['+']
}

/// The line drawn across a bordered window: `|`, the background, `|`.
pub open spec fn vborder_spec(cols: int, bg: char) -> Seq<char> {
    seq!['|'] + Seq::new(cols as nat, |i: int| bg) + seq!['|']
}

/// The two border lines of a window `cols` columns wide, or none when
/// borders are off.
pub fn create_borders(cols: usize, bg: char, border: bool) -> (r: (
    Option<Vec<char>>,
    Option<Vec<char>>,
))
    ensures
        !border ==> r.0.is_none() && r.1.is_none(),
        border ==> r.0.is_some() && r.0.unwrap()@ == hborder_spec(cols as int),
        border ==> r.1.is_some() && r.1.unwrap()@ == vborder_spec(cols as int, bg),
{
    if !border {
        return (None, None);
    }
    let mut h: Vec<char> = Vec::new();
    let mut v: Vec<char> = Vec::new();

    h.push('+');
    v.push('|');

    let mut i: usize = 0;
    while i < cols
        invariant
            i <= cols,
            h@.len() == i + 1,
            v@.len() == i + 1,
            h@[0] == '+',
            v@[0] == '|',
            forall|k: int| 1 <= k <= i ==> #[trigger] h@[k] == '-',
            forall|k: int| 1 <= k <= i ==> #[trigger] v@[k] == bg,
        decreases cols - i,
    {
        h.push('-');
        v.push(bg);
        i = i + 1;
    }
    h.push('+');
    v.push('|');

    proof {
        assert(h@ =~= hborder_spec(cols as int));
        assert(v@ =~= vborder_spec(cols as int, bg));
    }
    (Some(h), Some(v))
}

/// A viewport: a rectangle on the surface, its content kind, optional border
/// lines, and the images of the current frame.
pub struct TerminalWindow {
    pub imgs: Vec<TerminalImage>,
    pub content: WindowContent,
    pub rows: usize,
    pub cols: usize,
    pub pos_x: usize,
    pub pos_y: usize,
    pub vborder: Option<Vec<char>>,
    pub hborder: Option<Vec<char>>,
}

/// The window's rectangle and border placement stay within machine range.
pub open spec fn geom_ok(w: TerminalWindow) -> bool {
    &&& w.cols as int <= isize::MAX as int
    &&& w.rows as int <= isize::MAX as int
    &&& ((w.vborder.is_some() && w.hborder.is_some()) ==> (1 <= w.pos_x && 1 <= w.pos_y
        && w.pos_y + w.rows < usize::MAX))
}

/// Every image of the window is well formed and lands within machine range.
pub open spec fn imgs_ok(w: TerminalWindow) -> bool {
    forall|j: int|
        0 <= j < w.imgs@.len() ==> ((#[trigger] w.imgs@[j]).wf() && w.pos_x as int
            + w.imgs@[j].end_x as int <= usize::MAX as int && w.pos_y as int
            + w.imgs@[j].end_y as int <= usize::MAX as int)
}

/// Number of writes the window's border contributes.
pub open spec fn border_count(w: TerminalWindow) -> int {
    if w.vborder.is_some() && w.hborder.is_some() {
        w.rows as int + 2
    } else {
        0
    }
}

/// Number of writes the first `upto` images contribute.
pub open spec fn writes_count(imgs: Seq<TerminalImage>, upto: int, wrows: int, wcols: int) -> int
    decreases upto,
{
    if upto <= 0 {
        0
    } else {
        writes_count(imgs, upto - 1, wrows, wcols) + emit_count(imgs[upto - 1], wrows, wcols)
    }
}

/// The write that the `i`-th surviving row of image `j` produced.
pub open spec fn img_write(out: Seq<ScreenWrite>, w: TerminalWindow, j: int, i: int) -> ScreenWrite {
    out[border_count(w) + writes_count(w.imgs@, j, w.rows as int, w.cols as int) + i]
}

/// `out` begins with the border lines of `w`.
pub open spec fn border_writes_match(w: TerminalWindow, out: Seq<ScreenWrite>) -> bool {
    &&& forall|y: int|
        0 <= y < w.rows ==> write_matches(
            #[trigger] out[y],
            w.pos_x as int - 1,
            w.pos_y as int + y,
            w.vborder.unwrap()@,
        )
    &&& write_matches(out[w.rows as int], w.pos_x as int - 1, w.pos_y as int - 1, w.hborder.unwrap()@)
    &&& write_matches(
        out[w.rows as int + 1],
        w.pos_x as int - 1,
        w.pos_y as int + w.rows as int,
        w.hborder.unwrap()@,
    )
}

/// `out` is exactly the frame of window `w`: its border lines first, then the
/// clipped rows of each image in order.
pub open spec fn window_writes_match(w: TerminalWindow, out: Seq<ScreenWrite>) -> bool {
    &&& out.len() == border_count(w) + writes_count(
        w.imgs@,
        w.imgs@.len() as int,
        w.rows as int,
        w.cols as int,
    )
    &&& ((w.vborder.is_some() && w.hborder.is_some()) ==> border_writes_match(w, out))
    &&& forall|j: int, i: int|
        0 <= j < w.imgs@.len() && 0 <= i < emit_count(w.imgs@[j], w.rows as int, w.cols as int)
            ==> write_matches(
            #[trigger] img_write(out, w, j, i),
            w.pos_x as int + w.imgs@[j].pos_x as int + t_left(w.imgs@[j]),
            w.pos_y as int + w.imgs@[j].pos_y as int + t_top(w.imgs@[j]) + i,
            row_text(w.imgs@[j], w.cols as int, t_top(w.imgs@[j]) + i),
        )
}

impl TerminalWindow {
    /// A window with no images yet and borders as requested.
    pub fn new(
        content: WindowContent,
        rows: usize,
        cols: usize,
        pos_x: usize,
        pos_y: usize,
        border: bool,
        bg: char,
    ) -> (w: TerminalWindow)
        ensures
            w.imgs@.len() == 0,
            w.content == content,
            w.rows == rows,
            w.cols == cols,
            w.pos_x == pos_x,
            w.pos_y == pos_y,
            border ==> w.vborder.is_some() && w.vborder.unwrap()@ == vborder_spec(
                cols as int,
                bg,
            ),
            border ==> w.hborder.is_some() && w.hborder.unwrap()@ == hborder_spec(cols as int),
            !border ==> w.vborder.is_none() && w.hborder.is_none(),
    {
        let (hborder, vborder) = create_borders(cols, bg, border);

        TerminalWindow { imgs: Vec::new(), content, rows, cols, pos_x, pos_y, vborder, hborder }
    }

    /// Appends this frame's images.
    pub fn push_images(&mut self, imgs: Vec<TerminalImage>)
        ensures
            final(self).imgs@ == old(self).imgs@ + imgs@,
            final(self).content == old(self).content,
            final(self).rows == old(self).rows,
            final(self).cols == old(self).cols,
            final(self).pos_x == old(self).pos_x,
            final(self).pos_y == old(self).pos_y,
            final(self).vborder == old(self).vborder,
            final(self).hborder == old(self).hborder,
    {
        let mut imgs = imgs;
        self.imgs.append(&mut imgs);
    }

    /// Discards the previous frame's images.
    pub fn clear(&mut self)
        ensures
            final(self).imgs@.len() == 0,
            final(self).content == old(self).content,
            final(self).rows == old(self).rows,
            final(self).cols == old(self).cols,
            final(self).pos_x == old(self).pos_x,
            final(self).pos_y == old(self).pos_y,
            final(self).vborder == old(self).vborder,
            final(self).hborder == old(self).hborder,
    {
        self.imgs.clear();
    }
}

/// The whole character surface: an ordered list of windows.
pub struct TerminalScreen {
    pub rows: usize,
    pub cols: usize,
    pub winds: Vec<TerminalWindow>,
}

impl TerminalScreen {
    pub fn new(rows: usize, cols: usize) -> (s: TerminalScreen)
        ensures
            s.rows == rows,
            s.cols == cols,
            s.winds@.len() == 0,
    {
        TerminalScreen { rows, cols, winds: Vec::new() }
    }

    /// Adds a window behind the existing ones.
    pub fn add_window(
        &mut self,
        content: WindowContent,
        rows: usize,
        cols: usize,
        pos_x: usize,
        pos_y: usize,
        border: bool,
        bg: char,
    )
        ensures
            final(self).rows == old(self).rows,
            final(self).cols == old(self).cols,
            final(self).winds@.len() == old(self).winds@.len() + 1,
            forall|i: int|
                0 <= i < old(self).winds@.len() ==> #[trigger] final(self).winds@[i] == old(self).winds@[i],
            final(self).winds@.last().imgs@.len() == 0,
            final(self).winds@.last().content == content,
            final(self).winds@.last().rows == rows,
            final(self).winds@.last().cols == cols,
            final(self).winds@.last().pos_x == pos_x,
            final(self).winds@.last().pos_y == pos_y,
            border ==> final(self).winds@.last().vborder.is_some() && final(self).winds@.last().vborder.unwrap()@ == vborder_spec(cols as int, bg),
            border ==> final(self).winds@.last().hborder.is_some() && final(self).winds@.last().hborder.unwrap()@ == hborder_spec(cols as int),
            !border ==> final(self).winds@.last().vborder.is_none() && final(self).winds@.last().hborder.is_none(),
    {
        self.winds.push(TerminalWindow::new(content, rows, cols, pos_x, pos_y, border, bg));
    }

    /// The writes of one frame of window `idx`: border lines first, then each
    /// image clipped against the window rectangle.
    pub fn render_window(&self, idx: usize) -> (r: Vec<ScreenWrite>)
        requires
            idx < self.winds@.len(),
            geom_ok(self.winds@[idx as int]),
            imgs_ok(self.winds@[idx as int]),
        ensures
            window_writes_match(self.winds@[idx as int], r@),
    {
        window_writes(&self.winds[idx])
    }
}

/// The writes of one frame of `wind`: border lines first, then each image
/// clipped against the window rectangle.
pub fn window_writes(wind: &TerminalWindow) -> (r: Vec<ScreenWrite>)
    requires
        geom_ok(*wind),
        imgs_ok(*wind),
    ensures
        window_writes_match(*wind, r@),
{
    {
        let ghost w = *wind;
        let mut out: Vec<ScreenWrite> = Vec::new();

        if wind.vborder.is_some() && wind.hborder.is_some() {
            let vb = copy_chars(wind.vborder.as_ref().unwrap());
            let hb = copy_chars(wind.hborder.as_ref().unwrap());
            let mut y: usize = 0;
            while y < wind.rows
                invariant
                    y <= wind.rows,
                    w == *wind,
                    geom_ok(w),
                    wind.vborder.is_some() && wind.hborder.is_some(),
                    vb@ == w.vborder.unwrap()@,
                    out@.len() == y,
                    forall|i: int|
                        0 <= i < y ==> write_matches(
                            #[trigger] out@[i],
                            w.pos_x as int - 1,
                            w.pos_y as int + i,
                            w.vborder.unwrap()@,
                        ),
                decreases wind.rows - y,
            {
                let text = copy_chars(&vb);
                out.push(ScreenWrite { x: wind.pos_x - 1, y: wind.pos_y + y, text });
                y = y + 1;
            }
            let t1 = copy_chars(&hb);
            out.push(ScreenWrite { x: wind.pos_x - 1, y: wind.pos_y - 1, text: t1 });
            let t2 = hb;
            out.push(ScreenWrite { x: wind.pos_x - 1, y: wind.pos_y + wind.rows, text: t2 });
        }
        let ghost bn = border_count(w);
        proof {
            assert(out@.len() == bn);
        }

        let mut j: usize = 0;
        while j < wind.imgs.len()
            invariant
                j <= wind.imgs@.len(),
                w == *wind,
                geom_ok(w),
                imgs_ok(w),
                bn == border_count(w),
                out@.len() == bn + writes_count(w.imgs@, j as int, w.rows as int, w.cols as int),
                ((w.vborder.is_some() && w.hborder.is_some()) ==> border_writes_match(w, out@)),
                forall|j2: int, i: int|
                    0 <= j2 < j && 0 <= i < emit_count(w.imgs@[j2], w.rows as int, w.cols as int)
                        ==> write_matches(
                        #[trigger] img_write(out@, w, j2, i),
                        w.pos_x as int + w.imgs@[j2].pos_x as int + t_left(w.imgs@[j2]),
                        w.pos_y as int + w.imgs@[j2].pos_y as int + t_top(w.imgs@[j2]) + i,
                        row_text(w.imgs@[j2], w.cols as int, t_top(w.imgs@[j2]) + i),
                    ),
            decreases wind.imgs@.len() - j,
        {
            let ghost prev = out@;
            clip_image(&wind.imgs[j], wind.rows, wind.cols, wind.pos_x, wind.pos_y, &mut out);
            proof {
                lemma_writes_count_mono(w.imgs@, 0, j as int, w.rows as int, w.cols as int);
                if w.vborder.is_some() && w.hborder.is_some() {
                    assert forall|y: int| 0 <= y < w.rows implies write_matches(
                        #[trigger] out@[y],
                        w.pos_x as int - 1,
                        w.pos_y as int + y,
                        w.vborder.unwrap()@,
                    ) by {
                        assert(out@[y] == prev[y]);
                    }
                    assert(out@[w.rows as int] == prev[w.rows as int]);
                    assert(out@[w.rows as int + 1] == prev[w.rows as int + 1]);
                }
                assert forall|j2: int, i: int|
                    0 <= j2 < j + 1 && 0 <= i < emit_count(
                        w.imgs@[j2],
                        w.rows as int,
                        w.cols as int,
                    ) implies write_matches(
                    #[trigger] img_write(out@, w, j2, i),
                    w.pos_x as int + w.imgs@[j2].pos_x as int + t_left(w.imgs@[j2]),
                    w.pos_y as int + w.imgs@[j2].pos_y as int + t_top(w.imgs@[j2]) + i,
                    row_text(w.imgs@[j2], w.cols as int, t_top(w.imgs@[j2]) + i),
                ) by {
                    if j2 < j {
                        let pv = img_write(prev, w, j2, i);
                        let idx2 = bn + writes_count(
                            w.imgs@,
                            j2,
                            w.rows as int,
                            w.cols as int,
                        ) + i;
                        assert(0 <= idx2 < prev.len()) by {
                            lemma_writes_count_mono(
                                w.imgs@,
                                0,
                                j2,
                                w.rows as int,
                                w.cols as int,
                            );
                            lemma_writes_count_mono(
                                w.imgs@,
                                j2 + 1,
                                j as int,
                                w.rows as int,
                                w.cols as int,
                            );
                            assert(writes_count(w.imgs@, j2 + 1, w.rows as int, w.cols as int)
                                == writes_count(w.imgs@, j2, w.rows as int, w.cols as int)
                                + emit_count(w.imgs@[j2], w.rows as int, w.cols as int));
                        }
                        assert(out@[idx2] == prev[idx2]);
                    }
                }
            }
            j = j + 1;
        }
        out
    }
}

/// `writes_count` grows with its prefix length.
pub proof fn lemma_writes_count_mono(
    imgs: Seq<TerminalImage>,
    a: int,
    b: int,
    wrows: int,
    wcols: int,
)
    requires
        0 <= a <= b <= imgs.len(),
    ensures
        writes_count(imgs, a, wrows, wcols) <= writes_count(imgs, b, wrows, wcols),
    decreases b - a,
{
    if a < b {
        lemma_writes_count_mono(imgs, a, b - 1, wrows, wcols);
    }
}

/// Law: a sprite that lies fully inside the viewport is emitted whole, one
/// write per sprite row, each carrying the complete, unmodified row.
pub proof fn lemma_full_containment(img: TerminalImage, wrows: int, wcols: int)
    requires
        img.wf(),
        img.rows >= 1,
        img.cols >= 1,
        img.pos_x >= 0,
        img.pos_y >= 0,
        img.end_x as int <= wcols,
        img.end_y as int <= wrows,
    ensures
        t_left(img) == 0,
        t_top(img) == 0,
        t_right(img, wcols) == 0,
        t_bottom(img, wrows) == 0,
        emit_count(img, wrows, wcols) == img.rows,
        forall|i: int|
            0 <= i < img.rows ==> #[trigger] row_text(img, wcols, i) == img.gfx@.subrange(
                i * img.cols as int,
                i * img.cols as int + img.cols as int,
            ),
{
}

} // verus!
