//! The sprite catalog: fixed glyph blocks addressed by index, and the
//! positioned images composed from them each frame.
use vstd::prelude::*;

use vstd::string::StrSliceExecFns;

verus! {

/// Number of entries in the sprite catalog.
pub const CATALOG_LEN: usize = 26;

/// Catalog index of the explorer glyph.
pub const HERO_TILE: usize = 16;

/// Catalog index of the fog-of-war tile shown for unvisited cells.
pub const UNKNOWN_TILE: usize = 25;

/// An immutable glyph block: `rows * cols` characters, row-major.
pub struct RawImage {
    pub gfx: Vec<char>,
    pub rows: usize,
    pub cols: usize,
}

/// The buffer holds one character per cell and the block is small.
pub open spec fn raw_wf(im: RawImage) -> bool {
    &&& im.gfx@.len() == im.rows * im.cols
    &&& 1 <= im.rows <= 100
    &&& 1 <= im.cols <= 100
}

/// The exact glyph strings of the catalog, entry by entry.
pub open spec fn catalog_content(t: Seq<RawImage>) -> bool {
    &&& t.len() == CATALOG_LEN
    &&& t[0].gfx@ == "#################################################################################"@
    &&& t[1].gfx@ == "###...######...######...######...######...######...##############################"@
    &&& t[2].gfx@ == "##############################......###......###......###########################"@
    &&& t[3].gfx@ == "###...######...######...######......###......###......###########################"@
    &&& t[4].gfx@ == "##############################...######...######...######...######...######...###"@
    &&& t[5].gfx@ == "###...######...######...######...######...######...######...######...######...###"@
    &&& t[6].gfx@ == "##############################......###......###......###...######...######...###"@
    &&& t[7].gfx@ == "###...######...######...######......###......###......###...######...######...###"@
    &&& t[8].gfx@ == "###########################......###......###......##############################"@
    &&& t[9].gfx@ == "###...######...######...###......###......###......##############################"@
    &&& t[10].gfx@ == "###########################...........................###########################"@
    &&& t[11].gfx@ == "###...######...######...###...........................###########################"@
    &&& t[12].gfx@ == "###########################......###......###......######...######...######...###"@
    &&& t[13].gfx@ == "###...######...######...###......###......###......######...######...######...###"@
    &&& t[14].gfx@ == "###########################...........................###...######...######...###"@
    &&& t[15].gfx@ == "###...######...######...###...........................###...######...######...###"@
    &&& t[16].gfx@ == "@"@
    &&& t[17].gfx@ == "LEVEL: "@
    &&& t[18].gfx@ == "-----------"@
    &&& t[19].gfx@ == "ATTACK: "@
    &&& t[20].gfx@ == "ARMOR: "@
    &&& t[21].gfx@ == "SPEED: "@
    &&& t[22].gfx@ == "EXP: "@
    &&& t[23].gfx@ == r"     ______        -'      '-    /            \ |              ||,   -    -   ,|| )(__/  \__)( ||/     /\     \|(_     ^^     _) \__|IIIIII|__/   |-\IIIIII/-|    \          /     `--------`                   "@
    &&& t[24].gfx@ == r"EXPLORATION"@
    &&& t[25].gfx@ == "?????????????????????????????????????????????????????????????????????????????????"@
}

/// A usable catalog: all entries well formed, wall tiles 0..=15 and the
/// fog tile are 9 by 9 blocks, the explorer glyph is a single character, and
/// every entry holds exactly its fixed glyph string.
pub open spec fn catalog_wf(t: Seq<RawImage>) -> bool {
    &&& t.len() == CATALOG_LEN
    &&& forall|i: int| 0 <= i < t.len() ==> raw_wf(#[trigger] t[i])
    &&& forall|i: int| 0 <= i < 16 ==> (#[trigger] t[i]).rows == 9 && t[i].cols == 9
    &&& t[16].rows == 1 && t[16].cols == 1
    &&& t[25].rows == 9 && t[25].cols == 9
    &&& catalog_content(t)
}

/// The characters of `s`, one by one.
fn chars_of(s: &str) -> (r: Vec<char>)
    ensures
        r@ == s@,
{
    let n = s.unicode_len();
    let mut r: Vec<char> = Vec::new();
    let mut i: usize = 0;
    while i < n
        invariant
            i <= n,
            n == s@.len(),
            r@ == s@.subrange(0, i as int),
        decreases n - i,
    {
        let c = s.get_char(i);
        r.push(c);
        proof {
            assert(r@ =~= s@.subrange(0, i + 1 as int));
        }
        i = i + 1;
    }
    proof {
        assert(r@ =~= s@);
    }
    r
}

/// One catalog entry from its glyph string.
fn raw(s: &str, rows: usize, cols: usize) -> (r: RawImage)
    requires
        s@.len() == rows * cols,
        1 <= rows <= 100,
        1 <= cols <= 100,
    ensures
        raw_wf(r),
        r.rows == rows,
        r.cols == cols,
        r.gfx@ == s@,
{
    RawImage { gfx: chars_of(s), rows, cols }
}

/// The sprite catalog, in its fixed order: the 16 wall-pattern tiles, one per
/// mask value, then the explorer glyph, the stat labels, the skull, the
/// banner, and the fog tile.
pub fn graphics() -> (r: Vec<RawImage>)
    ensures
        catalog_wf(r@),
{
    let mut v: Vec<RawImage> = Vec::new();
    proof {
        reveal_strlit("#################################################################################");
    }
    v.push(raw("#################################################################################", 9, 9));
    proof {
        reveal_strlit("###...######...######...######...######...######...##############################");
    }
    v.push(raw("###...######...######...######...######...######...##############################", 9, 9));
    proof {
        reveal_strlit("##############################......###......###......###########################");
    }
    v.push(raw("##############################......###......###......###########################", 9, 9));
    proof {
        reveal_strlit("###...######...######...######......###......###......###########################");
    }
    v.push(raw("###...######...######...######......###......###......###########################", 9, 9));
    proof {
        reveal_strlit("##############################...######...######...######...######...######...###");
    }
    v.push(raw("##############################...######...######...######...######...######...###", 9, 9));
    proof {
        reveal_strlit("###...######...######...######...######...######...######...######...######...###");
    }
    v.push(raw("###...######...######...######...######...######...######...######...######...###", 9, 9));
    proof {
        reveal_strlit("##############################......###......###......###...######...######...###");
    }
    v.push(raw("##############################......###......###......###...######...######...###", 9, 9));
    proof {
        reveal_strlit("###...######...######...######......###......###......###...######...######...###");
    }
    v.push(raw("###...######...######...######......###......###......###...######...######...###", 9, 9));
    proof {
        reveal_strlit("###########################......###......###......##############################");
    }
    v.push(raw("###########################......###......###......##############################", 9, 9));
    proof {
        reveal_strlit("###...######...######...###......###......###......##############################");
    }
    v.push(raw("###...######...######...###......###......###......##############################", 9, 9));
    proof {
        reveal_strlit("###########################...........................###########################");
    }
    v.push(raw("###########################...........................###########################", 9, 9));
    proof {
        reveal_strlit("###...######...######...###...........................###########################");
    }
    v.push(raw("###...######...######...###...........................###########################", 9, 9));
    proof {
        reveal_strlit("###########################......###......###......######...######...######...###");
    }
    v.push(raw("###########################......###......###......######...######...######...###", 9, 9));
    proof {
        reveal_strlit("###...######...######...###......###......###......######...######...######...###");
    }
    v.push(raw("###...######...######...###......###......###......######...######...######...###", 9, 9));
    proof {
        reveal_strlit("###########################...........................###...######...######...###");
    }
    v.push(raw("###########################...........................###...######...######...###", 9, 9));
    proof {
        reveal_strlit("###...######...######...###...........................###...######...######...###");
    }
    v.push(raw("###...######...######...###...........................###...######...######...###", 9, 9));
    proof {
        reveal_strlit("@");
    }
    v.push(raw("@", 1, 1));
    proof {
        reveal_strlit("LEVEL: ");
    }
    v.push(raw("LEVEL: ", 1, 7));
    proof {
        reveal_strlit("-----------");
    }
    v.push(raw("-----------", 1, 11));
    proof {
        reveal_strlit("ATTACK: ");
    }
    v.push(raw("ATTACK: ", 1, 8));
    proof {
        reveal_strlit("ARMOR: ");
    }
    v.push(raw("ARMOR: ", 1, 7));
    proof {
        reveal_strlit("SPEED: ");
    }
    v.push(raw("SPEED: ", 1, 7));
    proof {
        reveal_strlit("EXP: ");
    }
    v.push(raw("EXP: ", 1, 5));
    proof {
        reveal_strlit(r"     ______        -'      '-    /            \ |              ||,   -    -   ,|| )(__/  \__)( ||/     /\     \|(_     ^^     _) \__|IIIIII|__/   |-\IIIIII/-|    \          /     `--------`                   ");
    }
    v.push(raw(r"     ______        -'      '-    /            \ |              ||,   -    -   ,|| )(__/  \__)( ||/     /\     \|(_     ^^     _) \__|IIIIII|__/   |-\IIIIII/-|    \          /     `--------`                   ", 13, 16));
    proof {
        reveal_strlit(r"EXPLORATION");
    }
    v.push(raw(r"EXPLORATION", 1, 11));
    proof {
        reveal_strlit("?????????????????????????????????????????????????????????????????????????????????");
    }
    v.push(raw("?????????????????????????????????????????????????????????????????????????????????", 9, 9));
    v
}

/// A glyph block placed at a viewport-local position; the position may be
/// negative when the block hangs off the top or left edge.
pub struct TerminalImage {
    pub gfx: Vec<char>,
    pub rows: usize,
    pub cols: usize,
    pub pos_x: isize,
    pub pos_y: isize,
    pub end_x: isize,
    pub end_y: isize,
}

impl TerminalImage {
    /// The buffer matches the block size, the bounding box is derived from
    /// the position, and the position is within symmetric machine range.
    pub open spec fn wf(self) -> bool {
        &&& self.gfx@.len() == self.rows * self.cols
        &&& self.rows * self.cols <= usize::MAX
        &&& self.end_x as int == self.pos_x as int + self.cols as int
        &&& self.end_y as int == self.pos_y as int + self.rows as int
        &&& -(isize::MAX as int) <= self.pos_x as int
        &&& -(isize::MAX as int) <= self.pos_y as int
    }

    /// An image showing catalog entry `raw` at (pos_x, pos_y).
    pub fn new(raw: &RawImage, pos_x: isize, pos_y: isize) -> (r: TerminalImage)
        requires
            raw_wf(*raw),
            pos_x as int + raw.cols as int <= isize::MAX as int,
            pos_y as int + raw.rows as int <= isize::MAX as int,
            -(isize::MAX as int) <= pos_x as int,
            -(isize::MAX as int) <= pos_y as int,
        ensures
            r.wf(),
            r.gfx@ == raw.gfx@,
            r.rows == raw.rows,
            r.cols == raw.cols,
            r.pos_x == pos_x,
            r.pos_y == pos_y,
            r.end_x as int == pos_x as int + raw.cols as int,
            r.end_y as int == pos_y as int + raw.rows as int,
    {
        let mut gfx: Vec<char> = Vec::new();
        let mut i: usize = 0;
        let n = raw.gfx.len();
        while i < n
            invariant
                i <= n,
                n == raw.gfx@.len(),
                gfx@ == raw.gfx@.subrange(0, i as int),
            decreases n - i,
        {
            gfx.push(raw.gfx[i]);
            proof {
                assert(gfx@ =~= raw.gfx@.subrange(0, i + 1 as int));
            }
            i = i + 1;
        }
        proof {
            assert(gfx@ =~= raw.gfx@);
        }
        proof {
            vstd::arithmetic::mul::lemma_mul_upper_bound(
                raw.rows as int,
                100,
                raw.cols as int,
                100,
            );
        }
        TerminalImage {
            gfx,
            rows: raw.rows,
            cols: raw.cols,
            pos_x,
            pos_y,
            end_x: pos_x + raw.cols as isize,
            end_y: pos_y + raw.rows as isize,
        }
    }

    /// A one-line image holding the given text.
    pub fn with_text(text: Vec<char>, pos_x: isize, pos_y: isize) -> (r: TerminalImage)
        requires
            text@.len() < isize::MAX as int,
            pos_x as int + text@.len() <= isize::MAX as int,
            pos_y as int + 1 <= isize::MAX as int,
            -(isize::MAX as int) <= pos_x as int,
            -(isize::MAX as int) <= pos_y as int,
        ensures
            r.wf(),
            r.gfx@ == text@,
            r.rows == 1,
            r.cols == text@.len(),
            r.pos_x == pos_x,
            r.pos_y == pos_y,
    {
        let len = text.len();
        TerminalImage {
            gfx: text,
            rows: 1,
            cols: len,
            pos_x,
            pos_y,
            end_x: pos_x + len as isize,
            end_y: pos_y + 1,
        }
    }
}

} // verus!
