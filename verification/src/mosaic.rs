use vstd::prelude::*;

use vstd::arithmetic::div_mod::lemma_fundamental_div_mod_converse;

verus! {

/// The grid of square blocks over which a mosaic region is pixelated: `cols`
/// by `rows` blocks of `block` pixels, the first with its top-left corner at
/// `(origin_x, origin_y)`.
#[derive(Clone, Copy, Debug, PartialEq, Eq, Structural)]
pub struct BlockGrid {
    pub origin_x: u32,
    pub origin_y: u32,
    pub block: u32,
    pub cols: u32,
    pub rows: u32,
}

/// The block size of a region: its mosaic size, at least one pixel.
pub open spec fn block_size(mosaic_size: u32) -> int {
    if mosaic_size >= 1 {
        mosaic_size as int
    } else {
        1
    }
}

/// The first multiple of `block` at or before `start`.
pub open spec fn aligned_start(start: int, block: int) -> int {
    (start / block) * block
}

/// How many blocks of `block` pixels, laid from `first`, start before `end`.
pub open spec fn blocks_before(first: int, end: int, block: int) -> int {
    (end - first + block - 1) / block
}

/// The grid of blocks that covers the pixel span `x0..x1` by `y0..y1` (already
/// clipped to the frame): blocks are aligned to multiples of the block size and
/// every block that starts before the span's end is included. `None` when the
/// span is empty.
pub fn block_grid(x0: i32, y0: i32, x1: i32, y1: i32, mosaic_size: u32) -> (r: Option<BlockGrid>)
    requires
        0 <= x0,
        0 <= y0,
        mosaic_size <= i32::MAX,
    ensures
        r is None <==> (x0 >= x1 || y0 >= y1),
        r matches Some(g) ==> {
            &&& g.block == block_size(mosaic_size)
            &&& g.origin_x == aligned_start(x0 as int, g.block as int)
            &&& g.origin_y == aligned_start(y0 as int, g.block as int)
            &&& g.cols == blocks_before(g.origin_x as int, x1 as int, g.block as int)
            &&& g.rows == blocks_before(g.origin_y as int, y1 as int, g.block as int)
        },
{
    if x0 >= x1 || y0 >= y1 {
        return None;
    }
    let block: u32 = if mosaic_size >= 1 {
        mosaic_size
    } else {
        1
    };
    let b = block as u64;
    proof {
        assert((x0 as int / b as int) * b as int <= x0 as int) by (nonlinear_arith)
            requires
                b >= 1,
                x0 >= 0,
        ;
        assert((y0 as int / b as int) * b as int <= y0 as int) by (nonlinear_arith)
            requires
                b >= 1,
                y0 >= 0,
        ;
        assert(0 <= (x0 as int / b as int) * b as int) by (nonlinear_arith)
            requires
                b >= 1,
                x0 >= 0,
        ;
        assert(0 <= (y0 as int / b as int) * b as int) by (nonlinear_arith)
            requires
                b >= 1,
                y0 >= 0,
        ;
    }
    let ox: u64 = (x0 as u64 / b) * b;
    let oy: u64 = (y0 as u64 / b) * b;
    let cols: u64 = (x1 as u64 - ox + b - 1) / b;
    let rows: u64 = (y1 as u64 - oy + b - 1) / b;
    proof {
        let nx: int = x1 - ox + b - 1;
        let ny: int = y1 - oy + b - 1;
        assert(nx / (b as int) <= nx) by (nonlinear_arith)
            requires
                b >= 1,
                nx >= 0,
        ;
        assert(ny / (b as int) <= ny) by (nonlinear_arith)
            requires
                b >= 1,
                ny >= 0,
        ;
    }
    Some(
        BlockGrid {
            origin_x: ox as u32,
            origin_y: oy as u32,
            block,
            cols: cols as u32,
            rows: rows as u32,
        },
    )
}

/// Offset in an RGB24 frame of `width` pixels of the first byte of pixel `(px, py)`.
pub open spec fn pixel_offset(width: int, px: int, py: int) -> int {
    (py * width + px) * 3
}

/// Channel `c` of pixel `(px, py)` in the RGB24 bytes `s`.
pub open spec fn channel(s: Seq<u8>, width: int, px: int, py: int, c: int) -> u8 {
    s[pixel_offset(width, px, py) + c]
}

/// Pixel `(px, py)` lies in a block of the grid that `hits` marks as touched by
/// the region, and `inside` (a mask over the grid's pixels, row by row) marks
/// it as lying within the region's rectangle.
pub open spec fn painted(g: BlockGrid, hits: Seq<bool>, inside: Seq<bool>, px: int, py: int) -> bool {
    let lx = px - g.origin_x;
    let ly = py - g.origin_y;
    &&& 0 <= lx < g.cols * g.block
    &&& 0 <= ly < g.rows * g.block
    &&& hits[(ly / g.block as int) * g.cols + lx / g.block as int]
    &&& inside[ly * (g.cols * g.block) + lx]
}

/// The top-left pixel of the block that holds `(px, py)`.
pub open spec fn block_origin_x(g: BlockGrid, px: int) -> int {
    g.origin_x + ((px - g.origin_x) / g.block as int) * g.block
}

pub open spec fn block_origin_y(g: BlockGrid, py: int) -> int {
    g.origin_y + ((py - g.origin_y) / g.block as int) * g.block
}

/// Channel `c` of pixel `(px, py)` after pixelation: a painted pixel whose bytes
/// all lie in the buffer takes the colour its block's top-left pixel had; every
/// other pixel keeps its colour.
pub open spec fn pixelated_channel(
    orig: Seq<u8>,
    width: int,
    g: BlockGrid,
    hits: Seq<bool>,
    inside: Seq<bool>,
    px: int,
    py: int,
    c: int,
) -> u8 {
    if painted(g, hits, inside, px, py) && pixel_offset(width, px, py) + 2 < orig.len() {
        channel(orig, width, block_origin_x(g, px), block_origin_y(g, py), c)
    } else {
        channel(orig, width, px, py, c)
    }
}

/// Distinct pixels and channels of a frame have distinct byte offsets.
proof fn lemma_offset_injective(
    width: int,
    px: int,
    py: int,
    c: int,
    qx: int,
    qy: int,
    d: int,
)
    requires
        0 <= px < width,
        0 <= qx < width,
        0 <= py,
        0 <= qy,
        0 <= c < 3,
        0 <= d < 3,
        pixel_offset(width, px, py) + c == pixel_offset(width, qx, qy) + d,
    ensures
        px == qx && py == qy && c == d,
{
    let v = pixel_offset(width, px, py) + c;
    lemma_fundamental_div_mod_converse(v, 3, py * width + px, c);
    lemma_fundamental_div_mod_converse(v, 3, qy * width + qx, d);
    lemma_fundamental_div_mod_converse(py * width + px, width, py, px);
    lemma_fundamental_div_mod_converse(qy * width + qx, width, qy, qx);
}

/// Every byte of a pixel of the frame lies before `width * height * 3`.
proof fn lemma_offset_in_frame(width: int, height: int, px: int, py: int)
    requires
        0 <= px < width,
        0 <= py < height,
    ensures
        0 <= pixel_offset(width, px, py),
        pixel_offset(width, px, py) + 2 < width * height * 3,
{
    assert(py * width + px < width * height) by (nonlinear_arith)
        requires
            0 <= px < width,
            0 <= py < height,
    ;
    assert(0 <= py * width) by (nonlinear_arith)
        requires
            0 <= py,
            0 <= width,
    ;
}

/// The top-left pixel of a pixel's block lies at or above and left of it, and
/// is its own block's top-left pixel.
proof fn lemma_block_origin(g: BlockGrid, px: int, py: int, width: int)
    requires
        g.block >= 1,
        g.origin_x <= px < width,
        g.origin_y <= py,
    ensures
        g.origin_x <= block_origin_x(g, px) <= px,
        g.origin_y <= block_origin_y(g, py) <= py,
        block_origin_x(g, block_origin_x(g, px)) == block_origin_x(g, px),
        block_origin_y(g, block_origin_y(g, py)) == block_origin_y(g, py),
        pixel_offset(width, block_origin_x(g, px), block_origin_y(g, py)) <= pixel_offset(
            width,
            px,
            py,
        ),
{
    let b = g.block as int;
    let kx = (px - g.origin_x) / b;
    let ky = (py - g.origin_y) / b;
    assert(0 <= kx * b <= px - g.origin_x) by (nonlinear_arith)
        requires
            b >= 1,
            px - g.origin_x >= 0,
            kx == (px - g.origin_x) / b,
    ;
    assert(0 <= ky * b <= py - g.origin_y) by (nonlinear_arith)
        requires
            b >= 1,
            py - g.origin_y >= 0,
            ky == (py - g.origin_y) / b,
    ;
    lemma_fundamental_div_mod_converse(kx * b, b, kx, 0);
    lemma_fundamental_div_mod_converse(ky * b, b, ky, 0);
    let rx = block_origin_x(g, px);
    let ry = block_origin_y(g, py);
    assert(ry * width <= py * width) by (nonlinear_arith)
        requires
            ry <= py,
            width >= 0,
    ;
}


/// Pixelates one region of an RGB24 frame of `width` by `height` pixels on the
/// block grid `grid`: every painted pixel (see `painted`) takes the colour of
/// its block's top-left pixel. `hits` marks, row by row, the blocks that the
/// region touches; `inside` marks, row by row, the grid's pixels that lie in
/// the region. Bytes beyond the frame are left alone, and so is a pixel whose
/// three bytes do not all lie in the buffer.
pub fn pixelate(
    pixels: &mut Vec<u8>,
    width: u32,
    height: u32,
    grid: &BlockGrid,
    hits: &Vec<bool>,
    inside: &Vec<bool>,
)
    requires
        grid.block >= 1,
        hits@.len() == grid.cols * grid.rows,
        inside@.len() == (grid.cols * grid.block) * (grid.rows * grid.block),
        width * height <= u32::MAX + 1,
    ensures
        final(pixels)@.len() == old(pixels)@.len(),
        forall|px: int, py: int, c: int|
            0 <= px < width && 0 <= py < height && 0 <= c < 3 && pixel_offset(width as int, px, py)
                + c < old(pixels)@.len() ==> #[trigger] channel(final(pixels)@, width as int, px, py, c)
                == pixelated_channel(old(pixels)@, width as int, *grid, hits@, inside@, px, py, c),
        forall|k: int|
            width * height * 3 <= k < old(pixels)@.len() ==> #[trigger] final(pixels)@[k] == old(
                pixels,
            )@[k],
{
    let ghost orig = pixels@;
    let ghost w = width as int;
    let ghost g = *grid;
    let len = pixels.len();
    let n_hits = hits.len();
    let n_inside = inside.len();
    let b = grid.block as u64;
    let ox = grid.origin_x as u64;
    let oy = grid.origin_y as u64;
    proof {
        assert(grid.cols * b <= u32::MAX * u32::MAX) by (nonlinear_arith)
            requires
                grid.cols <= u32::MAX,
                b <= u32::MAX,
        ;
        assert(grid.rows * b <= u32::MAX * u32::MAX) by (nonlinear_arith)
            requires
                grid.rows <= u32::MAX,
                b <= u32::MAX,
        ;
    }
    let gw: u64 = grid.cols as u64 * b;
    let gh: u64 = grid.rows as u64 * b;
    let x_end: u64 = if ox >= width as u64 {
        width as u64
    } else if gw < width as u64 - ox {
        ox + gw
    } else {
        width as u64
    };
    let y_end: u64 = if oy >= height as u64 {
        height as u64
    } else if gh < height as u64 - oy {
        oy + gh
    } else {
        height as u64
    };
    let mut py: u64 = oy;
    while py < y_end
        invariant
            len == orig.len(),
            n_hits == hits@.len(),
            n_inside == inside@.len(),
            pixels@.len() == orig.len(),
            w == width,
            g == *grid,
            b == g.block,
            b >= 1,
            ox == g.origin_x,
            oy == g.origin_y,
            gw == g.cols * g.block,
            gh == g.rows * g.block,
            x_end <= width,
            y_end <= height,
            x_end <= ox + gw,
            y_end <= oy + gh,
            x_end < ox + gw ==> x_end == width,
            y_end < oy + gh ==> y_end == height,
            hits@.len() == g.cols * g.rows,
            inside@.len() == gw * gh,
            width * height <= u32::MAX + 1,
            oy <= py,
            forall|qx: int, qy: int, c: int|
                0 <= qx < width && 0 <= qy < height && 0 <= c < 3 && pixel_offset(w, qx, qy) + c
                    < orig.len() ==> #[trigger] channel(pixels@, w, qx, qy, c) == if qy < py {
                    pixelated_channel(orig, w, g, hits@, inside@, qx, qy, c)
                } else {
                    channel(orig, w, qx, qy, c)
                },
            forall|k: int| width * height * 3 <= k < orig.len() ==> #[trigger] pixels@[k] == orig[k],
        decreases y_end - py,
    {
        let mut px: u64 = ox;
        while px < x_end
            invariant
                len == orig.len(),
                n_hits == hits@.len(),
                n_inside == inside@.len(),
                pixels@.len() == orig.len(),
                w == width,
                g == *grid,
                b == g.block,
                b >= 1,
                ox == g.origin_x,
                oy == g.origin_y,
                gw == g.cols * g.block,
                gh == g.rows * g.block,
                x_end <= width,
                y_end <= height,
                x_end <= ox + gw,
                y_end <= oy + gh,
                x_end < ox + gw ==> x_end == width,
                y_end < oy + gh ==> y_end == height,
                hits@.len() == g.cols * g.rows,
                inside@.len() == gw * gh,
                width * height <= u32::MAX + 1,
                oy <= py < y_end,
                ox <= px,
                forall|qx: int, qy: int, c: int|
                    0 <= qx < width && 0 <= qy < height && 0 <= c < 3 && pixel_offset(w, qx, qy)
                        + c < orig.len() ==> #[trigger] channel(pixels@, w, qx, qy, c) == if qy < py
                        || (qy == py && qx < px) {
                        pixelated_channel(orig, w, g, hits@, inside@, qx, qy, c)
                    } else {
                        channel(orig, w, qx, qy, c)
                    },
                forall|k: int| width * height * 3 <= k < orig.len() ==> #[trigger] pixels@[k] == orig[k],
            decreases x_end - px,
        {
            let lx = px - ox;
            let ly = py - oy;
            let kx = lx / b;
            let ky = ly / b;
            proof {
                assert(kx < g.cols && ky < g.rows && ky * g.cols + kx < g.cols * g.rows && ly * gw
                    + lx < gw * gh) by (nonlinear_arith)
                    requires
                        b >= 1,
                        0 <= lx < gw,
                        0 <= ly < gh,
                        gw == g.cols * b,
                        gh == g.rows * b,
                        kx == lx / b,
                        ky == ly / b,
                ;
                lemma_offset_in_frame(w, height as int, px as int, py as int);
                lemma_block_origin(g, px as int, py as int, w);
                assert(kx * b == ((px - g.origin_x) / g.block as int) * g.block);
                assert(ky * b == ((py - g.origin_y) / g.block as int) * g.block);
            }
            let hit = hits[(ky * grid.cols as u64 + kx) as usize];
            let ins = inside[(ly * gw + lx) as usize];
            let off: u64 = (py * width as u64 + px) * 3;
            let ghost before = pixels@;
            if hit && ins && off + 2 < len as u64 {
                let i = off as usize;
                let rx = ox + kx * b;
                let ry = oy + ky * b;
                proof {
                    assert(rx == block_origin_x(g, px as int));
                    assert(ry == block_origin_y(g, py as int));
                    lemma_offset_in_frame(w, height as int, rx as int, ry as int);
                }
                let ri = ((ry * width as u64 + rx) * 3) as usize;
                assert(ri as int <= i as int);
                let red = pixels[ri];
                let green = pixels[ri + 1];
                let blue = pixels[ri + 2];
                proof {
                    assert forall|c: int| 0 <= c < 3 implies #[trigger] channel(before, w, rx as int, ry as int, c)
                        == channel(orig, w, rx as int, ry as int, c) by {
                        if ry < py || (ry == py && rx < px) {
                            assert(channel(before, w, rx as int, ry as int, c) == pixelated_channel(
                                orig, w, g, hits@, inside@, rx as int, ry as int, c));
                        }
                    }
                    assert(red == channel(before, w, rx as int, ry as int, 0));
                    assert(green == channel(before, w, rx as int, ry as int, 1));
                    assert(blue == channel(before, w, rx as int, ry as int, 2));
                }
                pixels.set(i, red);
                pixels.set(i + 1, green);
                pixels.set(i + 2, blue);
                proof {
                    assert forall|qx: int, qy: int, c: int|
                        0 <= qx < width && 0 <= qy < height && 0 <= c < 3 && pixel_offset(w, qx, qy)
                            + c < orig.len() implies #[trigger] channel(pixels@, w, qx, qy, c) == if qy
                            < py || (qy == py && qx < px + 1) {
                            pixelated_channel(orig, w, g, hits@, inside@, qx, qy, c)
                        } else {
                            channel(orig, w, qx, qy, c)
                        } by {
                        if qx == px && qy == py {
                        } else {
                            let o = pixel_offset(w, qx, qy) + c;
                            if o == i || o == i + 1 || o == i + 2 {
                                lemma_offset_injective(w, qx, qy, c, px as int, py as int, o - i);
                            }
                            assert(channel(pixels@, w, qx, qy, c) == channel(before, w, qx, qy, c));
                        }
                    }
                }
            } else {
                proof {
                    assert(!(painted(g, hits@, inside@, px as int, py as int) && pixel_offset(
                        w,
                        px as int,
                        py as int,
                    ) + 2 < orig.len()));
                }
            }
            px = px + 1;
        }
        proof {
            assert forall|qx: int, qy: int, c: int|
                0 <= qx < width && 0 <= qy < height && 0 <= c < 3 && pixel_offset(w, qx, qy) + c
                    < orig.len() && qy == py && qx >= px implies channel(orig, w, qx, qy, c)
                == pixelated_channel(orig, w, g, hits@, inside@, qx, qy, c) by {
                assert(!painted(g, hits@, inside@, qx, qy));
            }
        }
        py = py + 1;
    }
    proof {
        assert forall|qx: int, qy: int, c: int|
            0 <= qx < width && 0 <= qy < height && 0 <= c < 3 && pixel_offset(w, qx, qy) + c
                < orig.len() && qy >= py implies channel(orig, w, qx, qy, c) == pixelated_channel(
            orig,
            w,
            g,
            hits@,
            inside@,
            qx,
            qy,
            c,
        ) by {
            assert(!painted(g, hits@, inside@, qx, qy));
        }
    }
}

/// After pixelation every painted pixel of a block carries one colour: that of
/// the block's top-left pixel.
pub proof fn lemma_block_uniform(
    orig: Seq<u8>,
    width: int,
    g: BlockGrid,
    hits: Seq<bool>,
    inside: Seq<bool>,
    px: int,
    py: int,
    qx: int,
    qy: int,
    c: int,
)
    requires
        painted(g, hits, inside, px, py),
        painted(g, hits, inside, qx, qy),
        block_origin_x(g, px) == block_origin_x(g, qx),
        block_origin_y(g, py) == block_origin_y(g, qy),
        pixel_offset(width, px, py) + 2 < orig.len(),
        pixel_offset(width, qx, qy) + 2 < orig.len(),
    ensures
        pixelated_channel(orig, width, g, hits, inside, px, py, c) == pixelated_channel(
            orig,
            width,
            g,
            hits,
            inside,
            qx,
            qy,
            c,
        ),
{
}

} // verus!
