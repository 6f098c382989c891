use lvmosaic::mosaic::{block_grid, pixelate, BlockGrid};

fn frame(width: u32, height: u32) -> Vec<u8> {
    let mut v = Vec::new();
    for i in 0..(width * height) {
        v.push(i as u8);
        v.push(100 + i as u8);
        v.push(200u8.wrapping_add(i as u8));
    }
    v
}

fn px(v: &[u8], width: u32, x: u32, y: u32) -> (u8, u8, u8) {
    let i = ((y * width + x) * 3) as usize;
    (v[i], v[i + 1], v[i + 2])
}

#[test]
fn grid_covers_the_span() {
    assert_eq!(block_grid(5, 3, 5, 9, 16), None);
    assert_eq!(block_grid(5, 3, 9, 3, 16), None);
    assert_eq!(
        block_grid(5, 3, 40, 20, 16),
        Some(BlockGrid { origin_x: 0, origin_y: 0, block: 16, cols: 3, rows: 2 })
    );
    assert_eq!(
        block_grid(17, 32, 33, 48, 16),
        Some(BlockGrid { origin_x: 16, origin_y: 32, block: 16, cols: 2, rows: 1 })
    );
    // a zero mosaic size still pixelates with one-pixel blocks
    assert_eq!(
        block_grid(2, 2, 4, 3, 0),
        Some(BlockGrid { origin_x: 2, origin_y: 2, block: 1, cols: 2, rows: 1 })
    );
}

#[test]
fn blocks_take_their_top_left_colour() {
    let (w, h) = (4u32, 4u32);
    let orig = frame(w, h);
    let mut pixels = orig.clone();
    let grid = BlockGrid { origin_x: 0, origin_y: 0, block: 2, cols: 2, rows: 2 };
    let hits = vec![true; 4];
    let inside = vec![true; 16];
    pixelate(&mut pixels, w, h, &grid, &hits, &inside);
    for y in 0..h {
        for x in 0..w {
            assert_eq!(px(&pixels, w, x, y), px(&orig, w, x / 2 * 2, y / 2 * 2));
        }
    }
}

#[test]
fn only_marked_pixels_change() {
    let (w, h) = (4u32, 3u32);
    let orig = frame(w, h);
    let mut pixels = orig.clone();
    let grid = BlockGrid { origin_x: 2, origin_y: 0, block: 2, cols: 1, rows: 2 };
    // the lower block is not touched; in the upper one pixel (3, 1) lies outside
    let hits = vec![true, false];
    let mut inside = vec![true; 8];
    inside[3] = false;
    pixelate(&mut pixels, w, h, &grid, &hits, &inside);
    for y in 0..h {
        for x in 0..w {
            let expected = if x >= 2 && y < 2 && !(x == 3 && y == 1) {
                px(&orig, w, 2, 0)
            } else {
                px(&orig, w, x, y)
            };
            assert_eq!(px(&pixels, w, x, y), expected, "pixel ({}, {})", x, y);
        }
    }
}

#[test]
fn grid_past_the_frame_and_short_buffers() {
    let (w, h) = (3u32, 3u32);
    let orig = frame(w, h);
    let mut pixels = orig.clone();
    // blocks reach past the right and bottom edges
    let grid = BlockGrid { origin_x: 0, origin_y: 0, block: 4, cols: 1, rows: 1 };
    pixelate(&mut pixels, w, h, &grid, &vec![true], &vec![true; 16]);
    for y in 0..h {
        for x in 0..w {
            assert_eq!(px(&pixels, w, x, y), px(&orig, w, 0, 0));
        }
    }
    // a buffer cut short keeps its incomplete last pixel
    let mut short = frame(w, h);
    short.truncate(26);
    let before = short.clone();
    pixelate(&mut short, w, h, &grid, &vec![true], &vec![true; 16]);
    assert_eq!(short.len(), 26);
    assert_eq!(&short[0..3], &before[0..3]);
    assert_eq!(&short[21..24], &before[0..3]);
    assert_eq!(&short[24..26], &before[24..26]);
}
