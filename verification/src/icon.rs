//! The window icon, drawn in code: a stylised "w" on an off-white card with
//! a dark border, 64 by 64 RGBA.
use vstd::prelude::*;

verus! {

/// Side of the icon in pixels.
pub const ICON_SIZE: u32 = 64;

/// The glyph, eight by eight cells; each cell is six pixels square.
pub open spec fn glyph() -> Seq<Seq<u8>> {
    seq![
        seq![0u8, 0, 0, 0, 0, 0, 0, 0],
        seq![0u8, 0, 0, 0, 0, 0, 0, 0],
        seq![1u8, 0, 0, 1, 0, 1, 0, 0],
        seq![1u8, 0, 0, 1, 0, 1, 0, 0],
        seq![1u8, 0, 1, 0, 1, 0, 1, 0],
        seq![1u8, 0, 1, 0, 1, 0, 1, 0],
        seq![0u8, 1, 0, 0, 0, 1, 0, 0],
        seq![0u8, 0, 0, 0, 0, 0, 0, 0],
    ]
}

/// Pixel `(x, y)` lies in an inked glyph cell (the glyph is centred: an
/// eight-pixel margin on each side).
pub open spec fn in_glyph(x: int, y: int) -> bool {
    &&& 8 <= x < 56
    &&& 8 <= y < 56
    &&& glyph()[(y - 8) / 6][(x - 8) / 6] == 1
}

pub open spec fn on_border(x: int, y: int) -> bool {
    x == 0 || x == 63 || y == 0 || y == 63
}

/// The colour of pixel `(x, y)`.
pub open spec fn icon_pixel(x: int, y: int) -> Seq<u8> {
    if in_glyph(x, y) {
        seq![18u8, 18, 18, 255]
    } else if on_border(x, y) {
        seq![40u8, 40, 40, 255]
    } else {
        seq![251u8, 251, 251, 255]
    }
}

fn glyph_row(gy: u32) -> (r: [u8; 8])
    requires
        gy < 8,
    ensures
        r@ == glyph()[gy as int],
{
    let r = if gy == 2 || gy == 3 {
        [1u8, 0, 0, 1, 0, 1, 0, 0]
    } else if gy == 4 || gy == 5 {
        [1u8, 0, 1, 0, 1, 0, 1, 0]
    } else if gy == 6 {
        [0u8, 1, 0, 0, 0, 1, 0, 0]
    } else {
        [0u8, 0, 0, 0, 0, 0, 0, 0]
    };
    assert(r@ =~= glyph()[gy as int]);
    r
}

fn pixel(x: u32, y: u32) -> (c: [u8; 4])
    requires
        x < 64,
        y < 64,
    ensures
        c@ == icon_pixel(x as int, y as int),
{
    if 8 <= x && x < 56 && 8 <= y && y < 56 {
        let row = glyph_row((y - 8) / 6);
        if row[((x - 8) / 6) as usize] == 1 {
            let c = [18u8, 18, 18, 255];
            assert(c@ =~= icon_pixel(x as int, y as int));
            return c;
        }
    }
    let c = if x == 0 || x == 63 || y == 0 || y == 63 {
        [40u8, 40, 40, 255]
    } else {
        [251u8, 251, 251, 255]
    };
    assert(c@ =~= icon_pixel(x as int, y as int));
    c
}

/// The icon as (width, height, RGBA bytes row by row).
pub fn rgba_64() -> (r: (u32, u32, Vec<u8>))
    ensures
        r.0 == 64,
        r.1 == 64,
        r.2@.len() == 64 * 64 * 4,
        forall|x: int, y: int, c: int|
            0 <= x < 64 && 0 <= y < 64 && 0 <= c < 4 ==> #[trigger] r.2@[(y * 64 + x) * 4 + c]
                == icon_pixel(x, y)[c],
{
    let mut buf: Vec<u8> = Vec::new();
    let mut y: u32 = 0;
    while y < 64
        invariant
            y <= 64,
            buf@.len() == (y as int) * 256,
            forall|px: int, py: int, c: int|
                0 <= px < 64 && 0 <= py < y && 0 <= c < 4 ==> #[trigger] buf@[(py * 64 + px) * 4 + c]
                    == icon_pixel(px, py)[c],
        decreases 64 - y,
    {
        let mut x: u32 = 0;
        while x < 64
            invariant
                y < 64,
                x <= 64,
                buf@.len() == (y as int) * 256 + (x as int) * 4,
                forall|px: int, py: int, c: int|
                    0 <= px < 64 && 0 <= py < y && 0 <= c < 4 ==> #[trigger] buf@[(py * 64 + px) * 4
                        + c] == icon_pixel(px, py)[c],
                forall|px: int, c: int|
                    0 <= px < x && 0 <= c < 4 ==> #[trigger] buf@[(y * 64 + px) * 4 + c]
                        == icon_pixel(px, y as int)[c],
            decreases 64 - x,
        {
            let c = pixel(x, y);
            let ghost before = buf@;
            buf.push(c[0]);
            buf.push(c[1]);
            buf.push(c[2]);
            buf.push(c[3]);
            proof {
                let base = (y as int) * 256 + (x as int) * 4;
                assert(buf@ =~= before + seq![c[0], c[1], c[2], c[3]]);
                assert forall|px: int, py: int, cc: int|
                    0 <= px < 64 && 0 <= py < y && 0 <= cc < 4 implies #[trigger] buf@[(py * 64
                        + px) * 4 + cc] == icon_pixel(px, py)[cc] by {
                    assert((py * 64 + px) * 4 + cc < (y as int) * 256);
                    assert(buf@[(py * 64 + px) * 4 + cc] == before[(py * 64 + px) * 4 + cc]);
                }
                assert forall|px: int, cc: int|
                    0 <= px < x + 1 && 0 <= cc < 4 implies #[trigger] buf@[(y * 64 + px) * 4 + cc]
                        == icon_pixel(px, y as int)[cc] by {
                    if px < x {
                        assert(buf@[(y * 64 + px) * 4 + cc] == before[(y * 64 + px) * 4 + cc]);
                    } else {
                        assert((y * 64 + px) * 4 + cc == base + cc);
                    }
                }
            }
            x = x + 1;
        }
        proof {
            assert forall|px: int, py: int, c: int|
                0 <= px < 64 && 0 <= py < y + 1 && 0 <= c < 4 implies #[trigger] buf@[(py * 64
                    + px) * 4 + c] == icon_pixel(px, py)[c] by {
                if py == y {
                    assert(buf@[(y * 64 + px) * 4 + c] == icon_pixel(px, y as int)[c]);
                }
            }
        }
        y = y + 1;
    }
    (ICON_SIZE, ICON_SIZE, buf)
}

} // verus!
