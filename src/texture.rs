use vstd::prelude::*;

verus! {

/// The side of the square debug texture, in pixels.
pub const TEXTURE_SIZE: usize = 8;

/// The colours of one row of the debug texture, four bytes (RGBA) per pixel.
pub open spec fn palette() -> Seq<u8> {
    seq![
        255u8, 102, 159, 255, 255, 159, 102, 255, 236, 255, 102, 255, 121, 255, 102, 255,
        102, 255, 198, 255, 102, 198, 255, 255, 121, 102, 255, 255, 236, 102, 255, 255,
    ]
}

/// Byte `i` of row `y`: each row is the palette turned right by one more pixel
/// than the row above.
pub open spec fn texel_byte(y: int, i: int) -> u8 {
    palette()[(i - 4 * y) % 32]
}

/// The RGBA bytes of a colourful 8 by 8 test pattern, row after row.
pub fn uv_debug_texture_data() -> (r: Vec<u8>)
    ensures
        r@.len() == TEXTURE_SIZE * TEXTURE_SIZE * 4,
        forall|y: int, i: int| 0 <= y < 8 && 0 <= i < 32 ==> r@[32 * y + i] == texel_byte(y, i),
{
    let pal: Vec<u8> = vec![
        255, 102, 159, 255, 255, 159, 102, 255, 236, 255, 102, 255, 121, 255, 102, 255,
        102, 255, 198, 255, 102, 198, 255, 255, 121, 102, 255, 255, 236, 102, 255, 255,
    ];
    assert(pal@ =~= palette());
    let mut out: Vec<u8> = Vec::with_capacity(TEXTURE_SIZE * TEXTURE_SIZE * 4);
    let mut y: usize = 0;
    while y < TEXTURE_SIZE
        invariant
            pal@ == palette(),
            y <= 8,
            out@.len() == 32 * y,
            forall|yy: int, i: int| 0 <= yy < y && 0 <= i < 32 ==> out@[32 * yy + i] == texel_byte(yy, i),
        decreases 8 - y,
    {
        let mut i: usize = 0;
        while i < 32
            invariant
                pal@ == palette(),
                y < 8,
                i <= 32,
                out@.len() == 32 * y + i,
                forall|yy: int, j: int| 0 <= yy < y && 0 <= j < 32 ==> out@[32 * yy + j] == texel_byte(yy, j),
                forall|j: int| 0 <= j < i ==> out@[32 * y + j] == texel_byte(y as int, j),
            decreases 32 - i,
        {
            let src = (i + 32 - (4 * y) % 32) % 32;
            assert(src as int == (i - 4 * y) % 32) by (nonlinear_arith)
                requires src == (i + 32 - (4 * y) % 32) % 32, i < 32, y < 8;
            out.push(pal[src]);
            i += 1;
        }
        y += 1;
    }
    out
}

} // verus!
