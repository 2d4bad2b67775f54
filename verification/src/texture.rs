//! CPU-side texture payload shared by the WAD/BSP decoders, the asset
//! pipeline and the renderer upload path.
use vstd::prelude::*;

verus! {

/// An 8-bit RGBA texture in row-major order (top-left origin).
#[derive(Clone, Debug, Default)]
pub struct TextureData {
    pub width: u32,
    pub height: u32,
    /// `width * height * 4` bytes, RGBA8.
    pub rgba: Vec<u8>,
}

/// The colour of texel `(x, y)` of the missing-texture checker: 4×4 cells
/// alternating magenta and black, starting magenta at the origin.
pub open spec fn checker_texel(x: int, y: int) -> Seq<u8> {
    if ((x / 4) + (y / 4)) % 2 == 0 {
        seq![255u8, 0u8, 255u8, 255u8]
    } else {
        seq![0u8, 0u8, 0u8, 255u8]
    }
}

/// The RGBA bytes of the 16×16 missing-texture checker, row by row.
pub open spec fn missing_rgba() -> Seq<u8> {
    Seq::new(1024, |j: int| checker_texel((j / 4) % 16, (j / 4) / 16)[j % 4])
}

/// Bytes that hold the checker texel by texel are the checker.
proof fn lemma_missing_rgba(s: Seq<u8>)
    requires
        s.len() == 1024,
        forall|x: int, y: int, c: int|
            0 <= x < 16 && 0 <= y < 16 && 0 <= c < 4 ==> #[trigger] s[(y * 16 + x) * 4 + c]
                == checker_texel(x, y)[c],
    ensures
        s == missing_rgba(),
{
    assert forall|j: int| 0 <= j < 1024 implies s[j] == #[trigger] missing_rgba()[j] by {
        let x = (j / 4) % 16;
        let y = (j / 4) / 16;
        let c = j % 4;
        assert((y * 16 + x) * 4 + c == j);
        assert(s[(y * 16 + x) * 4 + c] == checker_texel(x, y)[c]);
    }
    assert(s =~= missing_rgba());
}

impl TextureData {
    /// An all-zero (transparent black) texture of the given size.
    pub fn new(width: u32, height: u32) -> (t: Self)
        requires
            width * height * 4 <= usize::MAX,
        ensures
            t.width == width,
            t.height == height,
            t.rgba@ == Seq::new((width * height * 4) as nat, |i: int| 0u8),
    {
        let n = (width as usize) * (height as usize) * 4;
        let rgba = vec![0u8; n];
        let t = TextureData { width, height, rgba };
        assert(t.rgba@ =~= Seq::new((width * height * 4) as nat, |i: int| 0u8));
        t
    }

    /// Wrap RGBA bytes, which must number `width * height * 4`.
    pub fn from_rgba(width: u32, height: u32, rgba: Vec<u8>) -> (t: Self)
        requires
            rgba@.len() == width * height * 4,
        ensures
            t.width == width,
            t.height == height,
            t.rgba@ == rgba@,
    {
        TextureData { width, height, rgba }
    }

    /// A solid-color 1×1 texture, handy as a fallback for missing textures.
    pub fn solid(r: u8, g: u8, b: u8, a: u8) -> (t: Self)
        ensures
            t.width == 1,
            t.height == 1,
            t.rgba@ == seq![r, g, b, a],
    {
        let t = TextureData { width: 1, height: 1, rgba: vec![r, g, b, a] };
        assert(t.rgba@ =~= seq![r, g, b, a]);
        t
    }

    /// A magenta/black checker used to make missing textures obvious.
    pub fn missing() -> (t: Self)
        ensures
            t.width == 16,
            t.height == 16,
            t.rgba@.len() == 16 * 16 * 4,
            forall|x: int, y: int, c: int|
                0 <= x < 16 && 0 <= y < 16 && 0 <= c < 4 ==> #[trigger] t.rgba@[(y * 16 + x) * 4 + c]
                    == checker_texel(x, y)[c],
            t.rgba@ == missing_rgba(),
    {
        let w: u32 = 16;
        let h: u32 = 16;
        let mut rgba = vec![0u8; 1024];
        let mut y: u32 = 0;
        while y < h
            invariant
                w == 16,
                h == 16,
                y <= 16,
                rgba@.len() == 1024,
                forall|yy: int, x: int, c: int|
                    0 <= yy < y && 0 <= x < 16 && 0 <= c < 4 ==> #[trigger] rgba@[(yy * 16 + x) * 4 + c]
                        == checker_texel(x, yy)[c],
            decreases 16 - y,
        {
            let mut x: u32 = 0;
            while x < w
                invariant
                    w == 16,
                    h == 16,
                    y < 16,
                    x <= 16,
                    rgba@.len() == 1024,
                    forall|yy: int, xx: int, c: int|
                        0 <= yy < y && 0 <= xx < 16 && 0 <= c < 4 ==> #[trigger] rgba@[(yy * 16 + xx)
                            * 4 + c] == checker_texel(xx, yy)[c],
                    forall|xx: int, c: int|
                        0 <= xx < x && 0 <= c < 4 ==> #[trigger] rgba@[(y * 16 + xx) * 4 + c]
                            == checker_texel(xx, y as int)[c],
                decreases 16 - x,
            {
                let checker = ((x / 4) + (y / 4)) % 2 == 0;
                let i = ((y * w + x) * 4) as usize;
                let (r, g, b) = if checker {
                    (255u8, 0u8, 255u8)
                } else {
                    (0u8, 0u8, 0u8)
                };
                rgba.set(i, r);
                rgba.set(i + 1, g);
                rgba.set(i + 2, b);
                rgba.set(i + 3, 255);
                proof {
                    assert forall|yy: int, xx: int, c: int|
                        0 <= yy < y && 0 <= xx < 16 && 0 <= c < 4 implies #[trigger] rgba@[(yy * 16
                        + xx) * 4 + c] == checker_texel(xx, yy)[c] by {
                        assert((yy * 16 + xx) * 4 + c < i) by (nonlinear_arith)
                            requires
                                0 <= yy < y,
                                0 <= xx < 16,
                                0 <= c < 4,
                                i == (y * 16 + x) * 4,
                        ;
                    }
                    assert forall|xx: int, c: int|
                        0 <= xx < x + 1 && 0 <= c < 4 implies #[trigger] rgba@[(y * 16 + xx) * 4 + c]
                        == checker_texel(xx, y as int)[c] by {
                        if xx < x {
                            assert((y * 16 + xx) * 4 + c < i) by (nonlinear_arith)
                                requires
                                    0 <= xx < x,
                                    0 <= c < 4,
                                    i == (y * 16 + x) * 4,
                            ;
                        }
                    }
                }
                x = x + 1;
            }
            y = y + 1;
        }
        proof {
            lemma_missing_rgba(rgba@);
        }
        TextureData { width: w, height: h, rgba }
    }

    /// Number of texels.
    pub fn pixel_count(&self) -> (r: usize)
        requires
            self.width * self.height <= usize::MAX,
        ensures
            r == self.width * self.height,
    {
        (self.width as usize) * (self.height as usize)
    }
}

} // verus!
