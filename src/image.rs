use vstd::arithmetic::div_mod::lemma_fundamental_div_mod_converse;
use vstd::prelude::*;

verus! {

/// One premultiplied sRGBA texel, as the GUI library hands it out.
#[derive(Clone, Copy, Debug, PartialEq, Eq, Structural)]
pub struct Rgba {
    pub r: u8,
    pub g: u8,
    pub b: u8,
    pub a: u8,
}

/// Channel `k` of a texel in byte order: red, green, blue, then alpha.
pub open spec fn channel(p: Rgba, k: int) -> u8 {
    if k == 0 {
        p.r
    } else if k == 1 {
        p.g
    } else if k == 2 {
        p.b
    } else {
        p.a
    }
}

/// The texels laid out as one byte per channel, four bytes per texel.
pub open spec fn rgba_bytes_of(px: Seq<Rgba>) -> Seq<u8> {
    Seq::new((4 * px.len()) as nat, |i: int| channel(px[i / 4], i % 4))
}

/// An image of `width` by `height` texels, row by row from the top.
#[derive(Clone, Debug)]
pub struct RgbaImage {
    pub width: usize,
    pub height: usize,
    pub pixels: Vec<Rgba>,
}

impl View for RgbaImage {
    /// Width, height and texels.
    type V = (usize, usize, Seq<Rgba>);

    open spec fn view(&self) -> (usize, usize, Seq<Rgba>) {
        (self.width, self.height, self.pixels@)
    }
}

/// The texel count of an image agrees with its size.
pub open spec fn well_sized_view(img: (usize, usize, Seq<Rgba>)) -> bool {
    img.0 * img.1 == img.2.len()
}

/// `patch`, with its top left corner at column `x` and row `y`, lies inside `base`.
pub open spec fn fits_at(
    base: (usize, usize, Seq<Rgba>),
    patch: (usize, usize, Seq<Rgba>),
    x: int,
    y: int,
) -> bool {
    x + patch.0 <= base.0 && y + patch.1 <= base.1
}

/// Texel `i` of `base` once `patch` is written over it at column `x`, row `y`.
pub open spec fn patched_texel(
    base: (usize, usize, Seq<Rgba>),
    patch: (usize, usize, Seq<Rgba>),
    x: int,
    y: int,
    i: int,
) -> Rgba {
    let row = i / (base.0 as int);
    let col = i % (base.0 as int);
    if y <= row < y + patch.1 && x <= col < x + patch.0 {
        patch.2[(row - y) * patch.0 + (col - x)]
    } else {
        base.2[i]
    }
}

/// `base` with `patch` written over it at column `x`, row `y`.
pub open spec fn patched(
    base: (usize, usize, Seq<Rgba>),
    patch: (usize, usize, Seq<Rgba>),
    x: int,
    y: int,
) -> (usize, usize, Seq<Rgba>) {
    (base.0, base.1, Seq::new(base.2.len(), |i: int| patched_texel(base, patch, x, y, i)))
}

/// Writes `patch` over a copy of `base`, with its top left corner at column
/// `x` and row `y`.
pub fn write_patch(base: &RgbaImage, patch: &RgbaImage, x: usize, y: usize) -> (r: RgbaImage)
    requires
        well_sized_view(base@),
        well_sized_view(patch@),
        fits_at(base@, patch@, x as int, y as int),
    ensures
        r@ == patched(base@, patch@, x as int, y as int),
{
    let len = base.pixels.len();
    let bw = base.width;
    let pw = patch.width;
    let ph = patch.height;
    let plen = patch.pixels.len();
    assert(len > 0 ==> bw > 0) by (nonlinear_arith)
        requires
            bw * base.height == len,
    ;
    let mut out: Vec<Rgba> = Vec::new();
    let mut i: usize = 0;
    let mut row: usize = 0;
    let mut col: usize = 0;
    while i < len
        invariant
            len == base.pixels@.len(),
            bw == base.width,
            pw == patch.width,
            ph == patch.height,
            plen == patch.pixels@.len(),
            well_sized_view(base@),
            well_sized_view(patch@),
            fits_at(base@, patch@, x as int, y as int),
            i <= len,
            out@.len() == i,
            i < len ==> col < bw,
            i < len ==> i == row * bw + col,
            forall|j: int| 0 <= j < i ==> #[trigger] out@[j] == patched_texel(base@, patch@, x as int, y as int, j),
        decreases len - i,
    {
        proof {
            lemma_fundamental_div_mod_converse(i as int, bw as int, row as int, col as int);
        }
        let t = if y <= row && row < y + ph && x <= col && col < x + pw {
            let pr = row - y;
            let pc = col - x;
            assert(pr * pw <= (ph - 1) * pw) by (nonlinear_arith)
                requires
                    pr < ph,
            ;
            assert((ph - 1) * pw + pw == pw * ph) by (nonlinear_arith);
            patch.pixels[pr * pw + pc]
        } else {
            base.pixels[i]
        };
        out.push(t);
        i += 1;
        if col + 1 == bw {
            assert((row + 1) * bw == row * bw + bw) by (nonlinear_arith);
            col = 0;
            row += 1;
        } else {
            col += 1;
        }
    }
    let r = RgbaImage { width: base.width, height: base.height, pixels: out };
    assert(r.pixels@ =~= patched(base@, patch@, x as int, y as int).2);
    r
}

impl RgbaImage {
    /// The texel count agrees with the stated size.
    pub open spec fn is_well_sized(&self) -> bool {
        self.width * self.height == self.pixels@.len()
    }

    /// A copy of the image.
    pub fn duplicate(&self) -> (r: RgbaImage)
        ensures
            r@ == self@,
    {
        let mut pixels: Vec<Rgba> = Vec::new();
        let mut i: usize = 0;
        while i < self.pixels.len()
            invariant
                i <= self.pixels@.len(),
                pixels@ == self.pixels@.take(i as int),
            decreases self.pixels@.len() - i,
        {
            pixels.push(self.pixels[i]);
            i += 1;
            assert(pixels@ =~= self.pixels@.take(i as int));
        }
        assert(pixels@ =~= self.pixels@);
        RgbaImage { width: self.width, height: self.height, pixels }
    }

    /// Checks that the texel count agrees with the stated size.
    pub fn well_sized(&self) -> (r: bool)
        ensures
            r == self.is_well_sized(),
    {
        let len = self.pixels.len();
        match self.width.checked_mul(self.height) {
            Some(n) => n == len,
            None => false,
        }
    }
}

/// Lays the texels out as RGBA bytes, the layout the host engine uploads.
pub fn rgba_bytes(pixels: &Vec<Rgba>) -> (r: Vec<u8>)
    ensures
        r@ == rgba_bytes_of(pixels@),
{
    let mut out: Vec<u8> = Vec::new();
    let mut i: usize = 0;
    while i < pixels.len()
        invariant
            i <= pixels@.len(),
            out@.len() == 4 * i,
            forall|j: int| 0 <= j < 4 * i ==> #[trigger] out@[j] == channel(pixels@[j / 4], j % 4),
        decreases pixels@.len() - i,
    {
        let p = pixels[i];
        out.push(p.r);
        out.push(p.g);
        out.push(p.b);
        out.push(p.a);
        assert forall|j: int| 0 <= j < 4 * (i + 1) implies #[trigger] out@[j] == channel(
            pixels@[j / 4],
            j % 4,
        ) by {
            if j >= 4 * i {
                assert(j / 4 == i as int);
            }
        }
        i += 1;
    }
    assert(out@ =~= rgba_bytes_of(pixels@));
    out
}

} // verus!
