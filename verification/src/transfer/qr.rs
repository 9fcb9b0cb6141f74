//! The pairing code as pixels.

use vstd::prelude::*;
use crate::outside::{qr_modules, qr_rows};

verus! {

/// Modules of margin around the code, so that a scanner finds it.
pub const QUIET: usize = 4;

/// Pixels per module.
pub const SCALE: usize = 8;

/// A pixel.
#[derive(Clone, Copy, Debug, PartialEq, Eq, Structural)]
pub struct Pixel {
    pub r: u8,
    pub g: u8,
    pub b: u8,
}

/// A square picture, row by row.
#[derive(Debug)]
pub struct Picture {
    pub side: usize,
    pub pixels: Vec<Pixel>,
}

/// A square of modules of a size that codes have.
pub open spec fn is_code(rows: Seq<Seq<bool>>) -> bool {
    &&& 21 <= rows.len() <= 177
    &&& forall|i: int| 0 <= i < rows.len() ==> (#[trigger] rows[i]).len() == rows.len()
}

/// Whether a pixel lies on a dark module.
pub open spec fn is_dark(rows: Seq<Seq<bool>>, x: int, y: int) -> bool {
    let mx = x / 8 - 4;
    let my = y / 8 - 4;
    0 <= mx < rows.len() && 0 <= my < rows.len() && rows[my][mx]
}

/// The two tones: of the ground and of a dark module.
pub open spec fn tones(invert: bool) -> (Pixel, Pixel) {
    if invert {
        (Pixel { r: 12, g: 14, b: 22 }, Pixel { r: 244, g: 246, b: 255 })
    } else {
        (Pixel { r: 255, g: 255, b: 255 }, Pixel { r: 0, g: 0, b: 0 })
    }
}

/// How many pixels a side of the picture has.
pub open spec fn side_of(n: nat) -> nat {
    (n + 8) * 8
}

/// The picture of a code.
pub open spec fn painted(rows: Seq<Seq<bool>>, invert: bool) -> Seq<Pixel> {
    let side = side_of(rows.len()) as int;
    Seq::new(
        (side * side) as nat,
        |i: int| if is_dark(rows, i % side, i / side) { tones(invert).1 } else { tones(invert).0 },
    )
}

/// Modules as they are.
pub open spec fn modules(v: Seq<Vec<bool>>) -> Seq<Seq<bool>> {
    Seq::new(v.len(), |i: int| v[i]@)
}

/// The picture of a code whose modules are given.
pub fn paint(rows: &Vec<Vec<bool>>, invert: bool) -> (r: Picture)
    requires
        is_code(modules(rows@)),
    ensures
        r.side == side_of(rows@.len()),
        r.pixels@ == painted(modules(rows@), invert),
{
    let n: usize = rows.len();
    let ghost all = modules(rows@);
    let side: usize = (n + QUIET * 2) * SCALE;
    let (ground, module) = if invert {
        (Pixel { r: 12, g: 14, b: 22 }, Pixel { r: 244, g: 246, b: 255 })
    } else {
        (Pixel { r: 255, g: 255, b: 255 }, Pixel { r: 0, g: 0, b: 0 })
    };
    let ghost whole = painted(all, invert);
    let mut pixels: Vec<Pixel> = Vec::new();
    let mut y: usize = 0;
    assert(0 * side == 0);
    while y < side
        invariant
            n == rows@.len(),
            side == (n + 8) * 8,
            21 <= n <= 177,
            y <= side,
            all == modules(rows@),
            is_code(all),
            whole == painted(all, invert),
            ground == tones(invert).0,
            module == tones(invert).1,
            pixels@.len() == y * side,
            forall|i: int| 0 <= i < pixels@.len() ==> #[trigger] pixels@[i] == whole[i],
        decreases side - y,
    {
        let my: usize = y / SCALE;
        let mut x: usize = 0;
        while x < side
            invariant
                n == rows@.len(),
                side == (n + 8) * 8,
                21 <= n <= 177,
                y < side,
                x <= side,
                my == y / 8,
                all == modules(rows@),
                is_code(all),
                whole == painted(all, invert),
                ground == tones(invert).0,
                module == tones(invert).1,
                pixels@.len() == y * side + x,
                forall|i: int| 0 <= i < pixels@.len() ==> #[trigger] pixels@[i] == whole[i],
            decreases side - x,
        {
            let mx: usize = x / SCALE;
            let dark = if mx >= QUIET && my >= QUIET && mx - QUIET < n && my - QUIET < n {
                assert(all[my - 4] == rows@[my - 4]@);
                assert(all[my - 4].len() == n);
                rows[my - QUIET][mx - QUIET]
            } else {
                false
            };
            proof {
                let (yy, ss, xx) = (y as int, side as int, x as int);
                let i = yy * ss + xx;
                vstd::arithmetic::div_mod::lemma_fundamental_div_mod_converse(i, ss, yy, xx);
                assert(i < ss * ss) by (nonlinear_arith)
                    requires
                        i == yy * ss + xx,
                        0 <= yy < ss,
                        0 <= xx < ss,
                ;
                assert(dark == is_dark(all, xx, yy));
                assert(whole[i] == (if dark { module } else { ground }));
            }
            pixels.push(if dark { module } else { ground });
            x = x + 1;
        }
        proof {
            let (yy, ss) = (y as int, side as int);
            assert(yy * ss + ss == (yy + 1) * ss) by (nonlinear_arith);
        }
        y = y + 1;
    }
    assert(pixels@ =~= whole);
    Picture { side, pixels }
}

/// What the picture for a text is: none where the text is empty or does not fit
/// in a code.
pub open spec fn picture_of(url: Seq<char>, code: Option<Seq<Seq<bool>>>, invert: bool) -> Option<(nat, Seq<Pixel>)> {
    match code {
        Some(rows) => if url.len() == 0 { None } else { Some((side_of(rows.len()), painted(rows, invert))) },
        None => None,
    }
}

/// A picture's side and pixels.
pub open spec fn picture_view(p: Option<Picture>) -> Option<(nat, Seq<Pixel>)> {
    match p {
        Some(p) => Some((p.side as nat, p.pixels@)),
        None => None,
    }
}

/// The code for `url`, in the two tones of a screen or, inverted, in those of a
/// dark one.
pub fn render(url: &str, invert: bool) -> (r: Option<Picture>)
    ensures
        picture_view(r) == picture_of(url@, qr_modules(url@), invert),
{
    if url.is_empty() {
        return None;
    }
    match qr_rows(url) {
        Some(rows) => {
            assert(crate::outside::rows_of(Some(rows)) == Some(modules(rows@)));
            assert(is_code(modules(rows@)));
            Some(paint(&rows, invert))
        },
        None => None,
    }
}

/// The margin around a code is ground all over, four modules wide on every side.
pub proof fn law_the_margin_is_quiet(rows: Seq<Seq<bool>>, x: int, y: int)
    requires
        is_code(rows),
        0 <= x < side_of(rows.len()),
        0 <= y < side_of(rows.len()),
        x < 32 || y < 32 || x >= side_of(rows.len()) - 32 || y >= side_of(rows.len()) - 32,
    ensures
        !is_dark(rows, x, y),
{
}

/// Every pixel of a module has the module's tone.
pub proof fn law_a_module_is_a_square(rows: Seq<Seq<bool>>, mx: int, my: int, dx: int, dy: int)
    requires
        is_code(rows),
        0 <= mx < rows.len(),
        0 <= my < rows.len(),
        0 <= dx < 8,
        0 <= dy < 8,
    ensures
        is_dark(rows, (mx + 4) * 8 + dx, (my + 4) * 8 + dy) == rows[my][mx],
{
}

/// A pixel is dark exactly where it lies on a dark module, eight pixels to a module behind a
/// margin of four; inverted, the two tones trade brightness.
pub proof fn law_a_pixel_is_as_dark_as_its_module(rows: Seq<Seq<bool>>, x: int, y: int)
    requires
        0 <= x < side_of(rows.len()),
        0 <= y < side_of(rows.len()),
    ensures
        ({
            let side = side_of(rows.len()) as int;
            let (mx, my) = (x / 8 - 4, y / 8 - 4);
            let dark = 0 <= mx < rows.len() && 0 <= my < rows.len() && rows[my][mx];
            &&& side == 8 * (rows.len() + 8)
            &&& painted(rows, false)[y * side + x] == (if dark { Pixel { r: 0, g: 0, b: 0 } } else { Pixel { r: 255, g: 255, b: 255 } })
            &&& painted(rows, true)[y * side + x] == (if dark { Pixel { r: 244, g: 246, b: 255 } } else { Pixel { r: 12, g: 14, b: 22 } })
        }),
{
    let side = side_of(rows.len()) as int;
    let i = y * side + x;
    assert(0 <= i < side * side) by (nonlinear_arith)
        requires
            0 <= x < side,
            0 <= y < side,
            i == y * side + x,
    ;
    vstd::arithmetic::div_mod::lemma_fundamental_div_mod_converse(i, side, y, x);
}

} // verus!
