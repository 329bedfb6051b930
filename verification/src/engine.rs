//! The quantization engine: nearest-color search over a palette, and the
//! whole-image transform under a sequential or a data-parallel strategy.

use vstd::prelude::*;
use rayon::iter::{IntoParallelRefIterator, ParallelIterator};
use crate::color::{dist, distance, lemma_dist_zero_iff_eq, Color};
use crate::image_buffer::ImageBuffer;
use crate::palette::{Palette, PaletteError};

verus! {

/// Index `k` names the entry the nearest-color search must pick for pixel
/// `p`: no entry is strictly closer, and every earlier entry is strictly
/// farther — so among the entries at minimum distance, `k` is the earliest.
pub open spec fn is_first_min(p: Color, pal: Seq<Color>, k: int) -> bool {
    &&& 0 <= k < pal.len()
    &&& forall|j: int| 0 <= j < pal.len() ==> dist(p, pal[k]) <= dist(p, pal[j])
    &&& forall|j: int| 0 <= j < k ==> dist(p, pal[k]) < dist(p, pal[j])
}

/// The index the nearest-color search returns on a non-empty palette.
pub open spec fn nearest_index(p: Color, pal: Seq<Color>) -> int {
    choose|k: int| is_first_min(p, pal, k)
}

/// The entry the nearest-color search returns on a non-empty palette.
pub open spec fn nearest_color(p: Color, pal: Seq<Color>) -> Color {
    pal[nearest_index(p, pal)]
}

/// At most one index satisfies `is_first_min`, so the search result is a
/// function of the pixel and the palette alone.
pub proof fn lemma_first_min_unique(p: Color, pal: Seq<Color>, k1: int, k2: int)
    requires
        is_first_min(p, pal, k1),
        is_first_min(p, pal, k2),
    ensures
        k1 == k2,
{
    if k1 < k2 {
        assert(dist(p, pal[k2]) < dist(p, pal[k1]));
    }
    if k2 < k1 {
        assert(dist(p, pal[k1]) < dist(p, pal[k2]));
    }
}

/// On a non-empty palette some index satisfies `is_first_min`; hence
/// `nearest_index` satisfies it.
pub proof fn lemma_nearest_exists(p: Color, pal: Seq<Color>)
    requires
        pal.len() > 0,
    ensures
        is_first_min(p, pal, nearest_index(p, pal)),
    decreases pal.len(),
{
    if pal.len() == 1 {
        assert(is_first_min(p, pal, 0));
    } else {
        let sub = pal.drop_last();
        lemma_nearest_exists(p, sub);
        let k = nearest_index(p, sub);
        let last = pal.len() - 1;
        assert(forall|j: int| 0 <= j < last ==> pal[j] == sub[j]);
        if dist(p, pal[last]) < dist(p, sub[k]) {
            assert forall|j: int| 0 <= j < last implies dist(p, pal[last]) < dist(
                p,
                pal[j],
            ) by {
                assert(dist(p, sub[k]) <= dist(p, sub[j]));
            }
            assert(is_first_min(p, pal, last));
        } else {
            assert(is_first_min(p, pal, k));
        }
    }
    assert(is_first_min(p, pal, choose|k0: int| is_first_min(p, pal, k0)));
}

/// Returns the palette entry nearest to `pixel` under the L1 metric, breaking
/// ties toward the earliest palette index: a linear scan that keeps the first
/// minimum seen.
pub fn quantize(pixel: Color, palette: &Palette) -> (r: Color)
    requires
        palette@.len() > 0,
    ensures
        r == nearest_color(pixel, palette@),
{
    let n: usize = palette.colors.len();
    let mut best: usize = 0;
    let mut best_dist: u32 = distance(pixel, palette.colors[0]);
    let mut i: usize = 1;
    while i < n
        invariant
            n == palette@.len(),
            1 <= i <= n,
            best < i,
            (best_dist as int) == dist(pixel, palette@[best as int]),
            forall|j: int| 0 <= j < i ==> (best_dist as int) <= dist(pixel, palette@[j]),
            forall|j: int| 0 <= j < best ==> (best_dist as int) < dist(pixel, palette@[j]),
        decreases n - i,
    {
        let d = distance(pixel, palette.colors[i]);
        if d < best_dist {
            best = i;
            best_dist = d;
        }
        i += 1;
    }
    proof {
        assert(is_first_min(pixel, palette@, best as int));
        lemma_nearest_exists(pixel, palette@);
        lemma_first_min_unique(pixel, palette@, best as int, nearest_index(pixel, palette@));
    }
    palette.colors[best]
}

/// The whole-image transform at the specification level: every pixel replaced
/// by its nearest palette entry, positions kept.
pub open spec fn quantized_pixels(pixels: Seq<Color>, pal: Seq<Color>) -> Seq<Color> {
    Seq::new(pixels.len(), |i: int| nearest_color(pixels[i], pal))
}

/// The two execution strategies of the whole-image transform.
#[derive(Clone, Copy, Debug, PartialEq, Eq, Structural)]
pub enum Mode {
    Sequential,
    Parallel,
}

/// Relies on rayon: `par_iter().map(..).collect()` over a `Vec` is an indexed
/// parallel map into a `Vec`, so element `i` of the result is the closure's
/// result on element `i` of the input; the closure only calls the verified
/// `quantize` against the shared read-only palette.
#[verifier::external_body]
fn par_map_nearest(pixels: &Vec<Color>, palette: &Palette) -> (r: Vec<Color>)
    requires
        palette@.len() > 0,
    ensures
        r@.len() == pixels@.len(),
        forall|i: int| 0 <= i < pixels@.len() ==> r@[i] == nearest_color(pixels@[i], palette@),
{
    pixels.par_iter().map(|p| quantize(*p, palette)).collect()
}

/// Replaces every pixel of `image` with its nearest palette entry, producing
/// a fresh buffer of identical dimensions. The emptiness of the palette is
/// checked once, before any per-pixel work; on a non-empty palette both
/// strategies succeed and produce the same pixels.
pub fn quantize_image(image: &ImageBuffer, palette: &Palette, mode: Mode) -> (r: Result<
    ImageBuffer,
    PaletteError,
>)
    requires
        image.wf(),
    ensures
        palette@.len() == 0 ==> r == Err::<ImageBuffer, PaletteError>(PaletteError::EmptyPalette),
        palette@.len() > 0 ==> r is Ok,
        r is Ok ==> {
            let out = r->Ok_0;
            &&& out.wf()
            &&& out.width == image.width
            &&& out.height == image.height
            &&& out.pixels@ == quantized_pixels(image.pixels@, palette@)
        },
{
    if palette.colors.len() == 0 {
        return Err(PaletteError::EmptyPalette);
    }
    let pixels: Vec<Color> = match mode {
        Mode::Sequential => {
            let n: usize = image.pixels.len();
            let mut out: Vec<Color> = Vec::new();
            let mut i: usize = 0;
            while i < n
                invariant
                    n == image.pixels@.len(),
                    palette@.len() > 0,
                    0 <= i <= n,
                    out@.len() == i,
                    forall|j: int|
                        0 <= j < i ==> out@[j] == nearest_color(image.pixels@[j], palette@),
                decreases n - i,
            {
                let q = quantize(image.pixels[i], palette);
                out.push(q);
                i += 1;
            }
            out
        },
        Mode::Parallel => par_map_nearest(&image.pixels, palette),
    };
    proof {
        assert(pixels@ =~= quantized_pixels(image.pixels@, palette@));
    }
    Ok(ImageBuffer { width: image.width, height: image.height, pixels })
}

/// Idempotence on palette colors: a pixel equal to some palette entry maps to
/// itself — the earliest entry at distance zero holds that very color.
pub proof fn lemma_quantize_idempotent(p: Color, pal: Seq<Color>, i: int)
    requires
        0 <= i < pal.len(),
        pal[i] == p,
    ensures
        nearest_color(p, pal) == p,
{
    lemma_nearest_exists(p, pal);
    let k = nearest_index(p, pal);
    lemma_dist_zero_iff_eq(p, pal[i]);
    assert(dist(p, pal[k]) <= dist(p, pal[i]));
    lemma_dist_zero_iff_eq(p, pal[k]);
}

/// Tie-break determinism: when entry `i` attains the minimum distance, the
/// chosen index is at most `i` and its distance equals that minimum — among
/// tied entries, the earliest wins.
pub proof fn lemma_tie_break(p: Color, pal: Seq<Color>, i: int)
    requires
        0 <= i < pal.len(),
        forall|j: int| 0 <= j < pal.len() ==> dist(p, pal[i]) <= dist(p, pal[j]),
    ensures
        nearest_index(p, pal) <= i,
        dist(p, nearest_color(p, pal)) == dist(p, pal[i]),
{
    lemma_nearest_exists(p, pal);
    let k = nearest_index(p, pal);
    if k > i {
        assert(dist(p, pal[k]) < dist(p, pal[i]));
        assert(dist(p, pal[i]) <= dist(p, pal[k]));
    }
    assert(dist(p, pal[k]) <= dist(p, pal[i]));
}

/// Strategy equivalence: the transform's output is a function of the input
/// pixels and the palette alone, so two outputs that both meet the contract
/// of `quantize_image` on the same input — whatever strategy produced each —
/// agree in dimensions and pixel for pixel.
pub proof fn lemma_strategy_equivalence(
    image: ImageBuffer,
    pal: Seq<Color>,
    out_a: ImageBuffer,
    out_b: ImageBuffer,
)
    requires
        out_a.width == image.width && out_a.height == image.height && out_a.pixels@
            == quantized_pixels(image.pixels@, pal),
        out_b.width == image.width && out_b.height == image.height && out_b.pixels@
            == quantized_pixels(image.pixels@, pal),
    ensures
        out_a.width == out_b.width,
        out_a.height == out_b.height,
        out_a.pixels@ == out_b.pixels@,
{
}

/// The transform, read cell by cell: at every column `x` and row `y` of the
/// grid, the output holds the nearest palette entry of the input pixel there.
pub proof fn lemma_pixelwise(
    image: ImageBuffer,
    out: ImageBuffer,
    pal: Seq<Color>,
    x: int,
    y: int,
)
    requires
        image.wf(),
        0 <= x < image.width,
        0 <= y < image.height,
        out.pixels@ == quantized_pixels(image.pixels@, pal),
    ensures
        out.pixels@[y * image.width + x] == nearest_color(
            image.pixels@[y * image.width + x],
            pal,
        ),
{
    assert(0 <= y * image.width + x < image.width * image.height) by (nonlinear_arith)
        requires
            0 <= x < image.width,
            0 <= y < image.height,
    ;
}

/// Range closure: every pixel of the transformed image equals some palette
/// entry — membership, not mere closeness.
pub proof fn lemma_range_closure(pixels: Seq<Color>, pal: Seq<Color>)
    requires
        pal.len() > 0,
    ensures
        forall|i: int|
            0 <= i < pixels.len() ==> pal.contains(#[trigger] quantized_pixels(pixels, pal)[i]),
{
    assert forall|i: int| 0 <= i < pixels.len() implies pal.contains(
        #[trigger] quantized_pixels(pixels, pal)[i],
    ) by {
        lemma_nearest_exists(pixels[i], pal);
        assert(pal[nearest_index(pixels[i], pal)] == nearest_color(pixels[i], pal));
    }
}

} // verus!

