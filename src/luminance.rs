use vstd::prelude::*;

verus! {

/// ITU-R BT.601 luma of one pixel, truncated toward zero:
/// `floor(0.299 r + 0.587 g + 0.114 b)`, written over thousandths.
pub open spec fn luma(r: int, g: int, b: int) -> int {
    (299 * r + 587 * g + 114 * b) / 1000
}

/// Luma of pixel `i` of an interleaved RGBA buffer (alpha is ignored).
pub open spec fn pixel_luma(rgba: Seq<u8>, i: int) -> int {
    luma(rgba[4 * i] as int, rgba[4 * i + 1] as int, rgba[4 * i + 2] as int)
}

/// The luminance buffer of the first `n` pixels of `rgba`.
pub open spec fn gray_spec(rgba: Seq<u8>, n: nat) -> Seq<u8> {
    Seq::new(n, |i: int| pixel_luma(rgba, i) as u8)
}

/// A luma value always fits in a byte.
pub proof fn lemma_luma_bounded(r: int, g: int, b: int)
    requires
        0 <= r <= 255,
        0 <= g <= 255,
        0 <= b <= 255,
    ensures
        0 <= luma(r, g, b) <= 255,
{
    assert(0 <= 299 * r + 587 * g + 114 * b <= 255000) by (nonlinear_arith)
        requires
            0 <= r <= 255,
            0 <= g <= 255,
            0 <= b <= 255,
    ;
}

/// An equal-channel pixel keeps its value: the weights sum to one.
pub proof fn lemma_luma_of_gray(v: int)
    ensures
        luma(v, v, v) == v,
{
    assert(299 * v + 587 * v + 114 * v == 1000 * v) by (nonlinear_arith);
}

/// Converts the first `width * height` RGBA pixels to one luma byte each.
pub fn gray_data(image_data: &[u8], width: usize, height: usize) -> (r: Vec<u8>)
    requires
        4 * width * height <= image_data@.len(),
    ensures
        r@.len() == width * height,
        r@ == gray_spec(image_data@, (width * height) as nat),
        forall|i: int|
            0 <= i < width * height ==> #[trigger] r@[i] as int == pixel_luma(image_data@, i),
{
    assert(4 * width * height == 4 * (width * height)) by (nonlinear_arith);
    let len: usize = image_data.len();
    assert(width * height <= len);
    let pixel_count: usize = width * height;
    let mut data: Vec<u8> = Vec::with_capacity(pixel_count);
    let mut i: usize = 0;
    while i < pixel_count
        invariant
            pixel_count == width * height,
            4 * pixel_count <= image_data@.len(),
            image_data@.len() == len,
            i <= pixel_count,
            data@.len() == i,
            forall|j: int| 0 <= j < i ==> #[trigger] data@[j] as int == pixel_luma(image_data@, j),
        decreases pixel_count - i,
    {
        let r = image_data[4 * i] as u32;
        let g = image_data[4 * i + 1] as u32;
        let b = image_data[4 * i + 2] as u32;
        proof {
            lemma_luma_bounded(r as int, g as int, b as int);
        }
        let gray = ((299 * r + 587 * g + 114 * b) / 1000) as u8;
        data.push(gray);
        i += 1;
    }
    assert(data@ =~= gray_spec(image_data@, (width * height) as nat));
    data
}

} // verus!
