use vstd::arithmetic::div_mod::{
    lemma_fundamental_div_mod,
    lemma_fundamental_div_mod_converse,
    lemma_mod_bound,
};
use vstd::prelude::*;

verus! {

/// `p` moved into `[0, n - 1]`: out-of-range coordinates take the nearest edge.
pub open spec fn clamp_coord(p: int, n: int) -> int {
    if p < 0 {
        0
    } else if p > n - 1 {
        n - 1
    } else {
        p
    }
}

/// Buffer index read by tap `k` of a `size`-wide horizontal window centred on
/// pixel `i` of a row-major image `width` pixels wide.
pub open spec fn horizontal_tap(width: int, i: int, size: int, k: int) -> int {
    (i / width) * width + clamp_coord(i % width + k - size / 2, width)
}

/// Buffer index read by tap `k` of a `size`-tall vertical window centred on
/// pixel `i` of a row-major `width` x `height` image.
pub open spec fn vertical_tap(width: int, height: int, i: int, size: int, k: int) -> int {
    clamp_coord(i / width + k - size / 2, height) * width + i % width
}

/// Row and column of pixel `i` of a `width` x `height` image.
proof fn lemma_pixel_coords(width: int, height: int, i: int)
    requires
        0 <= i < width * height,
        0 <= width,
        0 <= height,
    ensures
        0 < width,
        0 <= i / width < height,
        0 <= i % width < width,
        i == (i / width) * width + i % width,
        (i / width) * width + width <= width * height,
{
    assert(0 < width) by (nonlinear_arith)
        requires
            0 <= i < width * height,
            0 <= width,
            0 <= height,
    ;
    lemma_fundamental_div_mod(i, width);
    lemma_mod_bound(i, width);
    let y = i / width;
    let x = i % width;
    assert(y * width == width * y) by (nonlinear_arith);
    assert(0 <= y < height) by (nonlinear_arith)
        requires
            i == width * y + x,
            0 <= x < width,
            0 <= i < width * height,
            0 < width,
    ;
    assert(y * width + width <= width * height) by (nonlinear_arith)
        requires
            y + 1 <= height,
            0 < width,
    ;
}

/// Coordinate `pos + k - half` clamped into `[0, extent - 1]`, computed
/// without leaving the range of `usize`.
fn clamped_offset(pos: usize, k: usize, half: usize, extent: usize) -> (r: usize)
    requires
        pos < extent,
    ensures
        r as int == clamp_coord(pos + k - half, extent as int),
        r < extent,
{
    if k >= half {
        let d = k - half;
        if d >= extent - 1 - pos {
            extent - 1
        } else {
            pos + d
        }
    } else {
        let d = half - k;
        if d > pos {
            0
        } else {
            pos - d
        }
    }
}

/// Indices of the `size` pixels of pixel `i`'s row that a horizontal window
/// centred on it samples, edge pixels repeated where the window leaves the row.
pub fn calc_convolution_matrix_horizontal(width: usize, height: usize, i: usize, size: usize) -> (r:
    Vec<usize>)
    requires
        i < width * height <= usize::MAX,
    ensures
        r@.len() == size,
        forall|k: int|
            0 <= k < size ==> #[trigger] r@[k] as int == horizontal_tap(
                width as int,
                i as int,
                size as int,
                k,
            ),
        forall|k: int| 0 <= k < size ==> #[trigger] r@[k] < width * height,
{
    proof {
        lemma_pixel_coords(width as int, height as int, i as int);
    }
    let half = size / 2;
    let y = i / width;
    let x = i % width;
    let mut matrix: Vec<usize> = Vec::with_capacity(size);
    let mut k: usize = 0;
    while k < size
        invariant
            k <= size,
            half == size / 2,
            y == i / width,
            x == i % width,
            x < width,
            y * width + width <= width * height <= usize::MAX,
            matrix@.len() == k,
            forall|j: int|
                0 <= j < k ==> #[trigger] matrix@[j] as int == horizontal_tap(
                    width as int,
                    i as int,
                    size as int,
                    j,
                ),
            forall|j: int| 0 <= j < k ==> #[trigger] matrix@[j] < width * height,
        decreases size - k,
    {
        let cx = clamped_offset(x, k, half, width);
        matrix.push(y * width + cx);
        k += 1;
    }
    matrix
}

/// Indices of the `size` pixels of pixel `i`'s column that a vertical window
/// centred on it samples, edge pixels repeated where the window leaves the column.
pub fn calc_convolution_matrix_vertical(width: usize, height: usize, i: usize, size: usize) -> (r:
    Vec<usize>)
    requires
        i < width * height <= usize::MAX,
    ensures
        r@.len() == size,
        forall|k: int|
            0 <= k < size ==> #[trigger] r@[k] as int == vertical_tap(
                width as int,
                height as int,
                i as int,
                size as int,
                k,
            ),
        forall|k: int| 0 <= k < size ==> #[trigger] r@[k] < width * height,
{
    proof {
        lemma_pixel_coords(width as int, height as int, i as int);
    }
    let half = size / 2;
    let y = i / width;
    let x = i % width;
    let mut matrix: Vec<usize> = Vec::with_capacity(size);
    let mut k: usize = 0;
    while k < size
        invariant
            k <= size,
            half == size / 2,
            y == i / width,
            x == i % width,
            x < width,
            y < height,
            width * height <= usize::MAX,
            matrix@.len() == k,
            forall|j: int|
                0 <= j < k ==> #[trigger] matrix@[j] as int == vertical_tap(
                    width as int,
                    height as int,
                    i as int,
                    size as int,
                    j,
                ),
            forall|j: int| 0 <= j < k ==> #[trigger] matrix@[j] < width * height,
        decreases size - k,
    {
        let cy = clamped_offset(y, k, half, height);
        proof {
            assert(cy * width + width <= width * height) by (nonlinear_arith)
                requires
                    cy < height,
                    0 < width,
            ;
        }
        matrix.push(cy * width + x);
        k += 1;
    }
    matrix
}

/// Sum of the first `n` products `w[k] * v[k]`, in kernel order.
pub open spec fn dot(w: Seq<u32>, v: Seq<int>, n: int) -> int
    decreases n,
{
    if n <= 0 {
        0
    } else {
        dot(w, v, n - 1) + w[n - 1] * v[n - 1]
    }
}

/// Sum of the first `n` weights of `w`.
pub open spec fn weight_prefix(w: Seq<u32>, n: int) -> int
    decreases n,
{
    if n <= 0 {
        0
    } else {
        weight_prefix(w, n - 1) + w[n - 1]
    }
}

/// Total weight of a fixed-point kernel: the denominator of every window mean.
pub open spec fn kernel_weight(w: Seq<u32>) -> int {
    weight_prefix(w, w.len() as int)
}

/// `n / d` rounded to nearest (halves up), then clamped to a byte.
pub open spec fn round_to_byte(n: int, d: int) -> int {
    let q = (2 * n + d) / (2 * d);
    if q > 255 {
        255
    } else {
        q
    }
}

/// Kernel-weighted mean of the window values `v`, rounded to a byte.
pub open spec fn window_mean(w: Seq<u32>, v: Seq<int>) -> int {
    round_to_byte(dot(w, v, w.len() as int), kernel_weight(w))
}

/// Values that the horizontal window of `kernel` centred on pixel `i` reads.
pub open spec fn row_window(img: Seq<u8>, width: int, kernel: Seq<u32>, i: int) -> Seq<int> {
    Seq::new(kernel.len(), |k: int| img[horizontal_tap(width, i, kernel.len() as int, k)] as int)
}

/// Values that the vertical window of `kernel` centred on pixel `i` reads.
pub open spec fn column_window(
    img: Seq<u8>,
    width: int,
    height: int,
    kernel: Seq<u32>,
    i: int,
) -> Seq<int> {
    Seq::new(
        kernel.len(),
        |k: int| img[vertical_tap(width, height, i, kernel.len() as int, k)] as int,
    )
}

/// The horizontal pass: every pixel replaced by the mean of its row window.
pub open spec fn horizontal_pass_spec(img: Seq<u8>, width: int, kernel: Seq<u32>) -> Seq<u8> {
    Seq::new(img.len(), |i: int| window_mean(kernel, row_window(img, width, kernel, i)) as u8)
}

/// The vertical pass: every pixel replaced by the mean of its column window.
pub open spec fn vertical_pass_spec(
    img: Seq<u8>,
    width: int,
    height: int,
    kernel: Seq<u32>,
) -> Seq<u8> {
    Seq::new(
        img.len(),
        |i: int| window_mean(kernel, column_window(img, width, height, kernel, i)) as u8,
    )
}

/// The separable blur: the vertical pass applied to the horizontal pass's output.
pub open spec fn blur_spec(img: Seq<u8>, width: int, height: int, kernel: Seq<u32>) -> Seq<u8> {
    vertical_pass_spec(horizontal_pass_spec(img, width, kernel), width, height, kernel)
}

/// Total weight of a kernel, with the bound that keeps every window sum in `u128`.
pub fn kernel_total(kernel: &[u32]) -> (t: u128)
    ensures
        t == kernel_weight(kernel@),
        t <= kernel@.len() * 0xffff_ffff,
{
    let n: usize = kernel.len();
    let mut t: u128 = 0;
    let mut k: usize = 0;
    while k < n
        invariant
            n == kernel@.len(),
            k <= n,
            t == weight_prefix(kernel@, k as int),
            t <= k * 0xffff_ffff,
        decreases n - k,
    {
        t = t + kernel[k] as u128;
        k += 1;
    }
    t
}

/// Kernel-weighted sum of the image values at `taps`, in kernel order.
fn window_sum(kernel: &[u32], image: &[u8], taps: &Vec<usize>) -> (s: u128)
    requires
        taps@.len() == kernel@.len(),
        forall|k: int| 0 <= k < taps@.len() ==> #[trigger] taps@[k] < image@.len(),
    ensures
        s == dot(
            kernel@,
            Seq::new(kernel@.len(), |k: int| image@[taps@[k] as int] as int),
            kernel@.len() as int,
        ),
        s <= 255 * kernel_weight(kernel@),
{
    let ghost v = Seq::new(kernel@.len(), |k: int| image@[taps@[k] as int] as int);
    let n: usize = kernel.len();
    let mut s: u128 = 0;
    let mut k: usize = 0;
    while k < n
        invariant
            n == kernel@.len(),
            n == taps@.len(),
            v == Seq::new(kernel@.len(), |k: int| image@[taps@[k] as int] as int),
            forall|j: int| 0 <= j < taps@.len() ==> #[trigger] taps@[j] < image@.len(),
            k <= n,
            s == dot(kernel@, v, k as int),
            s <= 255 * weight_prefix(kernel@, k as int),
            weight_prefix(kernel@, k as int) <= k * 0xffff_ffff,
        decreases n - k,
    {
        let w = kernel[k] as u128;
        let p = image[taps[k]] as u128;
        proof {
            let wp = weight_prefix(kernel@, k as int);
            assert(w * p <= 255 * w) by (nonlinear_arith)
                requires
                    p <= 255,
                    0 <= w,
            ;
            assert(255 * wp + 255 * w <= 255 * (k + 1) * 0xffff_ffff) by (nonlinear_arith)
                requires
                    wp <= k * 0xffff_ffff,
                    w <= 0xffff_ffff,
            ;
            assert(k < 0x1_0000_0000_0000_0000);
            assert(255 * (k + 1) * 0xffff_ffff <= 255 * 0x1_0000_0000_0000_0000 * 0xffff_ffff)
                by (nonlinear_arith)
                requires
                    k + 1 <= 0x1_0000_0000_0000_0000,
            ;
        }
        s = s + w * p;
        k += 1;
    }
    proof {
        assert(weight_prefix(kernel@, n as int) == kernel_weight(kernel@));
    }
    s
}

/// `n / d` rounded to nearest and clamped to a byte.
fn round_div_to_byte(n: u128, d: u128) -> (r: u8)
    requires
        0 < d <= 0x1_0000_0000_0000_0000_0000_0000,
        n <= 255 * d,
    ensures
        r as int == round_to_byte(n as int, d as int),
{
    let q = (2 * n + d) / (2 * d);
    if q > 255 {
        255
    } else {
        q as u8
    }
}

/// The horizontal pass over a `width` x `height` luminance buffer.
fn horizontal_pass(image_data: &[u8], width: usize, height: usize, kernel: &[u32], weight: u128) -> (r:
    Vec<u8>)
    requires
        image_data@.len() == width * height,
        weight == kernel_weight(kernel@),
        0 < weight <= kernel@.len() * 0xffff_ffff,
    ensures
        r@ == horizontal_pass_spec(image_data@, width as int, kernel@),
{
    let pixel_count: usize = image_data.len();
    let mut data: Vec<u8> = Vec::with_capacity(pixel_count);
    let mut i: usize = 0;
    while i < pixel_count
        invariant
            pixel_count == image_data@.len() == width * height,
            weight == kernel_weight(kernel@),
            0 < weight <= kernel@.len() * 0xffff_ffff,
            i <= pixel_count,
            data@.len() == i,
            forall|j: int|
                0 <= j < i ==> #[trigger] data@[j] == horizontal_pass_spec(
                    image_data@,
                    width as int,
                    kernel@,
                )[j],
        decreases pixel_count - i,
    {
        let matrix = calc_convolution_matrix_horizontal(width, height, i, kernel.len());
        let sum = window_sum(kernel, image_data, &matrix);
        let value = round_div_to_byte(sum, weight);
        proof {
            assert(Seq::new(kernel@.len(), |k: int| image_data@[matrix@[k] as int] as int)
                =~= row_window(image_data@, width as int, kernel@, i as int));
        }
        data.push(value);
        i += 1;
    }
    assert(data@ =~= horizontal_pass_spec(image_data@, width as int, kernel@));
    data
}

/// The vertical pass over a `width` x `height` luminance buffer.
fn vertical_pass(image_data: &[u8], width: usize, height: usize, kernel: &[u32], weight: u128) -> (r:
    Vec<u8>)
    requires
        image_data@.len() == width * height,
        weight == kernel_weight(kernel@),
        0 < weight <= kernel@.len() * 0xffff_ffff,
    ensures
        r@ == vertical_pass_spec(image_data@, width as int, height as int, kernel@),
{
    let pixel_count: usize = image_data.len();
    let mut data: Vec<u8> = Vec::with_capacity(pixel_count);
    let mut i: usize = 0;
    while i < pixel_count
        invariant
            pixel_count == image_data@.len() == width * height,
            weight == kernel_weight(kernel@),
            0 < weight <= kernel@.len() * 0xffff_ffff,
            i <= pixel_count,
            data@.len() == i,
            forall|j: int|
                0 <= j < i ==> #[trigger] data@[j] == vertical_pass_spec(
                    image_data@,
                    width as int,
                    height as int,
                    kernel@,
                )[j],
        decreases pixel_count - i,
    {
        let matrix = calc_convolution_matrix_vertical(width, height, i, kernel.len());
        let sum = window_sum(kernel, image_data, &matrix);
        let value = round_div_to_byte(sum, weight);
        proof {
            assert(Seq::new(kernel@.len(), |k: int| image_data@[matrix@[k] as int] as int)
                =~= column_window(image_data@, width as int, height as int, kernel@, i as int));
        }
        data.push(value);
        i += 1;
    }
    assert(data@ =~= vertical_pass_spec(image_data@, width as int, height as int, kernel@));
    data
}

/// Blurs a `width` x `height` luminance buffer with a fixed-point kernel: a
/// horizontal pass, then a vertical pass over its output. Each output byte is
/// the kernel-weighted mean of its clamped-to-edge window, rounded to nearest.
pub fn filter_image_data(image_data: &[u8], width: usize, height: usize, kernel: &[u32]) -> (r:
    Vec<u8>)
    requires
        image_data@.len() == width * height,
        kernel_weight(kernel@) > 0,
    ensures
        r@ == blur_spec(image_data@, width as int, height as int, kernel@),
        r@.len() == width * height,
{
    let weight = kernel_total(kernel);
    let data_h = horizontal_pass(image_data, width, height, kernel, weight);
    let data = vertical_pass(data_h.as_slice(), width, height, kernel, weight);
    data
}

/// Every tap of a window centred on a pixel of the image lies in the image.
proof fn lemma_taps_in_image(width: int, height: int, i: int, size: int, k: int)
    requires
        0 <= i < width * height,
        0 <= width,
        0 <= height,
    ensures
        0 <= horizontal_tap(width, i, size, k) < width * height,
        0 <= vertical_tap(width, height, i, size, k) < width * height,
{
    lemma_pixel_coords(width, height, i);
    let cy = clamp_coord(i / width + k - size / 2, height);
    assert(0 <= (i / width) * width) by (nonlinear_arith)
        requires
            0 <= i / width,
            0 < width,
    ;
    assert(0 <= cy * width && cy * width + width <= width * height) by (nonlinear_arith)
        requires
            0 <= cy < height,
            0 < width,
    ;
}

/// A window whose values all equal `c` has the weighted sum `c` times its weight.
proof fn lemma_dot_of_constant(w: Seq<u32>, v: Seq<int>, n: int, c: int)
    requires
        0 <= n <= w.len(),
        n <= v.len(),
        forall|k: int| 0 <= k < n ==> #[trigger] v[k] == c,
    ensures
        dot(w, v, n) == c * weight_prefix(w, n),
    decreases n,
{
    if n > 0 {
        lemma_dot_of_constant(w, v, n - 1, c);
        let wp = weight_prefix(w, n - 1);
        let x = w[n - 1] as int;
        assert(c * wp + x * c == c * (wp + x)) by (nonlinear_arith);
    }
}

/// Rounding `c * d / d` gives back `c`.
proof fn lemma_round_exact(c: int, d: int)
    requires
        0 <= c <= 255,
        0 < d,
    ensures
        round_to_byte(c * d, d) == c,
{
    assert(2 * (c * d) + d == c * (2 * d) + d) by (nonlinear_arith);
    lemma_fundamental_div_mod_converse(2 * (c * d) + d, 2 * d, c, d);
}

/// One pass of either direction maps a flat field of value `c` to itself.
proof fn lemma_passes_keep_flat_field(
    img: Seq<u8>,
    width: int,
    height: int,
    kernel: Seq<u32>,
    c: u8,
)
    requires
        img.len() == width * height,
        0 <= width,
        0 <= height,
        kernel_weight(kernel) > 0,
        forall|i: int| 0 <= i < img.len() ==> #[trigger] img[i] == c,
    ensures
        horizontal_pass_spec(img, width, kernel) == img,
        vertical_pass_spec(img, width, height, kernel) == img,
{
    let n = kernel.len() as int;
    assert forall|i: int| 0 <= i < img.len() implies #[trigger] horizontal_pass_spec(
        img,
        width,
        kernel,
    )[i] == img[i] by {
        let v = row_window(img, width, kernel, i);
        assert forall|k: int| 0 <= k < n implies #[trigger] v[k] == c as int by {
            lemma_taps_in_image(width, height, i, n, k);
        }
        lemma_dot_of_constant(kernel, v, n, c as int);
        lemma_round_exact(c as int, kernel_weight(kernel));
    }
    assert forall|i: int| 0 <= i < img.len() implies #[trigger] vertical_pass_spec(
        img,
        width,
        height,
        kernel,
    )[i] == img[i] by {
        let v = column_window(img, width, height, kernel, i);
        assert forall|k: int| 0 <= k < n implies #[trigger] v[k] == c as int by {
            lemma_taps_in_image(width, height, i, n, k);
        }
        lemma_dot_of_constant(kernel, v, n, c as int);
        lemma_round_exact(c as int, kernel_weight(kernel));
    }
    assert(horizontal_pass_spec(img, width, kernel) =~= img);
    assert(vertical_pass_spec(img, width, height, kernel) =~= img);
}

/// Clamp-to-edge keeps a flat field flat: blurring an image whose pixels all
/// hold the same value `c` returns that image unchanged.
pub proof fn lemma_flat_field_is_fixed(
    img: Seq<u8>,
    width: int,
    height: int,
    kernel: Seq<u32>,
    c: u8,
)
    requires
        img.len() == width * height,
        0 <= width,
        0 <= height,
        kernel_weight(kernel) > 0,
        forall|i: int| 0 <= i < img.len() ==> #[trigger] img[i] == c,
    ensures
        blur_spec(img, width, height, kernel) == img,
{
    lemma_passes_keep_flat_field(img, width, height, kernel, c);
    let h = horizontal_pass_spec(img, width, kernel);
    lemma_passes_keep_flat_field(h, width, height, kernel, c);
}

} // verus!
