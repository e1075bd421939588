use crate::convolution::{blur_spec, filter_image_data, kernel_total, kernel_weight};
use crate::luminance::{gray_data, gray_spec};
use vstd::prelude::*;

verus! {

/// Why a buffer was refused before any processing.
#[derive(Debug, Clone, Copy, PartialEq, Eq, Structural)]
pub enum ProcessError {
    /// A zero width or height, or a buffer whose length is not `4 * width * height`.
    InvalidDimensions,
    /// An empty kernel, or one whose weights sum to zero.
    InvalidKernelParameters,
}

/// An RGBA buffer of `len` bytes holds a non-empty `width` x `height` image.
pub open spec fn dimensions_valid(len: int, width: int, height: int) -> bool {
    width > 0 && height > 0 && len == 4 * width * height
}

/// Each luminance byte expanded to an opaque gray RGBA pixel.
pub open spec fn repack_spec(gray: Seq<u8>) -> Seq<u8> {
    Seq::new(4 * gray.len(), |j: int| if j % 4 == 3 { 255u8 } else { gray[j / 4] })
}

/// The whole pipeline: luminance, separable blur, repacking.
pub open spec fn process_spec(rgba: Seq<u8>, width: int, height: int, kernel: Seq<u32>) -> Seq<u8> {
    repack_spec(blur_spec(gray_spec(rgba, (width * height) as nat), width, height, kernel))
}

/// Expands a luminance buffer to RGBA: three equal color channels and alpha 255.
pub fn expand_gray(gray: &[u8]) -> (r: Vec<u8>)
    requires
        4 * gray@.len() <= usize::MAX,
    ensures
        r@ == repack_spec(gray@),
        r@.len() == 4 * gray@.len(),
        forall|i: int|
            0 <= i < gray@.len() ==> {
                &&& r@[4 * i] == gray@[i]
                &&& r@[4 * i + 1] == gray@[i]
                &&& r@[4 * i + 2] == gray@[i]
                &&& #[trigger] r@[4 * i + 3] == 255
            },
{
    let n: usize = gray.len();
    let mut data: Vec<u8> = Vec::with_capacity(4 * n);
    let mut i: usize = 0;
    while i < n
        invariant
            n == gray@.len(),
            4 * n <= usize::MAX,
            i <= n,
            data@.len() == 4 * i,
            forall|j: int| 0 <= j < 4 * i ==> #[trigger] data@[j] == repack_spec(gray@)[j],
        decreases n - i,
    {
        let v = gray[i];
        data.push(v);
        data.push(v);
        data.push(v);
        data.push(255);
        i += 1;
    }
    assert(data@ =~= repack_spec(gray@));
    assert forall|i: int| 0 <= i < gray@.len() implies {
        &&& data@[4 * i] == gray@[i]
        &&& data@[4 * i + 1] == gray@[i]
        &&& data@[4 * i + 2] == gray@[i]
        &&& #[trigger] data@[4 * i + 3] == 255
    } by {
        assert((4 * i) / 4 == i && (4 * i + 1) / 4 == i && (4 * i + 2) / 4 == i);
        assert((4 * i) % 4 == 0 && (4 * i + 1) % 4 == 1 && (4 * i + 2) % 4 == 2);
        assert((4 * i + 3) % 4 == 3);
    }
    data
}

/// Turns an RGBA buffer into its blurred grayscale as opaque RGBA, with the
/// fixed-point `kernel` (weights summed as the denominator) for both passes.
/// Bad dimensions are refused first, then an unusable kernel; nothing is
/// processed in either case.
pub fn process_pixels(image_data: &[u8], width: usize, height: usize, kernel: &[u32]) -> (r: Result<
    Vec<u8>,
    ProcessError,
>)
    ensures
        !dimensions_valid(image_data@.len() as int, width as int, height as int) ==> r == Err::<
            Vec<u8>,
            ProcessError,
        >(ProcessError::InvalidDimensions),
        dimensions_valid(image_data@.len() as int, width as int, height as int)
            && kernel_weight(kernel@) == 0 ==> r == Err::<Vec<u8>, ProcessError>(
            ProcessError::InvalidKernelParameters,
        ),
        dimensions_valid(image_data@.len() as int, width as int, height as int)
            && kernel_weight(kernel@) > 0 ==> r is Ok,
        r matches Ok(v) ==> {
            &&& v@ == process_spec(image_data@, width as int, height as int, kernel@)
            &&& v@.len() == image_data@.len()
            &&& v@.len() == 4 * width * height
            &&& forall|i: int|
                0 <= i < width * height ==> {
                    &&& #[trigger] v@[4 * i + 3] == 255
                    &&& v@[4 * i] == v@[4 * i + 1]
                    &&& v@[4 * i + 1] == v@[4 * i + 2]
                }
        },
{
    let len: usize = image_data.len();
    if width == 0 || height == 0 {
        return Err(ProcessError::InvalidDimensions);
    }
    let pixel_count = match width.checked_mul(height) {
        Some(p) => p,
        None => {
            proof {
                assert(4 * width * height == 4 * (width * height)) by (nonlinear_arith);
                assert(len < 4 * width * height);
            }
            return Err(ProcessError::InvalidDimensions);
        },
    };
    proof {
        assert(4 * width * height == 4 * (width * height)) by (nonlinear_arith);
    }
    let byte_count = match pixel_count.checked_mul(4) {
        Some(b) => b,
        None => {
            return Err(ProcessError::InvalidDimensions);
        },
    };
    if len != byte_count {
        return Err(ProcessError::InvalidDimensions);
    }
    if kernel_total(kernel) == 0 {
        return Err(ProcessError::InvalidKernelParameters);
    }
    let gray = gray_data(image_data, width, height);
    let blurred = filter_image_data(gray.as_slice(), width, height, kernel);
    let out = expand_gray(blurred.as_slice());
    Ok(out)
}

} // verus!
