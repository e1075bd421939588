use image_prep::{
    calc_convolution_matrix_horizontal, calc_convolution_matrix_vertical, expand_gray,
    filter_image_data, gray_data, kernel_total, process_pixels, ProcessError,
};

/// Fixed-point (scale 65536) weights of the size-3 Gaussian with sigma 1.0,
/// whose float weights are about [0.2741, 0.4519, 0.2741].
const SIGMA_ONE_KERNEL: [u32; 3] = [17961, 29613, 17961];

#[test]
fn test_gray_data() {
    let image_data = [
        10, 10, 10, 255, // line 1
        20, 20, 20, 255, // line 1
        30, 30, 30, 255, // line 1
        40, 40, 40, 255, // line 2
        50, 50, 50, 255, // line 2
        60, 60, 60, 255, // line 2
        70, 70, 70, 255, // line 3
        80, 80, 80, 255, // line 3
        90, 90, 90, 255, // line 3
    ];
    let width = 3;
    let height = 3;
    let result = gray_data(&image_data, width, height);
    assert_eq!(
        result,
        [
            10, 20, 30, // line 1
            40, 50, 60, // line 2
            70, 80, 90, // line 3
        ]
    );
}

#[test]
fn test_filter_image_data() {
    let image_data = [
        10, 20, 30, // line 1
        40, 50, 60, // line 2
        70, 80, 90, // line 3
    ];
    let width = 3;
    let height = 3;
    let result = filter_image_data(&image_data, width, height, &SIGMA_ONE_KERNEL);
    assert_eq!(
        result,
        [
            21, 28, 35, // line 1
            43, 50, 57, // line 2
            65, 72, 79, // line 3
        ]
    )
}

#[test]
fn test_calc_convolution_matrix_horizontal() {
    // 00, 01, 02, 03, 04, 05,
    // 06, 07, 08, 09, 10, 11,
    // 12, 13, 14, 15, 16, 17,
    // 18, 19, 20, 21, 22, 23
    let width = 6;
    let height = 4;
    let size = 3;
    let i = 0;
    let result = calc_convolution_matrix_horizontal(width, height, i, size);
    assert_eq!(result, vec![0, 0, 1]);

    let i = 1;
    let result = calc_convolution_matrix_horizontal(width, height, i, size);
    assert_eq!(result, vec![0, 1, 2]);

    let i = 5;
    let result = calc_convolution_matrix_horizontal(width, height, i, size);
    assert_eq!(result, vec![4, 5, 5]);

    let i = 6;
    let result = calc_convolution_matrix_horizontal(width, height, i, size);
    assert_eq!(result, vec![6, 6, 7]);

    let i = 18;
    let result = calc_convolution_matrix_horizontal(width, height, i, size);
    assert_eq!(result, vec![18, 18, 19]);

    let i = 20;
    let result = calc_convolution_matrix_horizontal(width, height, i, size);
    assert_eq!(result, vec![19, 20, 21]);

    let i = 23;
    let result = calc_convolution_matrix_horizontal(width, height, i, size);
    assert_eq!(result, vec![22, 23, 23]);
}

#[test]
fn test_calc_convolution_matrix_vertical() {
    // 00, 01, 02, 03, 04, 05,
    // 06, 07, 08, 09, 10, 11,
    // 12, 13, 14, 15, 16, 17,
    // 18, 19, 20, 21, 22, 23
    let width = 6;
    let height = 4;
    let size = 3;
    let i = 0;
    let result = calc_convolution_matrix_vertical(width, height, i, size);
    assert_eq!(result, vec![0, 0, 6]);

    let i = 1;
    let result = calc_convolution_matrix_vertical(width, height, i, size);
    assert_eq!(result, vec![1, 1, 7]);

    let i = 5;
    let result = calc_convolution_matrix_vertical(width, height, i, size);
    assert_eq!(result, vec![5, 5, 11]);

    let i = 6;
    let result = calc_convolution_matrix_vertical(width, height, i, size);
    assert_eq!(result, vec![0, 6, 12]);

    let i = 18;
    let result = calc_convolution_matrix_vertical(width, height, i, size);
    assert_eq!(result, vec![12, 18, 18]);

    let i = 20;
    let result = calc_convolution_matrix_vertical(width, height, i, size);
    assert_eq!(result, vec![14, 20, 20]);

    let i = 23;
    let result = calc_convolution_matrix_vertical(width, height, i, size);
    assert_eq!(result, vec![17, 23, 23]);
}

#[test]
fn luminance_of_equal_channels_is_exact() {
    assert_eq!(gray_data(&[10, 10, 10, 255], 1, 1), vec![10]);
    assert_eq!(gray_data(&[255, 255, 255, 0], 1, 1), vec![255]);
}

#[test]
fn luminance_uses_bt601_weights_and_truncates() {
    // 0.299 * 255 = 76.245, 0.587 * 255 = 149.685, 0.114 * 255 = 29.07
    let image = [255, 0, 0, 255, 0, 255, 0, 255, 0, 0, 255, 255, 10, 20, 30, 0];
    // 0.299 * 10 + 0.587 * 20 + 0.114 * 30 = 18.15
    assert_eq!(gray_data(&image, 2, 2), vec![76, 149, 29, 18]);
}

#[test]
fn matrix_with_even_size_leans_right() {
    // size 4 centres on offset 2: taps x-2, x-1, x, x+1
    assert_eq!(calc_convolution_matrix_horizontal(5, 1, 2, 4), vec![0, 1, 2, 3]);
    assert_eq!(calc_convolution_matrix_vertical(1, 5, 0, 4), vec![0, 0, 0, 1]);
}

#[test]
fn matrix_wider_than_image_repeats_edges() {
    assert_eq!(calc_convolution_matrix_horizontal(2, 1, 1, 5), vec![0, 0, 1, 1, 1]);
    assert_eq!(calc_convolution_matrix_vertical(1, 1, 0, 3), vec![0, 0, 0]);
}

#[test]
fn kernel_total_sums_weights() {
    assert_eq!(kernel_total(&SIGMA_ONE_KERNEL), 65535);
    assert_eq!(kernel_total(&[]), 0);
    assert_eq!(kernel_total(&[u32::MAX, u32::MAX]), 2 * u32::MAX as u128);
}

#[test]
fn blur_rounds_half_up() {
    // weights 1,2,1 over 4: (0 + 0 + 255) / 4 = 63.75 -> 64, (0 + 510 + 0) / 4 = 127.5 -> 128
    let result = filter_image_data(&[0, 255, 0], 3, 1, &[1, 2, 1]);
    assert_eq!(result, vec![64, 128, 64]);
}

#[test]
fn blur_vertical_pass_reads_horizontal_output() {
    // a single column: the horizontal pass leaves it alone, the vertical pass blurs it
    let result = filter_image_data(&[0, 255, 0], 1, 3, &[1, 2, 1]);
    assert_eq!(result, vec![64, 128, 64]);
}

#[test]
fn blur_keeps_flat_field() {
    let image = vec![137u8; 5 * 4];
    assert_eq!(filter_image_data(&image, 5, 4, &SIGMA_ONE_KERNEL), image);
    assert_eq!(filter_image_data(&image, 5, 4, &[3, 0, 7, 1, 9]), image);
    let white = vec![255u8; 3 * 3];
    assert_eq!(filter_image_data(&white, 3, 3, &[u32::MAX, u32::MAX, u32::MAX]), white);
}

#[test]
fn blur_with_single_tap_is_identity() {
    let image = [1, 2, 3, 4, 5, 6];
    assert_eq!(filter_image_data(&image, 3, 2, &[7]), image.to_vec());
}

#[test]
fn expand_gray_makes_opaque_gray_pixels() {
    assert_eq!(expand_gray(&[7, 200]), vec![7, 7, 7, 255, 200, 200, 200, 255]);
    assert_eq!(expand_gray(&[]), Vec::<u8>::new());
}

#[test]
fn process_pixels_full_pipeline() {
    let mut image = Vec::new();
    for v in [10u8, 20, 30, 40, 50, 60, 70, 80, 90] {
        image.extend_from_slice(&[v, v, v, 255]);
    }
    let result = process_pixels(&image, 3, 3, &SIGMA_ONE_KERNEL).unwrap();
    let mut expected = Vec::new();
    for v in [21u8, 28, 35, 43, 50, 57, 65, 72, 79] {
        expected.extend_from_slice(&[v, v, v, 255]);
    }
    assert_eq!(result, expected);
}

#[test]
fn process_pixels_output_is_opaque_gray_of_input_length() {
    let image: Vec<u8> = (0..4 * 4 * 3).map(|i| (i * 37 % 256) as u8).collect();
    let result = process_pixels(&image, 4, 3, &[1, 4, 6, 4, 1]).unwrap();
    assert_eq!(result.len(), image.len());
    for px in result.chunks(4) {
        assert_eq!(px[3], 255);
        assert_eq!(px[0], px[1]);
        assert_eq!(px[1], px[2]);
    }
}

#[test]
fn process_pixels_rejects_bad_dimensions() {
    let image = [0u8; 4 * 2 * 2];
    assert_eq!(process_pixels(&image[..15], 2, 2, &[1]), Err(ProcessError::InvalidDimensions));
    assert_eq!(process_pixels(&image, 2, 3, &[1]), Err(ProcessError::InvalidDimensions));
    assert_eq!(process_pixels(&image, 0, 2, &[1]), Err(ProcessError::InvalidDimensions));
    assert_eq!(process_pixels(&[], 2, 0, &[1]), Err(ProcessError::InvalidDimensions));
    assert_eq!(
        process_pixels(&image, usize::MAX, 2, &[1]),
        Err(ProcessError::InvalidDimensions)
    );
    // dimensions are checked before the kernel
    assert_eq!(process_pixels(&image[..3], 2, 2, &[]), Err(ProcessError::InvalidDimensions));
}

#[test]
fn process_pixels_rejects_unusable_kernel() {
    let image = [0u8; 4 * 2 * 2];
    assert_eq!(process_pixels(&image, 2, 2, &[]), Err(ProcessError::InvalidKernelParameters));
    assert_eq!(
        process_pixels(&image, 2, 2, &[0, 0, 0]),
        Err(ProcessError::InvalidKernelParameters)
    );
}
