//! Tests of the image preprocessing stages and the pipeline.

use text_recognition::binarize::{
    BinarizationMethod, binarize, binarize_fixed, calculate_otsu_threshold,
    parse_binarization_method,
};
use text_recognition::contrast::adjust_contrast;
use text_recognition::denoise::denoise;
use text_recognition::deskew::{deskew, detect_skew_angle};
use text_recognition::image::{ColorImage, GrayImage, RasterImage, to_grayscale};
use text_recognition::orientation::{Orientation, rotate_orientation};
use text_recognition::pipeline::{PreprocessingConfig, preprocess_image};
use text_recognition::files::is_image_file;

fn gray(w: usize, h: usize, fill: u8) -> GrayImage {
    GrayImage::filled(w, h, fill).unwrap()
}

#[test]
fn test_preprocessing_config_default() {
    let config = PreprocessingConfig::default();
    assert!(config.to_grayscale);
    assert!(!config.binarize);
    assert_eq!(config.binarization_method, BinarizationMethod::Otsu);
    assert!(!config.adjust_contrast);
    assert_eq!(config.contrast_factor_milli, 1000);
    assert!(!config.denoise);
    assert!(!config.deskew);
}

#[test]
fn test_binarization_method_equality() {
    assert_eq!(BinarizationMethod::Otsu, BinarizationMethod::Otsu);
    assert_eq!(BinarizationMethod::Fixed(128), BinarizationMethod::Fixed(128));
    assert_ne!(BinarizationMethod::Fixed(100), BinarizationMethod::Fixed(128));
    assert_eq!(BinarizationMethod::Adaptive, BinarizationMethod::Adaptive);
}

#[test]
fn test_binarization_method_clone() {
    let method1 = BinarizationMethod::Otsu;
    let method2 = method1;
    assert_eq!(method1, method2);

    let method3 = BinarizationMethod::Fixed(150);
    let method4 = method3;
    assert_eq!(method3, method4);
}

#[test]
fn test_binarize_fixed() {
    let mut img = gray(2, 2, 0);
    img.set_pixel(0, 0, 100);
    img.set_pixel(0, 1, 150);
    img.set_pixel(1, 0, 200);
    img.set_pixel(1, 1, 50);

    let binary = binarize(&img, BinarizationMethod::Fixed(128));

    assert_eq!(binary.get_pixel(0, 0), 0);
    assert_eq!(binary.get_pixel(0, 1), 255);
    assert_eq!(binary.get_pixel(1, 0), 255);
    assert_eq!(binary.get_pixel(1, 1), 0);
}

#[test]
fn test_binarize_fixed_sequence() {
    let img = GrayImage::from_raw(4, 1, vec![100, 150, 200, 50]).unwrap();
    let binary = binarize_fixed(&img, 128);
    assert_eq!(binary.data, vec![0, 255, 255, 0]);
}

#[test]
fn test_calculate_otsu_threshold() {
    let mut img = gray(10, 10, 0);
    for y in 0..10 {
        for x in 0..10 {
            let value = if x < 5 { 30 } else { 220 };
            img.set_pixel(x, y, value);
        }
    }

    let threshold = calculate_otsu_threshold(&img);

    assert!(threshold >= 30, "Threshold {} should be >= 30", threshold);
    assert!(threshold <= 220, "Threshold {} should be <= 220", threshold);
    // For an image of exactly two values the first separating cut wins.
    assert_eq!(threshold, 30);
}

#[test]
fn test_binarize_otsu() {
    let mut img = gray(4, 4, 0);
    for y in 0..4 {
        for x in 0..4 {
            let value = if (x + y) % 2 == 0 { 50 } else { 200 };
            img.set_pixel(x, y, value);
        }
    }

    let binary = binarize(&img, BinarizationMethod::Otsu);

    for &pixel in binary.data.iter() {
        assert!(pixel == 0 || pixel == 255, "Pixel value should be 0 or 255, got {}", pixel);
    }
}

#[test]
fn test_binarize_adaptive() {
    let mut img = gray(20, 20, 0);
    for y in 0..20 {
        for x in 0..20 {
            let base = 50 + (x * 10);
            let text_offset = if (x + y) % 3 == 0 { 0 } else { 40 };
            let value = if base + text_offset > 255 { 255 } else { (base + text_offset) as u8 };
            img.set_pixel(x, y, value);
        }
    }

    let binary = binarize(&img, BinarizationMethod::Adaptive);

    let mut black_count = 0;
    let mut white_count = 0;
    for &pixel in binary.data.iter() {
        assert!(pixel == 0 || pixel == 255, "Pixel value should be 0 or 255, got {}", pixel);
        if pixel == 0 {
            black_count += 1;
        } else {
            white_count += 1;
        }
    }

    assert!(black_count > 0, "Should have some black pixels");
    assert!(white_count > 0, "Should have some white pixels");
}

#[test]
fn test_binarize_all_methods() {
    let mut img = gray(10, 10, 0);
    for y in 0..10 {
        for x in 0..10 {
            let value = if x < 5 { 60 } else { 180 };
            img.set_pixel(x, y, value);
        }
    }

    let methods = vec![
        BinarizationMethod::Otsu,
        BinarizationMethod::Fixed(120),
        BinarizationMethod::Adaptive,
    ];

    for method in methods {
        let binary = binarize(&img, method);
        for &pixel in binary.data.iter() {
            assert!(
                pixel == 0 || pixel == 255,
                "Binarization method {:?} should produce only 0 or 255",
                method
            );
        }
    }
}

#[test]
fn test_parse_binarization_method() {
    assert_eq!(parse_binarization_method("otsu").unwrap(), BinarizationMethod::Otsu);
    assert_eq!(parse_binarization_method("adaptive").unwrap(), BinarizationMethod::Adaptive);
    assert_eq!(parse_binarization_method("fixed:128").unwrap(), BinarizationMethod::Fixed(128));
    assert!(parse_binarization_method("fixed:300").is_err());
    assert!(parse_binarization_method("fixed:").is_err());
    assert!(parse_binarization_method("median").is_err());
}

#[test]
fn test_adjust_contrast_no_change() {
    let mut img = gray(2, 2, 0);
    img.set_pixel(0, 0, 50);
    img.set_pixel(0, 1, 128);
    img.set_pixel(1, 0, 200);
    img.set_pixel(1, 1, 100);

    let result = adjust_contrast(&img, 1000);

    assert_eq!(result.get_pixel(0, 0), 50);
    assert_eq!(result.get_pixel(0, 1), 128);
    assert_eq!(result.get_pixel(1, 0), 200);
    assert_eq!(result.get_pixel(1, 1), 100);
}

#[test]
fn test_adjust_contrast_increase() {
    let mut img = gray(2, 2, 0);
    img.set_pixel(0, 0, 100);
    img.set_pixel(0, 1, 128);
    img.set_pixel(1, 0, 150);
    img.set_pixel(1, 1, 180);

    let result = adjust_contrast(&img, 2000);

    assert!(result.get_pixel(0, 0) < 100, "Dark pixel should become darker");
    assert_eq!(result.get_pixel(0, 1), 128);
    assert!(result.get_pixel(1, 0) > 150, "Bright pixel should become brighter");
    assert!(result.get_pixel(1, 1) > 180, "Bright pixel should become brighter");
}

#[test]
fn test_adjust_contrast_decrease() {
    let mut img = gray(2, 2, 128);
    img.set_pixel(0, 0, 50);
    img.set_pixel(0, 1, 200);

    let result = adjust_contrast(&img, 500);

    assert!(result.get_pixel(0, 0) > 50, "Dark pixel should become lighter");
    assert!(result.get_pixel(0, 1) < 200, "Bright pixel should become darker");
}

#[test]
fn test_adjust_contrast_clamping() {
    let mut img = gray(2, 2, 128);
    img.set_pixel(0, 0, 10);
    img.set_pixel(0, 1, 240);

    let result = adjust_contrast(&img, 3000);

    assert_eq!(result.get_pixel(0, 0), 0, "Very dark pixel with high contrast should clamp to 0");
    assert_eq!(
        result.get_pixel(0, 1),
        255,
        "Very bright pixel with high contrast should clamp to 255"
    );
}

#[test]
fn test_adjust_contrast_pivot_any_factor() {
    let img = gray(3, 3, 128);
    let factors = vec![0, 1, 500, 1000, 1500, 2000, 3000, 1000000];
    for f in factors {
        let result = adjust_contrast(&img, f);
        for &pixel in result.data.iter() {
            assert_eq!(pixel, 128, "Pixel at the pivot must stay 128 under factor {}", f);
        }
    }
}

#[test]
fn test_denoise_removes_salt_and_pepper() {
    let mut img = gray(5, 5, 128);
    img.set_pixel(2, 2, 0);
    img.set_pixel(1, 1, 255);
    img.set_pixel(3, 3, 255);

    let denoised = denoise(&img);

    assert_ne!(denoised.get_pixel(2, 2), 0, "Pepper noise should be removed");
    assert_ne!(denoised.get_pixel(1, 1), 255, "Salt noise should be removed");
    assert!(
        (denoised.get_pixel(2, 2) as i16 - 128).abs() < 10,
        "Denoised pixel should be close to 128"
    );
}

#[test]
fn test_denoise_preserves_edges() {
    let mut img = gray(5, 5, 0);
    for y in 0..5 {
        for x in 0..5 {
            let value = if x < 2 { 50 } else { 200 };
            img.set_pixel(x, y, value);
        }
    }

    let denoised = denoise(&img);

    assert_eq!(denoised.get_pixel(1, 2), 50, "Dark area should be preserved");
    assert_eq!(denoised.get_pixel(3, 2), 200, "Bright area should be preserved");
}

#[test]
fn test_denoise_median_calculation() {
    let values = [[10u8, 20, 30], [40, 100, 60], [70, 80, 90]];
    let mut img = gray(3, 3, 0);
    for y in 0..3 {
        for x in 0..3 {
            img.set_pixel(x, y, values[y][x]);
        }
    }

    let denoised = denoise(&img);

    assert_eq!(denoised.get_pixel(1, 1), 60, "Center pixel should be the median of neighborhood");
}

#[test]
fn test_denoise_small_image_unchanged() {
    let img = GrayImage::from_raw(2, 2, vec![10, 20, 30, 40]).unwrap();
    let denoised = denoise(&img);
    assert_eq!(denoised.data, vec![10, 20, 30, 40]);
}

#[test]
fn test_deskew_preserves_dimensions() {
    let img = gray(20, 20, 200);
    let deskewed = deskew(&img);
    assert_eq!(deskewed.dimensions(), img.dimensions());
}

#[test]
fn test_deskew_uniform_white_unchanged() {
    let img = gray(30, 30, 255);
    let deskewed = deskew(&img);
    assert_eq!(deskewed.dimensions(), (30, 30));
    assert_eq!(deskewed.data, img.data, "A flat white page has no detectable skew");
}

#[test]
fn test_detect_skew_angle_horizontal_lines() {
    let width = 60;
    let height = 40;
    let mut img = gray(width, height, 255);
    for row in [8usize, 18, 28] {
        for x in 5..55 {
            img.set_pixel(x, row, 30);
        }
    }

    let tenths = detect_skew_angle(&img);

    assert!(tenths.abs() <= 20, "Detected angle {} tenths of a degree should be close to 0", tenths);
}

#[test]
fn test_detect_skew_angle_uniform_white_is_zero() {
    let img = gray(16, 16, 255);
    assert_eq!(detect_skew_angle(&img), 0);
}

#[test]
fn test_to_grayscale_from_rgb() {
    let mut data = Vec::new();
    for _ in 0..9 {
        data.extend_from_slice(&[0, 0, 0, 255]);
    }
    let mut rgb = ColorImage::from_raw(3, 3, data).unwrap();
    // Red, green and blue pixels on the diagonal.
    rgb.data[0] = 255;
    rgb.data[4 * 4 + 1] = 255;
    rgb.data[4 * 8 + 2] = 255;

    let gray_img = to_grayscale(&RasterImage::Color(rgb));

    assert_eq!(gray_img.dimensions(), (3, 3));
    assert_eq!(gray_img.data.len(), 9);
    // The sRGB weights: red 21.26%, green 71.52%, blue 7.22%.
    assert_eq!(gray_img.data[0], 54);
    assert_eq!(gray_img.data[4], 182);
    assert_eq!(gray_img.data[8], 18);
}

#[test]
fn test_to_grayscale_identity_on_gray() {
    let img = GrayImage::from_raw(2, 2, vec![1, 2, 3, 4]).unwrap();
    let out = to_grayscale(&RasterImage::Gray(img));
    assert_eq!(out.data, vec![1, 2, 3, 4]);
}

#[test]
fn test_preprocess_pipeline_order() {
    let img = RasterImage::Gray(gray(10, 10, 128));
    let config = PreprocessingConfig {
        to_grayscale: true,
        binarize: true,
        binarization_method: BinarizationMethod::Fixed(128),
        adjust_contrast: true,
        contrast_factor_milli: 1500,
        denoise: true,
        deskew: true,
    };

    let result = preprocess_image(&img, &config);
    assert!(result.is_ok(), "Preprocessing pipeline should succeed");

    let processed = result.unwrap();
    assert_eq!(processed.dimensions(), (10, 10), "Dimensions should be preserved");
}

#[test]
fn test_preprocess_with_minimal_config() {
    let img = RasterImage::Gray(gray(5, 5, 150));
    let config = PreprocessingConfig {
        to_grayscale: true,
        binarize: false,
        binarization_method: BinarizationMethod::Otsu,
        adjust_contrast: false,
        contrast_factor_milli: 1000,
        denoise: false,
        deskew: false,
    };

    let result = preprocess_image(&img, &config);
    assert!(result.is_ok(), "Minimal preprocessing should succeed");
    assert_eq!(result.unwrap().dimensions(), (5, 5));
}

#[test]
fn test_preprocess_only_binarization() {
    let mut base = gray(4, 4, 0);
    for y in 0..4 {
        for x in 0..4 {
            let value = if (x + y) % 2 == 0 { 50 } else { 200 };
            base.set_pixel(x, y, value);
        }
    }
    let img = RasterImage::Gray(base);

    let config = PreprocessingConfig {
        to_grayscale: false,
        binarize: true,
        binarization_method: BinarizationMethod::Fixed(100),
        adjust_contrast: false,
        contrast_factor_milli: 1000,
        denoise: false,
        deskew: false,
    };

    let result = preprocess_image(&img, &config).unwrap();
    match result {
        RasterImage::Gray(g) => {
            for &pixel in g.data.iter() {
                assert!(pixel == 0 || pixel == 255, "Binarized pixel should be 0 or 255");
            }
        }
        RasterImage::Color(_) => panic!("binarized output must be grayscale"),
    }
}

#[test]
fn test_preprocess_no_stages_keeps_input() {
    let img = RasterImage::Gray(GrayImage::from_raw(2, 2, vec![9, 8, 7, 6]).unwrap());
    let config = PreprocessingConfig {
        to_grayscale: false,
        binarize: false,
        binarization_method: BinarizationMethod::Otsu,
        adjust_contrast: false,
        contrast_factor_milli: 1000,
        denoise: false,
        deskew: false,
    };
    let out = preprocess_image(&img, &config).unwrap();
    match out {
        RasterImage::Gray(g) => assert_eq!(g.data, vec![9, 8, 7, 6]),
        RasterImage::Color(_) => panic!("channel mode must be preserved"),
    }
}

#[test]
fn test_preprocess_dimension_preservation_all_configs() {
    let img = RasterImage::Gray(gray(9, 7, 100));
    let methods = [
        BinarizationMethod::Otsu,
        BinarizationMethod::Fixed(90),
        BinarizationMethod::Adaptive,
    ];
    for mask in 0..32 {
        let config = PreprocessingConfig {
            to_grayscale: mask & 1 != 0,
            deskew: mask & 2 != 0,
            denoise: mask & 4 != 0,
            adjust_contrast: mask & 8 != 0,
            binarize: mask & 16 != 0,
            binarization_method: methods[mask % 3],
            contrast_factor_milli: 1300,
        };
        let out = preprocess_image(&img, &config).unwrap();
        assert_eq!(out.dimensions(), (9, 7));
    }
}

#[test]
fn test_orientation_from_degrees() {
    assert_eq!(Orientation::from_tesseract_degrees(0), Orientation::Upright);
    assert_eq!(Orientation::from_tesseract_degrees(90), Orientation::Clockwise90);
    assert_eq!(Orientation::from_tesseract_degrees(180), Orientation::UpsideDown);
    assert_eq!(Orientation::from_tesseract_degrees(270), Orientation::CounterClockwise90);
    assert_eq!(Orientation::from_tesseract_degrees(45), Orientation::Upright);
}

#[test]
fn test_rotate_orientation_dimensions() {
    let img = RasterImage::Gray(gray(4, 2, 10));

    let up = rotate_orientation(&img, Orientation::Upright);
    assert_eq!(up.dimensions(), (4, 2));

    let cw = rotate_orientation(&img, Orientation::Clockwise90);
    assert_eq!(cw.dimensions(), (2, 4));

    let flip = rotate_orientation(&img, Orientation::UpsideDown);
    assert_eq!(flip.dimensions(), (4, 2));

    let ccw = rotate_orientation(&img, Orientation::CounterClockwise90);
    assert_eq!(ccw.dimensions(), (2, 4));
}

#[test]
fn test_rotate_orientation_upside_down_moves_pixels() {
    let mut base = gray(2, 2, 0);
    base.set_pixel(0, 0, 10);
    base.set_pixel(1, 0, 20);
    base.set_pixel(0, 1, 30);
    base.set_pixel(1, 1, 40);
    let img = RasterImage::Gray(base);

    let flipped = rotate_orientation(&img, Orientation::UpsideDown);
    match flipped {
        RasterImage::Color(c) => {
            // Red channel of pixel (0, 0) came from source pixel (1, 1).
            assert_eq!(c.data[0], 40);
            assert_eq!(c.data[4], 30);
            assert_eq!(c.data[8], 20);
            assert_eq!(c.data[12], 10);
        }
        RasterImage::Gray(_) => panic!("rotated output is expanded to RGBA"),
    }
}

#[test]
fn test_is_image_file() {
    assert!(is_image_file("scan.png"));
    assert!(is_image_file("photo.JPG"));
    assert!(is_image_file("dir/page.jpeg"));
    assert!(is_image_file("a.tiff"));
    assert!(is_image_file("a.tif"));
    assert!(is_image_file("a.bmp"));
    assert!(is_image_file("a.gif"));
    assert!(!is_image_file("notes.txt"));
    assert!(!is_image_file("noextension"));
    assert!(!is_image_file(".png"));
}

#[test]
fn test_is_image_file_path_components() {
    // A hidden file whose name starts with its only dot has no extension.
    assert!(!is_image_file("x/.png"));
    assert!(!is_image_file("dir/subdir/.jpg"));
    // Trailing separators do not hide the file name.
    assert!(is_image_file("a.png/"));
    assert!(is_image_file("scans/a.png//"));
    // Dots in earlier components are not extensions.
    assert!(!is_image_file("dir.png/file"));
    assert!(!is_image_file(".."));
    // The last dot of the component decides.
    assert!(is_image_file("archive.tar.png"));
    assert!(!is_image_file("archive.png.txt"));
}

#[test]
fn test_preprocess_contrast_then_binarize() {
    let mut base = gray(4, 4, 0);
    for y in 0..4 {
        for x in 0..4 {
            let value = if (x + y) % 2 == 0 { 100 } else { 140 };
            base.set_pixel(x, y, value);
        }
    }
    let img = RasterImage::Gray(base);

    let config = PreprocessingConfig {
        to_grayscale: false,
        binarize: true,
        binarization_method: BinarizationMethod::Otsu,
        adjust_contrast: true,
        contrast_factor_milli: 2000,
        denoise: false,
        deskew: false,
    };

    let result = preprocess_image(&img, &config);
    assert!(result.is_ok(), "Contrast + binarization preprocessing should succeed");

    match result.unwrap() {
        RasterImage::Gray(g) => {
            for &pixel in g.data.iter() {
                assert!(pixel == 0 || pixel == 255, "Final image should be binarized");
            }
        }
        RasterImage::Color(_) => panic!("binarized output must be grayscale"),
    }
}

#[test]
fn test_preprocess_denoise_then_binarize() {
    let mut base = gray(5, 5, 128);
    base.set_pixel(2, 2, 0);
    base.set_pixel(1, 1, 255);
    let img = RasterImage::Gray(base);

    let config = PreprocessingConfig {
        to_grayscale: false,
        binarize: true,
        binarization_method: BinarizationMethod::Fixed(128),
        adjust_contrast: false,
        contrast_factor_milli: 1000,
        denoise: true,
        deskew: false,
    };

    let result = preprocess_image(&img, &config);
    assert!(result.is_ok(), "Denoise + binarization preprocessing should succeed");
    assert_eq!(result.unwrap().dimensions(), (5, 5));
}

#[test]
fn test_preprocessing_config_clone() {
    let config1 = PreprocessingConfig::default();
    let config2 = config1;

    assert_eq!(config1.to_grayscale, config2.to_grayscale);
    assert_eq!(config1.binarize, config2.binarize);
    assert_eq!(config1.binarization_method, config2.binarization_method);
    assert_eq!(config1.adjust_contrast, config2.adjust_contrast);
    assert_eq!(config1.contrast_factor_milli, config2.contrast_factor_milli);
    assert_eq!(config1.denoise, config2.denoise);
    assert_eq!(config1.deskew, config2.deskew);
}

#[test]
fn test_deskew_uniform_image_unchanged() {
    let img = gray(30, 30, 200);
    let deskewed = deskew(&img);
    assert_eq!(deskewed.dimensions(), (30, 30));
}
