//! Core of an OCR command-line utility: an image preprocessing pipeline
//! (grayscale conversion, contrast adjustment, denoising, skew correction and
//! three binarization strategies) and a text-quality metrics engine
//! (Levenshtein-based CER/WER computation and diff reporting), together with
//! the configuration records and the HOCR bounding-box model that surround
//! them.
//!
//! Every function in this crate is verified: its behaviour is stated in
//! `requires`/`ensures` contracts over mathematical models (sequences of
//! characters, per-pixel specification functions, exact rational error rates)
//! and proved. I/O, the OCR engine invocation and file-format decoding live
//! outside the library and hand it plain values.

pub mod text;

pub use text::split_words;

pub mod distance;

pub use distance::{edit_dist, levenshtein_distance, word_levenshtein_distance};

pub mod fmt;

pub mod metrics;

pub use metrics::{OcrMetrics, Rate, TextError, calculate_cer, calculate_wer, compare_ocr_result};

pub mod report;

pub use report::generate_diff_report;

pub mod image;

pub use image::{ColorImage, GrayImage, RasterImage, to_grayscale};

pub mod contrast;

pub use contrast::adjust_contrast;

pub mod denoise;

pub use denoise::denoise;

pub mod frac;

pub mod binarize;

pub use binarize::{BinarizationMethod, binarize, binarize_fixed, calculate_otsu_threshold, parse_binarization_method};

pub mod deskew;

pub use deskew::{deskew, detect_skew_angle};

pub mod pipeline;

pub use pipeline::{PreprocessError, PreprocessingConfig, preprocess_image};

pub mod orientation;

pub use orientation::{Orientation, rotate_orientation};

pub mod config;

pub use config::{OcrConfig, PageSegMode, psm_from_int};

pub mod parse;

pub mod files;

pub use files::is_image_file;

pub mod hocr;

pub use hocr::{BBox, HocrDocument, HocrLine, HocrParagraph, HocrWord, extract_bbox, extract_confidence, extract_word_text};

