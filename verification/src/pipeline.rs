//! The preprocessing pipeline: a fixed-order sequence of optional
//! transforms. Whatever the configuration, the order is grayscale
//! conversion, deskew, denoise, contrast adjustment, binarization; each
//! stage is skipped when its flag is off and otherwise consumes the output
//! of the previous enabled stage. Rotation and median filtering run before
//! contrast and binarization because they are unreliable on hard-edged
//! binary images, and contrast precedes binarization because threshold
//! selection depends on the adjusted histogram.

use vstd::prelude::*;
use crate::binarize::{BinarizationMethod, binarize, binarize_data};
use crate::contrast::{adjust_contrast, contrast_pixel};
use crate::denoise::{denoise, denoise_data};
use crate::deskew::{deskew, deskew_data};
use crate::image::{GrayImage, RasterImage, raster_data, raster_gray_view, to_grayscale};

verus! {

/// Which preprocessing stages run, and their parameters.
#[derive(Debug, Clone, Copy, PartialEq, Eq, Structural)]
pub struct PreprocessingConfig {
    /// Convert to grayscale.
    pub to_grayscale: bool,
    /// Binarize (last stage).
    pub binarize: bool,
    /// Strategy used when `binarize` is on.
    pub binarization_method: BinarizationMethod,
    /// Stretch contrast around mid-gray.
    pub adjust_contrast: bool,
    /// Contrast factor in thousandths: 1000 is neutral, more increases
    /// contrast.
    pub contrast_factor_milli: u32,
    /// Apply the 3x3 median filter.
    pub denoise: bool,
    /// Detect and correct small-angle skew.
    pub deskew: bool,
}

impl Default for PreprocessingConfig {
    /// Grayscale conversion only, with Otsu selected as the binarization
    /// method and a neutral contrast factor.
    fn default() -> (r: Self)
        ensures
            r.to_grayscale,
            !r.binarize,
            r.binarization_method == BinarizationMethod::Otsu,
            !r.adjust_contrast,
            r.contrast_factor_milli == 1000,
            !r.denoise,
            !r.deskew,
    {
        PreprocessingConfig {
            to_grayscale: true,
            binarize: false,
            binarization_method: BinarizationMethod::Otsu,
            adjust_contrast: false,
            contrast_factor_milli: 1000,
            denoise: false,
            deskew: false,
        }
    }
}

/// A reserved failure case: every current stage is total, so the pipeline
/// never returns it, but the signature keeps room for fallible stages.
#[derive(Debug, Clone, Copy, PartialEq, Eq, Structural)]
pub enum PreprocessError {
    /// A stage could not process the image.
    StageFailed,
}

/// Whether any stage of `config` is enabled.
pub open spec fn any_stage(config: PreprocessingConfig) -> bool {
    config.to_grayscale || config.deskew || config.denoise || config.adjust_contrast
        || config.binarize
}

/// The whole buffer after contrast adjustment.
pub open spec fn contrast_data(d: Seq<u8>, factor_milli: int) -> Seq<u8> {
    Seq::new(d.len(), |i: int| contrast_pixel(d[i] as int, factor_milli) as u8)
}

/// The grayscale samples the pipeline produces when at least one stage is
/// enabled: the luminance of the input, then each enabled stage in the
/// fixed order.
pub open spec fn pipeline_data(input: RasterImage, config: PreprocessingConfig) -> Seq<u8> {
    let w = input.spec_width();
    let h = input.spec_height();
    let d0 = raster_gray_view(input);
    let d1 = if config.deskew {
        deskew_data(w, h, d0)
    } else {
        d0
    };
    let d2 = if config.denoise {
        denoise_data(w, h, d1)
    } else {
        d1
    };
    let d3 = if config.adjust_contrast {
        contrast_data(d2, config.contrast_factor_milli as int)
    } else {
        d2
    };
    if config.binarize {
        binarize_data(w, h, d3, config.binarization_method)
    } else {
        d3
    }
}

/// Runs the enabled stages on `image` in the fixed order grayscale,
/// deskew, denoise, contrast, binarize. The dimensions are always
/// preserved. The result is grayscale as soon as any stage is enabled;
/// with every stage disabled the input is returned unchanged. Under the
/// current stages the pipeline always succeeds; the `Result` is room for
/// future fallible stages.
pub fn preprocess_image(image: &RasterImage, config: &PreprocessingConfig) -> (r: Result<
    RasterImage,
    PreprocessError,
>)
    requires
        image.wf(),
    ensures
        r is Ok,
        match r {
            Ok(out) => {
                &&& out.wf()
                &&& out.spec_width() == image.spec_width()
                &&& out.spec_height() == image.spec_height()
                &&& if any_stage(*config) {
                    out is Gray && raster_data(out) == pipeline_data(*image, *config)
                } else {
                    (out is Gray <==> *image is Gray) && raster_data(out) == raster_data(*image)
                }
            },
            Err(_) => false,
        },
{
    let ghost w = image.spec_width();
    let ghost h = image.spec_height();
    if !(config.to_grayscale || config.deskew || config.denoise || config.adjust_contrast
        || config.binarize) {
        return Ok(image.duplicate());
    }
    let mut img: GrayImage = to_grayscale(image);
    if config.deskew {
        img = deskew(&img);
    }
    if config.denoise {
        img = denoise(&img);
    }
    if config.adjust_contrast {
        let ghost before = img.data@;
        img = adjust_contrast(&img, config.contrast_factor_milli);
        proof {
            assert(img.data@ =~= contrast_data(before, config.contrast_factor_milli as int));
        }
    }
    if config.binarize {
        img = binarize(&img, config.binarization_method);
    }
    Ok(RasterImage::Gray(img))
}

} // verus!
