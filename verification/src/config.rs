//! Configuration of the OCR engine invocation: the page segmentation mode
//! and the engine parameters, with presets for common document kinds.

use vstd::prelude::*;

verus! {

/// Page segmentation mode: how the engine splits an image into text
/// regions. Each mode corresponds to a numeric code in 0..=13.
#[derive(Debug, Clone, Copy, PartialEq, Eq, Structural)]
pub enum PageSegMode {
    /// 0: orientation and script detection only.
    OsdOnly,
    /// 1: automatic segmentation with orientation and script detection.
    AutoOsd,
    /// 2: automatic segmentation without orientation and script detection.
    AutoOnly,
    /// 3: full automatic segmentation (the default).
    Auto,
    /// 4: assume a single column of text of variable sizes.
    SingleColumn,
    /// 5: assume a single uniform block of vertically aligned text.
    SingleBlockVertText,
    /// 6: assume a single uniform block of text.
    SingleBlock,
    /// 7: treat the image as a single text line.
    SingleLine,
    /// 8: treat the image as a single word.
    SingleWord,
    /// 9: treat the image as a single word in a circle.
    CircleWord,
    /// 10: treat the image as a single character.
    SingleChar,
    /// 11: sparse text, in no particular order.
    SparseText,
    /// 12: sparse text with orientation and script detection.
    SparseTextOsd,
    /// 13: raw line, bypassing engine-specific hacks.
    RawLine,
}

/// The numeric code of a page segmentation mode.
pub open spec fn psm_code(mode: PageSegMode) -> int {
    match mode {
        PageSegMode::OsdOnly => 0,
        PageSegMode::AutoOsd => 1,
        PageSegMode::AutoOnly => 2,
        PageSegMode::Auto => 3,
        PageSegMode::SingleColumn => 4,
        PageSegMode::SingleBlockVertText => 5,
        PageSegMode::SingleBlock => 6,
        PageSegMode::SingleLine => 7,
        PageSegMode::SingleWord => 8,
        PageSegMode::CircleWord => 9,
        PageSegMode::SingleChar => 10,
        PageSegMode::SparseText => 11,
        PageSegMode::SparseTextOsd => 12,
        PageSegMode::RawLine => 13,
    }
}

impl PageSegMode {
    /// The numeric code the engine expects for this mode, in 0..=13.
    pub fn to_tesseract_psm(self) -> (r: i32)
        ensures
            r == psm_code(self),
            0 <= r <= 13,
    {
        match self {
            PageSegMode::OsdOnly => 0,
            PageSegMode::AutoOsd => 1,
            PageSegMode::AutoOnly => 2,
            PageSegMode::Auto => 3,
            PageSegMode::SingleColumn => 4,
            PageSegMode::SingleBlockVertText => 5,
            PageSegMode::SingleBlock => 6,
            PageSegMode::SingleLine => 7,
            PageSegMode::SingleWord => 8,
            PageSegMode::CircleWord => 9,
            PageSegMode::SingleChar => 10,
            PageSegMode::SparseText => 11,
            PageSegMode::SparseTextOsd => 12,
            PageSegMode::RawLine => 13,
        }
    }
}

/// The mode for a numeric code: the inverse of `psm_code`, with every
/// value outside 0..=13 falling back to full automatic segmentation.
pub open spec fn psm_of_int(psm: int) -> PageSegMode {
    if psm == 0 {
        PageSegMode::OsdOnly
    } else if psm == 1 {
        PageSegMode::AutoOsd
    } else if psm == 2 {
        PageSegMode::AutoOnly
    } else if psm == 3 {
        PageSegMode::Auto
    } else if psm == 4 {
        PageSegMode::SingleColumn
    } else if psm == 5 {
        PageSegMode::SingleBlockVertText
    } else if psm == 6 {
        PageSegMode::SingleBlock
    } else if psm == 7 {
        PageSegMode::SingleLine
    } else if psm == 8 {
        PageSegMode::SingleWord
    } else if psm == 9 {
        PageSegMode::CircleWord
    } else if psm == 10 {
        PageSegMode::SingleChar
    } else if psm == 11 {
        PageSegMode::SparseText
    } else if psm == 12 {
        PageSegMode::SparseTextOsd
    } else if psm == 13 {
        PageSegMode::RawLine
    } else {
        PageSegMode::Auto
    }
}

/// Converts a numeric page segmentation code to its mode; values outside
/// 0..=13 fall back to full automatic segmentation.
pub fn psm_from_int(psm: i32) -> (r: PageSegMode)
    ensures
        r == psm_of_int(psm as int),
        0 <= psm <= 13 ==> psm_code(r) == psm,
{
    match psm {
        0 => PageSegMode::OsdOnly,
        1 => PageSegMode::AutoOsd,
        2 => PageSegMode::AutoOnly,
        3 => PageSegMode::Auto,
        4 => PageSegMode::SingleColumn,
        5 => PageSegMode::SingleBlockVertText,
        6 => PageSegMode::SingleBlock,
        7 => PageSegMode::SingleLine,
        8 => PageSegMode::SingleWord,
        9 => PageSegMode::CircleWord,
        10 => PageSegMode::SingleChar,
        11 => PageSegMode::SparseText,
        12 => PageSegMode::SparseTextOsd,
        13 => PageSegMode::RawLine,
        _ => PageSegMode::Auto,
    }
}

/// Parameters of one OCR engine invocation: the language, the page
/// segmentation mode, the image resolution, and free-form engine
/// variables as ordered key-value pairs.
#[derive(Debug, Clone)]
pub struct OcrConfig {
    /// Language code, e.g. "eng", "fra" or a combination "eng+fra".
    pub language: String,
    /// How the engine segments the page.
    pub page_seg_mode: PageSegMode,
    /// Image resolution in dots per inch; 300 is usual for scans.
    pub dpi: u32,
    /// Engine variables, in insertion order.
    pub tesseract_variables: Vec<(String, String)>,
}

impl OcrConfig {
    /// The value of engine variable `key`, when set: the value of the
    /// first pair whose key matches.
    pub fn variable(&self, key: &str) -> (r: Option<String>)
        ensures
            match r {
                Some(v) => var_lookup(self.tesseract_variables@, key@) == Some(v@),
                None => var_lookup(self.tesseract_variables@, key@) is None,
            },
    {
        let ghost vars = self.tesseract_variables@;
        let n = self.tesseract_variables.len();
        let mut i: usize = 0;
        proof {
            assert(vars.skip(0) =~= vars);
        }
        while i < n
            invariant
                i <= n,
                vars == self.tesseract_variables@,
                n == vars.len(),
                var_lookup(vars, key@) == var_lookup(vars.skip(i as int), key@),
            decreases n - i,
        {
            let pair = &self.tesseract_variables[i];
            if crate::text::str_eq(pair.0.as_str(), key) {
                proof {
                    assert(vars.skip(i as int)[0] == vars[i as int]);
                }
                return Some(clone_string(&pair.1));
            }
            proof {
                assert(vars.skip(i as int)[0] == vars[i as int]);
                assert(vars.skip(i as int).drop_first() =~= vars.skip(i + 1));
            }
            i = i + 1;
        }
        proof {
            assert(vars.skip(n as int) =~= Seq::<(String, String)>::empty());
        }
        None
    }

    /// The default configuration: French, automatic segmentation, 300
    /// dpi, no engine variables.
    pub fn standard() -> (r: OcrConfig)
        ensures
            r.language@ == "fra"@,
            r.page_seg_mode == PageSegMode::Auto,
            r.dpi == 300,
            r.tesseract_variables@.len() == 0,
    {
        OcrConfig {
            language: "fra".to_owned(),
            page_seg_mode: PageSegMode::Auto,
            dpi: 300,
            tesseract_variables: Vec::new(),
        }
    }

    /// Preset for scanned documents: automatic segmentation, 300 dpi,
    /// multiple inter-word spaces preserved.
    pub fn document_preset() -> (r: OcrConfig)
        ensures
            r.language@ == "fra"@,
            r.page_seg_mode == PageSegMode::Auto,
            r.dpi == 300,
            r.tesseract_variables@.len() == 1,
            r.tesseract_variables@[0].0@ == "preserve_interword_spaces"@,
            r.tesseract_variables@[0].1@ == "1"@,
    {
        let mut variables: Vec<(String, String)> = Vec::new();
        variables.push(("preserve_interword_spaces".to_owned(), "1".to_owned()));
        OcrConfig {
            language: "fra".to_owned(),
            page_seg_mode: PageSegMode::Auto,
            dpi: 300,
            tesseract_variables: variables,
        }
    }

    /// Preset for screen captures: automatic segmentation at the usual
    /// screen resolution of 96 dpi.
    pub fn screenshot_preset() -> (r: OcrConfig)
        ensures
            r.language@ == "fra"@,
            r.page_seg_mode == PageSegMode::Auto,
            r.dpi == 96,
            r.tesseract_variables@.len() == 0,
    {
        OcrConfig {
            language: "fra".to_owned(),
            page_seg_mode: PageSegMode::Auto,
            dpi: 96,
            tesseract_variables: Vec::new(),
        }
    }

    /// Preset for single text lines such as form fields: single-line
    /// segmentation at 150 dpi.
    pub fn single_line_preset() -> (r: OcrConfig)
        ensures
            r.language@ == "fra"@,
            r.page_seg_mode == PageSegMode::SingleLine,
            r.dpi == 150,
            r.tesseract_variables@.len() == 0,
    {
        OcrConfig {
            language: "fra".to_owned(),
            page_seg_mode: PageSegMode::SingleLine,
            dpi: 150,
            tesseract_variables: Vec::new(),
        }
    }

    /// Preset for photographed text: automatic segmentation at 200 dpi
    /// with automatic inversion disabled.
    pub fn photo_preset() -> (r: OcrConfig)
        ensures
            r.language@ == "fra"@,
            r.page_seg_mode == PageSegMode::Auto,
            r.dpi == 200,
            r.tesseract_variables@.len() == 1,
            r.tesseract_variables@[0].0@ == "tessedit_do_invert"@,
            r.tesseract_variables@[0].1@ == "0"@,
    {
        let mut variables: Vec<(String, String)> = Vec::new();
        variables.push(("tessedit_do_invert".to_owned(), "0".to_owned()));
        OcrConfig {
            language: "fra".to_owned(),
            page_seg_mode: PageSegMode::Auto,
            dpi: 200,
            tesseract_variables: variables,
        }
    }
}

impl Default for OcrConfig {
    /// The configuration `standard` builds.
    fn default() -> (r: Self)
        ensures
            r.language@ == "fra"@,
            r.page_seg_mode == PageSegMode::Auto,
            r.dpi == 300,
            r.tesseract_variables@.len() == 0,
    {
        OcrConfig::standard()
    }
}

/// The value of the first pair of `vars` whose key spells `key`, if any.
pub open spec fn var_lookup(vars: Seq<(String, String)>, key: Seq<char>) -> Option<Seq<char>>
    decreases vars.len(),
{
    if vars.len() == 0 {
        None
    } else if vars[0].0@ == key {
        Some(vars[0].1@)
    } else {
        var_lookup(vars.drop_first(), key)
    }
}

/// A fresh string with the same characters.
pub fn clone_string(s: &String) -> (r: String)
    ensures
        r@ == s@,
{
    s.as_str().to_owned()
}

} // verus!
