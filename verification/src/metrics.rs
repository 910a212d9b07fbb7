//! OCR quality metrics: character error rate (CER), word error rate (WER),
//! full comparison records, and the classification of single text errors.
//!
//! Error rates are quotients of an edit distance by a reference length.
//! They are kept as exact rationals (`Rate`), so every contract states the
//! numerator and denominator precisely; consumers that want a floating-point
//! value divide at the boundary.

use vstd::prelude::*;
use crate::distance::{edit_dist, lemma_edit_dist_identity, levenshtein_distance,
    word_levenshtein_distance};
use crate::text::{chars_of, chars_eq, split_words, words};
use crate::fmt::{append_dec, dec_str, string_push};
use vstd::string::StringExecFns;

verus! {

/// An exact non-negative rational: `num / den`. Rates built by this module
/// always have `den >= 1`.
#[derive(Clone, Copy, Debug, PartialEq, Eq, Structural)]
pub struct Rate {
    pub num: usize,
    pub den: usize,
}

impl Rate {
    pub open spec fn wf(self) -> bool {
        self.den >= 1
    }
}

/// Numerator of the character error rate of `ocr` against `reference`:
/// the character edit distance, except that an empty reference makes the
/// rate an all-or-nothing 0 or 1.
pub open spec fn cer_num(ocr: Seq<char>, reference: Seq<char>) -> nat {
    if reference.len() == 0 {
        if ocr.len() == 0 {
            0
        } else {
            1
        }
    } else {
        edit_dist(ocr, reference)
    }
}

/// Denominator of the character error rate: the reference character count,
/// or 1 when the reference is empty.
pub open spec fn cer_den(reference: Seq<char>) -> nat {
    if reference.len() == 0 {
        1
    } else {
        reference.len()
    }
}

/// Numerator of the word error rate, over whitespace-delimited words.
pub open spec fn wer_num(ocr: Seq<char>, reference: Seq<char>) -> nat {
    if words(reference).len() == 0 {
        if words(ocr).len() == 0 {
            0
        } else {
            1
        }
    } else {
        edit_dist(words(ocr), words(reference))
    }
}

/// Denominator of the word error rate: the reference word count, or 1 when
/// the reference has no words.
pub open spec fn wer_den(reference: Seq<char>) -> nat {
    if words(reference).len() == 0 {
        1
    } else {
        words(reference).len()
    }
}

/// The character error rate of `ocr_text` against `reference_text`:
/// character edit distance divided by the reference character count. An
/// empty reference gives 0 when the OCR text is empty too, else 1. The
/// value can exceed 1 when the OCR text is much longer than the reference.
pub fn calculate_cer(ocr_text: &str, reference_text: &str) -> (r: Rate)
    ensures
        r.num == cer_num(ocr_text@, reference_text@),
        r.den == cer_den(reference_text@),
        r.wf(),
{
    let rc = chars_of(reference_text);
    if rc.len() == 0 {
        let oc = chars_of(ocr_text);
        if oc.len() == 0 {
            Rate { num: 0, den: 1 }
        } else {
            Rate { num: 1, den: 1 }
        }
    } else {
        let d = levenshtein_distance(ocr_text, reference_text);
        Rate { num: d, den: rc.len() }
    }
}

/// The word error rate of `ocr_text` against `reference_text`: word edit
/// distance divided by the reference word count, with the same empty-
/// reference convention as the CER. A single wrong character makes its
/// whole word count as one error.
pub fn calculate_wer(ocr_text: &str, reference_text: &str) -> (r: Rate)
    ensures
        r.num == wer_num(ocr_text@, reference_text@),
        r.den == wer_den(reference_text@),
        r.wf(),
{
    let rw = split_words(reference_text);
    let ow = split_words(ocr_text);
    proof {
        assert(rw@.map_values(|w: String| w@).len() == rw@.len());
        assert(ow@.map_values(|w: String| w@).len() == ow@.len());
    }
    if rw.len() == 0 {
        if ow.len() == 0 {
            Rate { num: 0, den: 1 }
        } else {
            Rate { num: 1, den: 1 }
        }
    } else {
        let d = word_levenshtein_distance(&ow, &rw);
        Rate { num: d, den: rw.len() }
    }
}

/// CER boundary law: a text compared against itself has rate zero, two
/// empty texts have rate zero, and any non-empty text against an empty
/// reference has rate exactly one.
pub proof fn lemma_cer_bounds(s: Seq<char>, t: Seq<char>)
    ensures
        cer_num(s, s) == 0,
        cer_num(Seq::<char>::empty(), Seq::<char>::empty()) == 0,
        t.len() > 0 ==> cer_num(t, Seq::<char>::empty()) == cer_den(Seq::<char>::empty()),
{
    lemma_edit_dist_identity(s);
}

/// All metrics of one comparison of an OCR text against a reference text.
#[derive(Clone, Debug, PartialEq, Eq, Structural)]
pub struct OcrMetrics {
    /// Character error rate (0 = perfect; can exceed 1).
    pub cer: Rate,
    /// Word error rate (0 = perfect; can exceed 1).
    pub wer: Rate,
    /// Character-level Levenshtein distance between the two texts.
    pub levenshtein_distance: usize,
    /// Number of characters in the reference text.
    pub reference_char_count: usize,
    /// Number of characters in the OCR text.
    pub ocr_char_count: usize,
    /// Number of whitespace-delimited words in the reference text.
    pub reference_word_count: usize,
    /// Number of whitespace-delimited words in the OCR text.
    pub ocr_word_count: usize,
    /// Whether the two texts are exactly equal.
    pub exact_match: bool,
}

impl OcrMetrics {
    pub open spec fn wf(self) -> bool {
        self.cer.wf() && self.wer.wf()
    }

    /// Every count zero, both rates exactly zero, and an exact match.
    pub open spec fn is_zero(self) -> bool {
        &&& self.cer.num == 0
        &&& self.cer.den == 1
        &&& self.wer.num == 0
        &&& self.wer.den == 1
        &&& self.levenshtein_distance == 0
        &&& self.reference_char_count == 0
        &&& self.ocr_char_count == 0
        &&& self.reference_word_count == 0
        &&& self.ocr_word_count == 0
        &&& self.exact_match
    }

    /// A metrics record with every count zero and an exact match: what
    /// comparing two empty texts yields.
    pub fn zero() -> (r: OcrMetrics)
        ensures
            r.is_zero(),
            r.wf(),
    {
        OcrMetrics {
            cer: Rate { num: 0, den: 1 },
            wer: Rate { num: 0, den: 1 },
            levenshtein_distance: 0,
            reference_char_count: 0,
            ocr_char_count: 0,
            reference_word_count: 0,
            ocr_word_count: 0,
            exact_match: true,
        }
    }

    /// The accuracy `max(0, 1 - cer)`, as an exact rational.
    pub fn accuracy(&self) -> (r: Rate)
        requires
            self.cer.wf(),
        ensures
            r.num == acc_num(self.cer.num as int, self.cer.den as int),
            r.den == acc_den(self.cer.num as int, self.cer.den as int),
            r.wf(),
    {
        if self.cer.num >= self.cer.den {
            Rate { num: 0, den: 1 }
        } else {
            Rate { num: self.cer.den - self.cer.num, den: self.cer.den }
        }
    }
}

/// Numerator of `max(0, 1 - num/den)`.
pub open spec fn acc_num(num: int, den: int) -> int {
    if num >= den {
        0
    } else {
        den - num
    }
}

/// Denominator of `max(0, 1 - num/den)`.
pub open spec fn acc_den(num: int, den: int) -> int {
    if num >= den {
        1
    } else {
        den
    }
}

impl Default for OcrMetrics {
    /// The all-zero record, as `zero` builds it.
    fn default() -> (r: Self)
        ensures
            r.is_zero(),
    {
        OcrMetrics::zero()
    }
}

/// Compares an OCR text against a reference text and derives every metric:
/// both error rates, the character distance, the character and word counts
/// of both texts, and whether they match exactly.
pub fn compare_ocr_result(ocr_text: &str, reference_text: &str) -> (m: OcrMetrics)
    ensures
        m.cer.num == cer_num(ocr_text@, reference_text@),
        m.cer.den == cer_den(reference_text@),
        m.wer.num == wer_num(ocr_text@, reference_text@),
        m.wer.den == wer_den(reference_text@),
        m.levenshtein_distance == edit_dist(ocr_text@, reference_text@),
        m.reference_char_count == reference_text@.len(),
        m.ocr_char_count == ocr_text@.len(),
        m.reference_word_count == words(reference_text@).len(),
        m.ocr_word_count == words(ocr_text@).len(),
        m.exact_match == (ocr_text@ == reference_text@),
        m.wf(),
{
    let distance = levenshtein_distance(ocr_text, reference_text);
    let oc = chars_of(ocr_text);
    let rc = chars_of(reference_text);
    let ow = split_words(ocr_text);
    let rw = split_words(reference_text);
    proof {
        assert(ow@.map_values(|w: String| w@).len() == ow@.len());
        assert(rw@.map_values(|w: String| w@).len() == rw@.len());
    }
    let cer = calculate_cer(ocr_text, reference_text);
    let wer = calculate_wer(ocr_text, reference_text);
    let exact_match = chars_eq(&oc, &rc);
    OcrMetrics {
        cer,
        wer,
        levenshtein_distance: distance,
        reference_char_count: rc.len(),
        ocr_char_count: oc.len(),
        reference_word_count: rw.len(),
        ocr_word_count: ow.len(),
        exact_match,
    }
}

/// One unit of divergence between an OCR text and a reference text.
#[derive(Debug, Clone, PartialEq, Eq)]
pub enum TextError {
    /// A character was replaced by another.
    Substitution {
        /// Position of the character in the reference text.
        position: usize,
        /// The character expected there.
        expected: char,
        /// The character found in the OCR text.
        found: char,
    },
    /// A character of the reference is missing from the OCR text.
    Deletion {
        /// Position of the missing character in the reference text.
        position: usize,
        /// The missing character.
        expected: char,
    },
    /// A character was added that the reference does not have.
    Insertion {
        /// Position of the insertion in the OCR text.
        position: usize,
        /// The spurious character.
        found: char,
    },
    /// A whole word is wrong, for word-level comparisons.
    WordError {
        /// Position of the word in the reference text.
        word_position: usize,
        /// The word expected there.
        expected: String,
        /// The word found in the OCR text.
        found: String,
    },
}

/// The position reported by `TextError::position`.
pub open spec fn text_error_position(e: TextError) -> usize {
    match e {
        TextError::Substitution { position, .. } => position,
        TextError::Deletion { position, .. } => position,
        TextError::Insertion { position, .. } => position,
        TextError::WordError { word_position, .. } => word_position,
    }
}

/// The description reported by `TextError::description`.
pub open spec fn text_error_description(e: TextError) -> Seq<char> {
    match e {
        TextError::Substitution { position, expected, found } => "Substitution: '"@ + seq![expected]
            + "' → '"@ + seq![found] + "' at position "@ + dec_str(position as int),
        TextError::Deletion { position, expected } => "Deletion: '"@ + seq![expected]
            + "' missing at position "@ + dec_str(position as int),
        TextError::Insertion { position, found } => "Insertion: '"@ + seq![found]
            + "' added at position "@ + dec_str(position as int),
        TextError::WordError { word_position, expected, found } => "Word error: '"@ + expected@
            + "' → '"@ + found@ + "' at word position "@ + dec_str(word_position as int),
    }
}

impl TextError {
    /// The position of the error: the character position for character
    /// errors, the word position for word errors.
    pub fn position(&self) -> (r: usize)
        ensures
            r == text_error_position(*self),
    {
        match self {
            TextError::Substitution { position, .. } => *position,
            TextError::Deletion { position, .. } => *position,
            TextError::Insertion { position, .. } => *position,
            TextError::WordError { word_position, .. } => *word_position,
        }
    }

    /// A one-line textual description of the error.
    pub fn description(&self) -> (r: String)
        ensures
            r@ == text_error_description(*self),
    {
        let mut s = String::new();
        match self {
            TextError::Substitution { position, expected, found } => {
                s.append("Substitution: '");
                string_push(&mut s, *expected);
                s.append("' → '");
                string_push(&mut s, *found);
                s.append("' at position ");
                append_dec(&mut s, *position as u128);
            },
            TextError::Deletion { position, expected } => {
                s.append("Deletion: '");
                string_push(&mut s, *expected);
                s.append("' missing at position ");
                append_dec(&mut s, *position as u128);
            },
            TextError::Insertion { position, found } => {
                s.append("Insertion: '");
                string_push(&mut s, *found);
                s.append("' added at position ");
                append_dec(&mut s, *position as u128);
            },
            TextError::WordError { word_position, expected, found } => {
                s.append("Word error: '");
                s.append(expected.as_str());
                s.append("' → '");
                s.append(found.as_str());
                s.append("' at word position ");
                append_dec(&mut s, *word_position as u128);
            },
        }
        proof {
            assert(s@ =~= text_error_description(*self));
        }
        s
    }
}

} // verus!
