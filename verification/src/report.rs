//! The human-readable comparison report: metrics block, character and word
//! statistics, side-by-side text comparison and a qualitative summary. The
//! report's full text is pinned down by `report_str`.

use vstd::prelude::*;
use crate::distance::edit_dist;
use crate::metrics::{acc_den, acc_num, cer_den, cer_num, compare_ocr_result, wer_den, wer_num};
use crate::text::{chars_of, words};
use crate::fmt::{append_dec, append_percent, dec_str, percent_str};
use vstd::string::{StrSliceExecFns, StringExecFns};

verus! {

/// The qualitative bucket for a comparison: driven by exact match first,
/// then by strict CER thresholds of 5%, 15% and 30%.
pub open spec fn quality_str(exact: bool, cn: int, cd: int) -> Seq<char> {
    if exact {
        "Perfect (exact match)"@
    } else if 20 * cn < cd {
        "Excellent (< 5% error)"@
    } else if 20 * cn < 3 * cd {
        "Good (< 15% error)"@
    } else if 10 * cn < 3 * cd {
        "Fair (< 30% error)"@
    } else {
        "Poor (≥ 30% error)"@
    }
}

/// A text as the comparison section shows it: truncated to its first 200
/// characters, with a marker, when it is longer than that.
pub open spec fn display_text(s: Seq<char>) -> Seq<char> {
    if s.len() > 200 {
        s.take(200) + "... (truncated)"@
    } else {
        s
    }
}

/// The full diff report for `ocr` against `reference`.
pub open spec fn report_str(o: Seq<char>, r: Seq<char>) -> Seq<char> {
    let cn = cer_num(o, r) as int;
    let cd = cer_den(r) as int;
    let wn = wer_num(o, r) as int;
    let wd = wer_den(r) as int;
    "═══════════════════════════════════════════════════════════\n"@
        + "                   OCR COMPARISON REPORT\n"@
        + "═══════════════════════════════════════════════════════════\n\n"@ + "METRICS:\n"@
        + "--------\n"@ + "Character Error Rate (CER): "@ + percent_str(cn, cd) + "%\n"@
        + "Word Error Rate (WER):      "@ + percent_str(wn, wd) + "%\n"@
        + "Levenshtein Distance:       "@ + dec_str(edit_dist(o, r) as int) + "\n"@
        + "Accuracy:                   "@ + percent_str(acc_num(cn, cd), acc_den(cn, cd)) + "%\n"@
        + "\nSTATISTICS:\n"@ + "-----------\n"@ + "Reference: "@ + dec_str(r.len() as int)
        + " characters, "@ + dec_str(words(r).len() as int) + " words\n"@ + "OCR:       "@
        + dec_str(o.len() as int) + " characters, "@ + dec_str(words(o).len() as int) + " words\n"@
        + "\nCOMPARISON:\n"@ + "-----------\n"@ + "Reference: \""@ + display_text(r) + "\"\n"@
        + "OCR:       \""@ + display_text(o) + "\"\n"@ + "\nSUMMARY:\n"@ + "--------\n"@
        + "Quality: "@ + quality_str(o == r, cn, cd) + "\n"@ + "Match:   "@ + (if o == r {
        "Exact"@
    } else {
        "Not exact"@
    }) + "\n"@ + "\n═══════════════════════════════════════════════════════════\n"@
}

/// Appends `text` as the comparison section shows it: whole when it has at
/// most 200 characters, else its first 200 characters and a marker.
fn append_display(s: &mut String, text: &str)
    ensures
        final (s)@ == old(s)@ + display_text(text@),
{
    let cv = chars_of(text);
    if cv.len() > 200 {
        let head = text.substring_char(0, 200);
        s.append(head);
        s.append("... (truncated)");
        proof {
            assert(text@.subrange(0, 200) =~= text@.take(200));
        }
    } else {
        s.append(text);
    }
}

/// Renders the full comparison report for `ocr_text` against
/// `reference_text`: a metrics block (CER, WER, distance, accuracy, each
/// percentage with two decimals), character and word statistics, the two
/// texts side by side (truncated to 200 characters), and a quality summary.
pub fn generate_diff_report(ocr_text: &str, reference_text: &str) -> (r: String)
    ensures
        r@ == report_str(ocr_text@, reference_text@),
{
    let m = compare_ocr_result(ocr_text, reference_text);
    let acc = m.accuracy();

    let mut report = String::new();
    report.append("═══════════════════════════════════════════════════════════\n");
    report.append("                   OCR COMPARISON REPORT\n");
    report.append("═══════════════════════════════════════════════════════════\n\n");

    report.append("METRICS:\n");
    report.append("--------\n");
    report.append("Character Error Rate (CER): ");
    append_percent(&mut report, m.cer.num, m.cer.den);
    report.append("%\n");
    report.append("Word Error Rate (WER):      ");
    append_percent(&mut report, m.wer.num, m.wer.den);
    report.append("%\n");
    report.append("Levenshtein Distance:       ");
    append_dec(&mut report, m.levenshtein_distance as u128);
    report.append("\n");
    report.append("Accuracy:                   ");
    append_percent(&mut report, acc.num, acc.den);
    report.append("%\n");

    report.append("\nSTATISTICS:\n");
    report.append("-----------\n");
    report.append("Reference: ");
    append_dec(&mut report, m.reference_char_count as u128);
    report.append(" characters, ");
    append_dec(&mut report, m.reference_word_count as u128);
    report.append(" words\n");
    report.append("OCR:       ");
    append_dec(&mut report, m.ocr_char_count as u128);
    report.append(" characters, ");
    append_dec(&mut report, m.ocr_word_count as u128);
    report.append(" words\n");

    report.append("\nCOMPARISON:\n");
    report.append("-----------\n");
    report.append("Reference: \"");
    append_display(&mut report, reference_text);
    report.append("\"\n");
    report.append("OCR:       \"");
    append_display(&mut report, ocr_text);
    report.append("\"\n");

    report.append("\nSUMMARY:\n");
    report.append("--------\n");
    report.append("Quality: ");
    if m.exact_match {
        report.append("Perfect (exact match)");
    } else {
        let cn: u128 = m.cer.num as u128;
        let cd: u128 = m.cer.den as u128;
        if 20 * cn < cd {
            report.append("Excellent (< 5% error)");
        } else if 20 * cn < 3 * cd {
            report.append("Good (< 15% error)");
        } else if 10 * cn < 3 * cd {
            report.append("Fair (< 30% error)");
        } else {
            report.append("Poor (≥ 30% error)");
        }
    }
    report.append("\n");
    report.append("Match:   ");
    if m.exact_match {
        report.append("Exact");
    } else {
        report.append("Not exact");
    }
    report.append("\n");
    report.append("\n═══════════════════════════════════════════════════════════\n");

    proof {
        assert(report@ =~= report_str(ocr_text@, reference_text@));
    }
    report
}

} // verus!
