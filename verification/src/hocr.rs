//! The HOCR bounding-box model: rectangles for words, lines and
//! paragraphs as an OCR engine reports them in HOCR (HTML with OCR)
//! output, a line-oriented parser for that format, and a plain-text
//! report of the boxes.

use vstd::prelude::*;
use vstd::string::{StrSliceExecFns, StringExecFns};
use crate::fmt::{append_dec, dec_str};
use crate::parse::{dec_val, is_digit, is_valid_u32, is_valid_u8, num_body, parse_u32, parse_u8};
use crate::text::{chars_of, is_space, is_space_char, split_words, str_eq, words};

verus! {

/// A bounding rectangle, in pixels from the top-left corner.
#[derive(Debug, Clone, Copy, PartialEq, Eq, Structural)]
pub struct BBox {
    /// X of the top-left corner.
    pub x: u32,
    /// Y of the top-left corner.
    pub y: u32,
    /// Width of the rectangle.
    pub width: u32,
    /// Height of the rectangle.
    pub height: u32,
}

/// The box a `bbox x0 y0 x1 y1` token sequence denotes, when well formed:
/// corner coordinates become a corner plus extents, negative extents
/// saturating to zero.
pub open spec fn bbox_of(s: Seq<char>) -> Option<BBox> {
    let p = words(s);
    if p.len() == 5 && p[0] == "bbox"@ && is_valid_u32(p[1]) && is_valid_u32(p[2]) && is_valid_u32(
        p[3],
    ) && is_valid_u32(p[4]) {
        let x0 = dec_val(num_body(p[1]));
        let y0 = dec_val(num_body(p[2]));
        let x1 = dec_val(num_body(p[3]));
        let y1 = dec_val(num_body(p[4]));
        Some(
            BBox {
                x: x0 as u32,
                y: y0 as u32,
                width: (if x1 >= x0 {
                    x1 - x0
                } else {
                    0
                }) as u32,
                height: (if y1 >= y0 {
                    y1 - y0
                } else {
                    0
                }) as u32,
            },
        )
    } else {
        None
    }
}

impl BBox {
    /// A box from its corner and extents.
    pub fn new(x: u32, y: u32, width: u32, height: u32) -> (r: BBox)
        ensures
            r.x == x && r.y == y && r.width == width && r.height == height,
    {
        BBox { x, y, width, height }
    }

    /// Parses a `bbox x0 y0 x1 y1` string: four corner coordinates after
    /// the literal word `bbox`, converted to corner plus extents, with
    /// negative extents saturating to zero. Anything else is an error
    /// carrying a short message.
    pub fn from_hocr_string(bbox_str: &str) -> (r: Result<BBox, String>)
        ensures
            r is Ok <==> bbox_of(bbox_str@) is Some,
            match r {
                Ok(b) => Some(b) == bbox_of(bbox_str@),
                Err(_) => true,
            },
    {
        let parts = split_words(bbox_str);
        let ghost pv = words(bbox_str@);
        proof {
            assert(parts@.map_values(|w: String| w@).len() == parts@.len());
        }
        if parts.len() != 5 || !str_eq(parts[0].as_str(), "bbox") {
            return Err(hocr_error());
        }
        let x0 = match parse_u32(parts[1].as_str()) {
            Some(v) => v,
            None => {
                return Err(hocr_error());
            },
        };
        let y0 = match parse_u32(parts[2].as_str()) {
            Some(v) => v,
            None => {
                return Err(hocr_error());
            },
        };
        let x1 = match parse_u32(parts[3].as_str()) {
            Some(v) => v,
            None => {
                return Err(hocr_error());
            },
        };
        let y1 = match parse_u32(parts[4].as_str()) {
            Some(v) => v,
            None => {
                return Err(hocr_error());
            },
        };
        let width: u32 = if x1 >= x0 {
            x1 - x0
        } else {
            0
        };
        let height: u32 = if y1 >= y0 {
            y1 - y0
        } else {
            0
        };
        Ok(BBox { x: x0, y: y0, width, height })
    }
}

/// The message carried by malformed-input errors of this module.
fn hocr_error() -> (r: String)
    ensures
        r@ == "invalid HOCR bbox format"@,
{
    let mut e = String::new();
    e.append("invalid HOCR bbox format");
    e
}

/// A recognized word: its box, text and optional confidence.
#[derive(Debug, Clone, PartialEq, Eq)]
pub struct HocrWord {
    /// The word's bounding rectangle.
    pub bbox: BBox,
    /// The word's text.
    pub text: String,
    /// Recognition confidence in 0..=100, when reported.
    pub confidence: Option<u8>,
}

/// The mathematical view of a word: box, characters, confidence.
pub open spec fn word_view(w: HocrWord) -> (BBox, Seq<char>, Option<u8>) {
    (w.bbox, w.text@, w.confidence)
}

impl HocrWord {
    /// A word from its box, text and optional confidence.
    pub fn new(bbox: BBox, text: String, confidence: Option<u8>) -> (r: HocrWord)
        ensures
            r.bbox == bbox && r.text == text && r.confidence == confidence,
    {
        HocrWord { bbox, text, confidence }
    }
}

/// A text line: its box and its words.
#[derive(Debug, Clone, PartialEq, Eq)]
pub struct HocrLine {
    /// The line's bounding rectangle.
    pub bbox: BBox,
    /// The words of the line, in order.
    pub words: Vec<HocrWord>,
}

/// The mathematical view of a line.
pub open spec fn line_view(l: HocrLine) -> (BBox, Seq<(BBox, Seq<char>, Option<u8>)>) {
    (l.bbox, l.words@.map_values(|w: HocrWord| word_view(w)))
}

impl HocrLine {
    /// An empty line with the given box.
    pub fn new(bbox: BBox) -> (r: HocrLine)
        ensures
            r.bbox == bbox,
            r.words@.len() == 0,
    {
        HocrLine { bbox, words: Vec::new() }
    }

    /// Appends a word to the line.
    pub fn add_word(&mut self, word: HocrWord)
        ensures
            final (self).bbox == old(self).bbox,
            final (self).words@ == old(self).words@.push(word),
    {
        self.words.push(word);
    }
}

/// A paragraph: its box and its lines.
#[derive(Debug, Clone, PartialEq, Eq)]
pub struct HocrParagraph {
    /// The paragraph's bounding rectangle.
    pub bbox: BBox,
    /// The lines of the paragraph, in order.
    pub lines: Vec<HocrLine>,
}

/// The mathematical view of a paragraph.
pub open spec fn par_view(p: HocrParagraph) -> (
    BBox,
    Seq<(BBox, Seq<(BBox, Seq<char>, Option<u8>)>)>,
) {
    (p.bbox, p.lines@.map_values(|l: HocrLine| line_view(l)))
}

impl HocrParagraph {
    /// An empty paragraph with the given box.
    pub fn new(bbox: BBox) -> (r: HocrParagraph)
        ensures
            r.bbox == bbox,
            r.lines@.len() == 0,
    {
        HocrParagraph { bbox, lines: Vec::new() }
    }

    /// Appends a line to the paragraph.
    pub fn add_line(&mut self, line: HocrLine)
        ensures
            final (self).bbox == old(self).bbox,
            final (self).lines@ == old(self).lines@.push(line),
    {
        self.lines.push(line);
    }
}

/// A whole document: its paragraphs.
#[derive(Debug, Clone, PartialEq, Eq)]
pub struct HocrDocument {
    /// The paragraphs of the document, in order.
    pub paragraphs: Vec<HocrParagraph>,
}

/// The mathematical view of a document.
pub open spec fn doc_view(d: HocrDocument) -> Seq<
    (BBox, Seq<(BBox, Seq<(BBox, Seq<char>, Option<u8>)>)>),
> {
    d.paragraphs@.map_values(|p: HocrParagraph| par_view(p))
}

/// Index of the first occurrence of `pat` in `s` at or after `i`.
pub open spec fn find_from(s: Seq<char>, pat: Seq<char>, i: int) -> Option<int>
    decreases s.len() - i,
{
    if i < 0 || i + pat.len() > s.len() {
        None
    } else if pat.len() == 0 {
        Some(i)
    } else if s.subrange(i, i + pat.len()) == pat {
        Some(i)
    } else {
        find_from(s, pat, i + 1)
    }
}

/// A found occurrence lies within the haystack and spells the needle.
proof fn lemma_find_from_props(s: Seq<char>, pat: Seq<char>, i: int)
    requires
        find_from(s, pat, i) is Some,
    ensures
        i <= find_from(s, pat, i).unwrap(),
        find_from(s, pat, i).unwrap() + pat.len() <= s.len(),
        s.subrange(
            find_from(s, pat, i).unwrap(),
            find_from(s, pat, i).unwrap() + pat.len(),
        ) == pat,
    decreases s.len() - i,
{
    if !(i < 0 || i + pat.len() > s.len()) {
        if pat.len() == 0 {
            assert(s.subrange(i, i) =~= pat);
        } else if s.subrange(i, i + pat.len()) == pat {
        } else {
            lemma_find_from_props(s, pat, i + 1);
        }
    }
}

/// Whether `s` contains `pat`.
pub open spec fn contains_sub(s: Seq<char>, pat: Seq<char>) -> bool {
    find_from(s, pat, 0) is Some
}

/// First index of the needle in the haystack, by scanning.
fn find_sub(hay: &Vec<char>, pat: &Vec<char>) -> (r: Option<usize>)
    ensures
        match r {
            Some(i) => find_from(hay@, pat@, 0) == Some(i as int),
            None => find_from(hay@, pat@, 0) is None,
        },
{
    let n = hay.len();
    let m = pat.len();
    if m > n {
        proof {
            assert(find_from(hay@, pat@, 0) is None);
        }
        return None;
    }
    let mut i: usize = 0;
    while i <= n - m
        invariant
            0 <= i <= n - m + 1,
            m <= n,
            n == hay@.len(),
            m == pat@.len(),
            find_from(hay@, pat@, 0) == find_from(hay@, pat@, i as int),
        decreases n + 1 - m - i,
    {
        let mut j: usize = 0;
        let mut ok = true;
        while j < m
            invariant
                0 <= j <= m,
                i + m <= n,
                n == hay@.len(),
                m == pat@.len(),
                ok ==> forall|k: int| 0 <= k < j ==> hay@[i + k] == pat@[k],
                !ok ==> hay@.subrange(i as int, i + m) != pat@,
                !ok ==> m > 0,
            decreases m - j,
        {
            if hay[i + j] != pat[j] {
                proof {
                    assert(hay@.subrange(i as int, i + m)[j as int] != pat@[j as int]);
                }
                ok = false;
                j = m;
            } else {
                j = j + 1;
            }
        }
        if ok {
            proof {
                assert(hay@.subrange(i as int, i + m) =~= pat@);
            }
            return Some(i);
        }
        proof {
            assert(find_from(hay@, pat@, i as int) == find_from(hay@, pat@, i + 1));
        }
        i = i + 1;
    }
    proof {
        assert(find_from(hay@, pat@, i as int) is None);
    }
    None
}

/// `s` with leading whitespace removed.
pub open spec fn drop_leading(s: Seq<char>) -> Seq<char>
    decreases s.len(),
{
    if s.len() > 0 && is_space_char(s[0]) {
        drop_leading(s.drop_first())
    } else {
        s
    }
}

/// `s` with trailing whitespace removed.
pub open spec fn drop_trailing(s: Seq<char>) -> Seq<char>
    decreases s.len(),
{
    if s.len() > 0 && is_space_char(s.last()) {
        drop_trailing(s.drop_last())
    } else {
        s
    }
}

/// `s` with whitespace removed from both ends.
pub open spec fn trimmed(s: Seq<char>) -> Seq<char> {
    drop_trailing(drop_leading(s))
}

proof fn lemma_drop_leading_at(s: Seq<char>, a: int)
    requires
        0 <= a <= s.len(),
        forall|x: int| 0 <= x < a ==> is_space_char(s[x]),
        a == s.len() || !is_space_char(s[a]),
    ensures
        drop_leading(s) == s.skip(a),
    decreases a,
{
    if a == 0 {
        assert(s.skip(0) =~= s);
    } else {
        let t = s.drop_first();
        assert forall|x: int| 0 <= x < a - 1 implies is_space_char(t[x]) by {
            assert(t[x] == s[x + 1]);
        }
        if a - 1 < t.len() {
            assert(t[a - 1] == s[a]);
        }
        lemma_drop_leading_at(t, a - 1);
        assert(t.skip(a - 1) =~= s.skip(a));
    }
}

proof fn lemma_drop_trailing_at(s: Seq<char>, b: int)
    requires
        0 <= b <= s.len(),
        forall|x: int| b <= x < s.len() ==> is_space_char(s[x]),
        b == 0 || !is_space_char(s[b - 1]),
    ensures
        drop_trailing(s) == s.take(b),
    decreases s.len() - b,
{
    if b == s.len() {
        assert(s.take(b) =~= s);
    } else {
        let t = s.drop_last();
        assert forall|x: int| b <= x < t.len() implies is_space_char(t[x]) by {
            assert(t[x] == s[x]);
        }
        lemma_drop_trailing_at(t, b);
        assert(t.take(b) =~= s.take(b));
    }
}

/// Removes whitespace from both ends of a string.
fn trim_str(s: &str) -> (r: String)
    ensures
        r@ == trimmed(s@),
{
    let cv = chars_of(s);
    let n = cv.len();
    let mut a: usize = 0;
    while a < n && is_space(cv[a])
        invariant
            0 <= a <= n,
            n == s@.len(),
            cv@ == s@,
            forall|x: int| 0 <= x < a ==> is_space_char(s@[x]),
        decreases n - a,
    {
        a = a + 1;
    }
    let mut b: usize = n;
    while b > a && is_space(cv[b - 1])
        invariant
            a <= b <= n,
            n == s@.len(),
            cv@ == s@,
            forall|x: int| 0 <= x < a ==> is_space_char(s@[x]),
            a == n || !is_space_char(s@[a as int]) || a == b,
            forall|x: int| b <= x < n ==> is_space_char(s@[x]),
        decreases b,
    {
        b = b - 1;
    }
    proof {
        lemma_drop_leading_at(s@, a as int);
        if a == b {
            assert(s@.skip(a as int).take(0) =~= Seq::<char>::empty());
            lemma_drop_trailing_at(s@.skip(a as int), 0);
        } else {
            let t = s@.skip(a as int);
            assert forall|x: int| b - a <= x < t.len() implies is_space_char(t[x]) by {
                assert(t[x] == s@[a + x]);
            }
            assert(t[b - a - 1] == s@[b - 1]);
            lemma_drop_trailing_at(t, b - a);
            assert(t.take(b - a) =~= s@.subrange(a as int, b as int));
        }
    }
    let w = s.substring_char(a, b);
    w.to_owned()
}

/// The box the `title` attribute of an HOCR element line declares: the
/// `bbox` token sequence between the quotes of the first `title=`
/// attribute, up to a `;`, parsed as a box.
pub open spec fn extracted_bbox(l: Seq<char>) -> Option<BBox> {
    match find_from(l, "title="@, 0) {
        Some(ti) => {
            let rest = l.skip(ti + 6);
            if rest.len() == 0 {
                None
            } else {
                let quote = rest[0];
                match find_from(rest.skip(1), seq![quote], 0) {
                    Some(qi) => {
                        let title = rest.subrange(1, 1 + qi);
                        match find_from(title, "bbox "@, 0) {
                            Some(bi) => {
                                let bstr = title.skip(bi);
                                let bend = match find_from(bstr, seq![';'], 0) {
                                    Some(e) => e,
                                    None => bstr.len() as int,
                                };
                                bbox_of(bstr.take(bend))
                            },
                            None => None,
                        }
                    },
                    None => None,
                }
            }
        },
        None => None,
    }
}

/// Extracts the bounding box an HOCR element line declares in its
/// `title` attribute, if any.
pub fn extract_bbox(line: &str) -> (r: Option<BBox>)
    ensures
        r == extracted_bbox(line@),
{
    let cv = chars_of(line);
    proof {
        reveal_strlit("title=");
        reveal_strlit("bbox ");
    }
    let pat = chars_of("title=");
    let ti = match find_sub(&cv, &pat) {
        Some(i) => i,
        None => {
            return None;
        },
    };
    let n = cv.len();
    proof {
        lemma_find_from_props(line@, "title="@, 0);
        assert(ti + 6 <= n);
    }
    let ghost rest = line@.skip(ti + 6);
    if ti + 6 == n {
        return None;
    }
    let quote = cv[ti + 6];
    // Search for the closing quote after the opening one.
    let mut qv: Vec<char> = Vec::new();
    let mut k: usize = ti + 7;
    while k < n
        invariant
            ti + 7 <= k <= n,
            n == line@.len(),
            cv@ == line@,
            rest == line@.skip(ti + 6),
            quote == line@[ti + 6],
            qv@ == line@.subrange(ti + 7, k as int),
        decreases n - k,
    {
        qv.push(cv[k]);
        proof {
            assert(qv@ =~= line@.subrange(ti + 7, k + 1));
        }
        k = k + 1;
    }
    proof {
        assert(qv@ =~= rest.skip(1));
    }
    let mut quote_pat: Vec<char> = Vec::new();
    quote_pat.push(quote);
    proof {
        assert(quote_pat@ =~= seq![rest[0]]);
    }
    let qi = match find_sub(&qv, &quote_pat) {
        Some(i) => i,
        None => {
            return None;
        },
    };
    proof {
        lemma_find_from_props(qv@, quote_pat@, 0);
    }
    let title = line.substring_char(ti + 7, ti + 7 + qi);
    proof {
        assert(line@.subrange(ti + 7, ti + 7 + qi) =~= rest.subrange(1, 1 + qi as int));
    }
    let tv = chars_of(title);
    let bpat = chars_of("bbox ");
    let bi = match find_sub(&tv, &bpat) {
        Some(i) => i,
        None => {
            return None;
        },
    };
    proof {
        lemma_find_from_props(tv@, bpat@, 0);
    }
    let bstr = title.substring_char(bi, tv.len());
    proof {
        assert(title@.subrange(bi as int, title@.len() as int) =~= title@.skip(bi as int));
    }
    let bv = chars_of(bstr);
    let mut semi_pat: Vec<char> = Vec::new();
    semi_pat.push(';');
    proof {
        assert(semi_pat@ =~= seq![';']);
    }
    let bend = match find_sub(&bv, &semi_pat) {
        Some(e) => e,
        None => bv.len(),
    };
    proof {
        if find_from(bv@, semi_pat@, 0) is Some {
            lemma_find_from_props(bv@, semi_pat@, 0);
        }
    }
    let bvals = bstr.substring_char(0, bend);
    proof {
        assert(bstr@.subrange(0, bend as int) =~= bstr@.take(bend as int));
    }
    match BBox::from_hocr_string(bvals) {
        Ok(b) => Some(b),
        Err(_) => None,
    }
}

/// The word text an HOCR word line carries: what stands between the
/// first `>` and the first `</span>`, trimmed, provided the `>` comes
/// first.
pub open spec fn extracted_text(l: Seq<char>) -> Option<Seq<char>> {
    match find_from(l, seq!['>'], 0) {
        Some(gi) => match find_from(l, "</span>"@, 0) {
            Some(ei) => {
                if gi + 1 < ei {
                    Some(trimmed(l.subrange(gi + 1, ei)))
                } else {
                    None
                }
            },
            None => None,
        },
        None => None,
    }
}

/// Extracts the text of an HOCR word element, if any.
pub fn extract_word_text(line: &str) -> (r: Option<String>)
    ensures
        match r {
            Some(t) => extracted_text(line@) == Some(t@),
            None => extracted_text(line@) is None,
        },
{
    let cv = chars_of(line);
    let mut gt_pat: Vec<char> = Vec::new();
    gt_pat.push('>');
    proof {
        assert(gt_pat@ =~= seq!['>']);
    }
    let gi = match find_sub(&cv, &gt_pat) {
        Some(i) => i,
        None => {
            return None;
        },
    };
    let n = cv.len();
    proof {
        lemma_find_from_props(line@, gt_pat@, 0);
        reveal_strlit("</span>");
    }
    let end_pat = chars_of("</span>");
    let ei = match find_sub(&cv, &end_pat) {
        Some(i) => i,
        None => {
            return None;
        },
    };
    proof {
        lemma_find_from_props(line@, "</span>"@, 0);
    }
    if gi + 1 < ei {
        let sub = line.substring_char(gi + 1, ei);
        proof {
            assert(line@.subrange(gi + 1, ei as int) == line@.subrange(gi + 1, ei as int));
        }
        Some(trim_str(sub))
    } else {
        None
    }
}

/// The length of the leading digit run of `s`.
pub open spec fn digits_len(s: Seq<char>) -> nat
    decreases s.len(),
{
    if s.len() > 0 && is_digit(s[0]) {
        1 + digits_len(s.drop_first())
    } else {
        0
    }
}

proof fn lemma_digits_len_at(s: Seq<char>, k: int)
    requires
        0 <= k <= s.len(),
        forall|x: int| 0 <= x < k ==> is_digit(s[x]),
        k == s.len() || !is_digit(s[k]),
    ensures
        digits_len(s) == k,
    decreases k,
{
    if k == 0 {
    } else {
        let t = s.drop_first();
        assert forall|x: int| 0 <= x < k - 1 implies is_digit(t[x]) by {
            assert(t[x] == s[x + 1]);
        }
        if k - 1 < t.len() {
            assert(t[k - 1] == s[k]);
        }
        lemma_digits_len_at(t, k - 1);
    }
}

/// The confidence value an HOCR word line carries: the digit run after
/// the first `x_wconf `, when it parses as a value in 0..=255.
pub open spec fn extracted_confidence(l: Seq<char>) -> Option<u8> {
    match find_from(l, "x_wconf "@, 0) {
        Some(ci) => {
            let rest = l.skip(ci + 8);
            let ds = rest.take(digits_len(rest) as int);
            if is_valid_u8(ds) {
                Some(dec_val(num_body(ds)) as u8)
            } else {
                None
            }
        },
        None => None,
    }
}

/// Extracts the confidence of an HOCR word element, if any.
pub fn extract_confidence(line: &str) -> (r: Option<u8>)
    ensures
        r == extracted_confidence(line@),
{
    let cv = chars_of(line);
    proof {
        reveal_strlit("x_wconf ");
    }
    let pat = chars_of("x_wconf ");
    let ci = match find_sub(&cv, &pat) {
        Some(i) => i,
        None => {
            return None;
        },
    };
    let n = cv.len();
    proof {
        lemma_find_from_props(line@, "x_wconf "@, 0);
    }
    let ghost rest = line@.skip(ci + 8);
    let mut j: usize = ci + 8;
    while j < n && cv[j] >= '0' && cv[j] <= '9'
        invariant
            ci + 8 <= j <= n,
            n == line@.len(),
            cv@ == line@,
            rest == line@.skip(ci + 8),
            forall|x: int| 0 <= x < j - ci - 8 ==> is_digit(#[trigger] rest[x]),
        decreases n - j,
    {
        proof {
            assert(rest[j - ci - 8] == line@[j as int]);
        }
        j = j + 1;
    }
    proof {
        if j < n {
            assert(rest[j - ci - 8] == line@[j as int]);
            assert(!is_digit(rest[j - ci - 8]));
        }
        lemma_digits_len_at(rest, j - ci - 8);
    }
    let ds = line.substring_char(ci + 8, j);
    proof {
        assert(line@.subrange(ci + 8, j as int) =~= rest.take(j - ci - 8));
    }
    parse_u8(ds)
}

} // verus!

verus! {

/// The view of a word: box, characters, confidence.
pub type WordView = (BBox, Seq<char>, Option<u8>);

/// The view of a line: box and word views.
pub type LineView = (BBox, Seq<(BBox, Seq<char>, Option<u8>)>);

/// The view of a paragraph: box and line views.
pub type ParView = (BBox, Seq<(BBox, Seq<(BBox, Seq<char>, Option<u8>)>)>);

/// The parser's running state: finished paragraphs, the open paragraph,
/// the open line.
pub type ParseState = (Seq<ParView>, Option<ParView>, Option<LineView>);

/// `l` with one trailing carriage return removed.
pub open spec fn strip_cr(l: Seq<char>) -> Seq<char> {
    if l.len() > 0 && l.last() == '\r' {
        l.drop_last()
    } else {
        l
    }
}

/// The lines of `s`: split at newlines, each with a trailing carriage
/// return removed, without a final empty line after a trailing newline.
pub open spec fn lines_of(s: Seq<char>) -> Seq<Seq<char>>
    decreases s.len(),
    via lines_of_decreases
{
    if s.len() == 0 {
        Seq::empty()
    } else {
        match find_from(s, seq!['\n'], 0) {
            Some(j) => seq![strip_cr(s.take(j))] + lines_of(s.skip(j + 1)),
            None => seq![strip_cr(s)],
        }
    }
}

#[via_fn]
proof fn lines_of_decreases(s: Seq<char>) {
    if s.len() != 0 && find_from(s, seq!['\n'], 0) is Some {
        lemma_find_from_props(s, seq!['\n'], 0);
    }
}

/// Closes the open line into the open paragraph: the line is always
/// consumed, and lands in the paragraph only when one is open.
pub open spec fn flush_line(par: Option<ParView>, line: Option<LineView>) -> Option<ParView> {
    match line {
        Some(lv) => match par {
            Some(pv) => Some((pv.0, pv.1.push(lv))),
            None => None,
        },
        None => par,
    }
}

/// One step of the line-oriented parse: paragraph openers close the
/// previous paragraph, line openers close the previous line into the open
/// paragraph, word elements append to the open line, and everything else
/// is ignored.
pub open spec fn parse_line_step(st: ParseState, l: Seq<char>) -> ParseState {
    let t = trimmed(l);
    if contains_sub(t, "class='ocr_par'"@) || contains_sub(t, "class=\"ocr_par\""@) {
        let done = if st.1 is Some {
            st.0.push(st.1.unwrap())
        } else {
            st.0
        };
        match extracted_bbox(t) {
            Some(b) => (done, Some((b, Seq::empty())), st.2),
            None => (done, None, st.2),
        }
    } else if contains_sub(t, "class='ocr_line'"@) || contains_sub(t, "class=\"ocr_line\""@) {
        let par2 = flush_line(st.1, st.2);
        match extracted_bbox(t) {
            Some(b) => (st.0, par2, Some((b, Seq::empty()))),
            None => (st.0, par2, None),
        }
    } else if (contains_sub(t, "class='ocrx_word'"@) || contains_sub(t, "class=\"ocrx_word\""@))
        && extracted_bbox(t) is Some && extracted_text(t) is Some {
        let wv = (extracted_bbox(t).unwrap(), extracted_text(t).unwrap(), extracted_confidence(t));
        match st.2 {
            Some(lv) => (st.0, st.1, Some((lv.0, lv.1.push(wv)))),
            None => st,
        }
    } else {
        st
    }
}

/// The parser state after the first `n` lines.
pub open spec fn parse_upto(ls: Seq<Seq<char>>, n: int) -> ParseState
    decreases n,
{
    if n <= 0 {
        (Seq::<ParView>::empty(), None, None)
    } else {
        parse_line_step(parse_upto(ls, n - 1), ls[n - 1])
    }
}

/// The document an HOCR text denotes: every line parsed in order, then
/// the open line and paragraph closed.
pub open spec fn hocr_doc_of(s: Seq<char>) -> Seq<ParView> {
    let ls = lines_of(s);
    let st = parse_upto(ls, ls.len() as int);
    match flush_line(st.1, st.2) {
        Some(pv) => st.0.push(pv),
        None => st.0,
    }
}

/// Splits a text into its lines, as `lines_of` describes them.
fn split_lines(s: &str) -> (r: Vec<String>)
    ensures
        r@.map_values(|l: String| l@) == lines_of(s@),
{
    let cv = chars_of(s);
    let n = cv.len();
    let mut r: Vec<String> = Vec::new();
    let mut i: usize = 0;
    proof {
        assert(s@.skip(0) =~= s@);
    }
    while i < n
        invariant
            0 <= i <= n,
            n == s@.len(),
            cv@ == s@,
            r@.map_values(|l: String| l@) + lines_of(s@.skip(i as int)) == lines_of(s@),
        decreases n - i,
    {
        let ghost suffix = s@.skip(i as int);
        let mut j: usize = i;
        while j < n && cv[j] != '\n'
            invariant
                i <= j <= n,
                n == s@.len(),
                cv@ == s@,
                forall|x: int| i <= x < j ==> s@[x] != '\n',
            decreases n - j,
        {
            j = j + 1;
        }
        proof {
            assert forall|x: int| 0 <= x < j - i implies suffix[x] != '\n' by {
                assert(suffix[x] == s@[i + x]);
            }
            if j < n {
                assert(suffix[j - i] == s@[j as int]);
            }
            lemma_find_char_from(suffix, '\n', 0, j - i);
        }
        let end: usize = if j > i && cv[j - 1] == '\r' {
            j - 1
        } else {
            j
        };
        let line = s.substring_char(i, end);
        let ls = line.to_owned();
        let ghost r0 = r@;
        r.push(ls);
        proof {
            assert(s@.subrange(i as int, end as int) =~= suffix.take(j - i).take(end - i));
            if j > i && s@[j - 1] == '\r' {
                assert(suffix.take(j - i).last() == s@[j - 1]);
                assert(suffix.take(j - i).drop_last() =~= suffix.take(j - i).take(end - i));
            }
            assert(ls@ == strip_cr(suffix.take(j - i)));
            if j < n {
                assert(suffix.skip(j - i + 1) =~= s@.skip(j + 1));
                assert(lines_of(suffix) == seq![ls@] + lines_of(s@.skip(j + 1)));
            } else {
                assert(suffix.take(j - i) =~= suffix);
                lemma_find_char_from(suffix, '\n', 0, j - i);
                assert(lines_of(suffix) =~= seq![ls@]);
                assert(s@.skip(n as int) =~= Seq::<char>::empty());
            }
            assert(r@.map_values(|l: String| l@) =~= r0.map_values(|l: String| l@) + seq![ls@]);
        }
        i = if j < n {
            j + 1
        } else {
            n
        };
    }
    proof {
        assert(s@.skip(n as int) =~= Seq::<char>::empty());
        assert(r@.map_values(|l: String| l@) =~= lines_of(s@));
    }
    r
}

/// The first occurrence of a single character after scanning to `k`.
proof fn lemma_find_char_from(s: Seq<char>, c: char, i: int, k: int)
    requires
        0 <= i <= k <= s.len(),
        forall|x: int| i <= x < k ==> s[x] != c,
        k == s.len() || s[k] == c,
    ensures
        find_from(s, seq![c], i) == if k == s.len() {
            Option::<int>::None
        } else {
            Option::<int>::Some(k)
        },
    decreases k - i,
{
    if i == k {
        if k < s.len() {
            assert(s.subrange(k, k + 1) =~= seq![c]);
        }
    } else {
        assert(s.subrange(i, i + 1)[0] == s[i]);
        assert(s.subrange(i, i + 1) != seq![c]);
        lemma_find_char_from(s, c, i + 1, k);
    }
}

impl HocrDocument {
    /// An empty document.
    pub fn new() -> (r: HocrDocument)
        ensures
            r.paragraphs@.len() == 0,
    {
        HocrDocument { paragraphs: Vec::new() }
    }

    /// Appends a paragraph to the document.
    pub fn add_paragraph(&mut self, paragraph: HocrParagraph)
        ensures
            final (self).paragraphs@ == old(self).paragraphs@.push(paragraph),
    {
        self.paragraphs.push(paragraph);
    }

    /// Parses HOCR output line by line: paragraph, line and word elements
    /// are recognized by their class markers, their boxes extracted from
    /// their `title` attributes, and nested into a document. Unrecognized
    /// lines are ignored; the parse itself never fails.
    pub fn from_hocr_string(hocr_content: &str) -> (r: Result<HocrDocument, String>)
        ensures
            r is Ok,
            match r {
                Ok(d) => doc_view(d) == hocr_doc_of(hocr_content@),
                Err(_) => false,
            },
    {
        let ghost lsv = lines_of(hocr_content@);
        let all_lines = split_lines(hocr_content);
        let mut doc = HocrDocument::new();
        let mut cur_par: Option<HocrParagraph> = None;
        let mut cur_line: Option<HocrLine> = None;
        let m = all_lines.len();
        proof {
            assert(all_lines@.map_values(|l: String| l@).len() == all_lines@.len());
            assert(doc_view(doc) =~= Seq::<ParView>::empty());
        }
        let mut idx: usize = 0;
        while idx < m
            invariant
                0 <= idx <= m,
                m == lsv.len(),
                lsv == lines_of(hocr_content@),
                all_lines@.map_values(|l: String| l@) == lsv,
                ({
                    let st = parse_upto(lsv, idx as int);
                    &&& doc_view(doc) == st.0
                    &&& (match cur_par {
                        Some(p) => st.1 == Some(par_view(p)),
                        None => st.1 is None,
                    })
                    &&& (match cur_line {
                        Some(l) => st.2 == Some(line_view(l)),
                        None => st.2 is None,
                    })
                }),
            decreases m - idx,
        {
            let ghost st0 = parse_upto(lsv, idx as int);
            let ghost lraw = lsv[idx as int];
            let t = trim_str(all_lines[idx].as_str());
            let tv = chars_of(t.as_str());
            let p1 = chars_of("class='ocr_par'");
            let p2 = chars_of("class=\"ocr_par\"");
            let l1 = chars_of("class='ocr_line'");
            let l2 = chars_of("class=\"ocr_line\"");
            let w1 = chars_of("class='ocrx_word'");
            let w2 = chars_of("class=\"ocrx_word\"");
            if find_sub(&tv, &p1).is_some() || find_sub(&tv, &p2).is_some() {
                let prev = cur_par;
                cur_par = None;
                match prev {
                    Some(p) => {
                        let ghost d0 = doc.paragraphs@;
                        doc.add_paragraph(p);
                        proof {
                            assert(doc_view(doc) =~= d0.map_values(
                                |q: HocrParagraph| par_view(q),
                            ).push(par_view(p)));
                        }
                    },
                    None => {},
                }
                match extract_bbox(t.as_str()) {
                    Some(b) => {
                        cur_par = Some(HocrParagraph::new(b));
                        proof {
                            assert(par_view(cur_par.unwrap()) =~= (
                                b,
                                Seq::<LineView>::empty(),
                            ));
                        }
                    },
                    None => {},
                }
            } else if find_sub(&tv, &l1).is_some() || find_sub(&tv, &l2).is_some() {
                let prev_line = cur_line;
                cur_line = None;
                let taken_par = cur_par;
                cur_par = match (taken_par, prev_line) {
                    (Some(p), Some(l)) => {
                        let mut p2m = p;
                        let ghost lv0 = p2m.lines@;
                        p2m.add_line(l);
                        proof {
                            assert(par_view(p2m).1 =~= lv0.map_values(
                                |q: HocrLine| line_view(q),
                            ).push(line_view(l)));
                        }
                        Some(p2m)
                    },
                    (Some(p), None) => Some(p),
                    (None, _) => None,
                };
                match extract_bbox(t.as_str()) {
                    Some(b) => {
                        cur_line = Some(HocrLine::new(b));
                        proof {
                            assert(line_view(cur_line.unwrap()) =~= (
                                b,
                                Seq::<WordView>::empty(),
                            ));
                        }
                    },
                    None => {},
                }
            } else if find_sub(&tv, &w1).is_some() || find_sub(&tv, &w2).is_some() {
                match extract_bbox(t.as_str()) {
                    Some(b) => {
                        match extract_word_text(t.as_str()) {
                            Some(txt) => {
                                let conf = extract_confidence(t.as_str());
                                let word = HocrWord::new(b, txt, conf);
                                let taken = cur_line;
                                cur_line = match taken {
                                    Some(l) => {
                                        let mut l2m = l;
                                        let ghost wv0 = l2m.words@;
                                        l2m.add_word(word);
                                        proof {
                                            assert(line_view(l2m).1 =~= wv0.map_values(
                                                |q: HocrWord| word_view(q),
                                            ).push(word_view(word)));
                                        }
                                        Some(l2m)
                                    },
                                    None => None,
                                };
                            },
                            None => {},
                        }
                    },
                    None => {},
                }
            }
            idx = idx + 1;
        }
        let prev_line = cur_line;
        let taken_par = cur_par;
        let closed: Option<HocrParagraph> = match (taken_par, prev_line) {
            (Some(p), Some(l)) => {
                let mut p2m = p;
                let ghost lv0 = p2m.lines@;
                p2m.add_line(l);
                proof {
                    assert(par_view(p2m).1 =~= lv0.map_values(
                        |q: HocrLine| line_view(q),
                    ).push(line_view(l)));
                }
                Some(p2m)
            },
            (Some(p), None) => Some(p),
            (None, _) => None,
        };
        match closed {
            Some(p) => {
                let ghost d0 = doc.paragraphs@;
                doc.add_paragraph(p);
                proof {
                    assert(doc_view(doc) =~= d0.map_values(|q: HocrParagraph| par_view(q)).push(
                        par_view(p),
                    ));
                }
            },
            None => {},
        }
        Ok(doc)
    }
}

impl Default for HocrDocument {
    /// The empty document, as `new` builds it.
    fn default() -> (r: Self)
        ensures
            r.paragraphs@.len() == 0,
    {
        HocrDocument::new()
    }
}

} // verus!

verus! {

/// The rendering of a box in the report: `bbox(x, y, width, height)`.
pub open spec fn bbox_str(b: BBox) -> Seq<char> {
    "bbox("@ + dec_str(b.x as int) + ", "@ + dec_str(b.y as int) + ", "@ + dec_str(b.width as int)
        + ", "@ + dec_str(b.height as int) + ")"@
}

/// The optional confidence suffix of a word entry.
pub open spec fn conf_str(c: Option<u8>) -> Seq<char> {
    match c {
        Some(v) => " [confiance: "@ + dec_str(v as int) + "%]"@,
        None => Seq::<char>::empty(),
    }
}

/// One word entry, numbered from 1.
pub open spec fn word_str(i: int, w: WordView) -> Seq<char> {
    "    Mot #"@ + dec_str(i) + ": \""@ + w.1 + "\" "@ + bbox_str(w.0) + conf_str(w.2) + "\n"@
}

/// The first `n` word entries of a line.
pub open spec fn words_block(ws: Seq<WordView>, n: int) -> Seq<char>
    decreases n,
{
    if n <= 0 {
        Seq::empty()
    } else {
        words_block(ws, n - 1) + word_str(n, ws[n - 1])
    }
}

/// One line entry with its words, numbered from 1.
pub open spec fn line_str(i: int, l: LineView) -> Seq<char> {
    "  Ligne #"@ + dec_str(i) + ": "@ + bbox_str(l.0) + "\n"@ + words_block(l.1, l.1.len() as int)
}

/// The first `n` line entries of a paragraph.
pub open spec fn lines_block(ls: Seq<LineView>, n: int) -> Seq<char>
    decreases n,
{
    if n <= 0 {
        Seq::empty()
    } else {
        lines_block(ls, n - 1) + line_str(n, ls[n - 1])
    }
}

/// One paragraph entry with its lines, numbered from 1.
pub open spec fn par_str(i: int, p: ParView) -> Seq<char> {
    "Paragraphe #"@ + dec_str(i) + ": "@ + bbox_str(p.0) + "\n"@ + lines_block(
        p.1,
        p.1.len() as int,
    ) + "\n"@
}

/// The first `n` paragraph entries of a document.
pub open spec fn pars_block(ps: Seq<ParView>, n: int) -> Seq<char>
    decreases n,
{
    if n <= 0 {
        Seq::empty()
    } else {
        pars_block(ps, n - 1) + par_str(n, ps[n - 1])
    }
}

/// The whole report of a document view.
pub open spec fn hocr_report(ps: Seq<ParView>) -> Seq<char> {
    "=== RAPPORT HOCR - BOUNDING BOXES ===\n\n"@ + pars_block(ps, ps.len() as int)
}

/// Appends the rendering of a box.
fn append_bbox(s: &mut String, b: &BBox)
    ensures
        final (s)@ == old(s)@ + bbox_str(*b),
{
    s.append("bbox(");
    append_dec(s, b.x as u128);
    s.append(", ");
    append_dec(s, b.y as u128);
    s.append(", ");
    append_dec(s, b.width as u128);
    s.append(", ");
    append_dec(s, b.height as u128);
    s.append(")");
    proof {
        assert(s@ =~= old(s)@ + bbox_str(*b));
    }
}

impl HocrDocument {
    /// Renders a plain-text report listing every paragraph, line and word
    /// with its bounding box, numbered from 1, with recognition
    /// confidences where present.
    #[verifier::rlimit(100)]
    pub fn generate_report(&self) -> (r: String)
        ensures
            r@ == hocr_report(doc_view(*self)),
    {
        let ghost dv = doc_view(*self);
        let mut report = String::new();
        report.append("=== RAPPORT HOCR - BOUNDING BOXES ===\n\n");
        let np = self.paragraphs.len();
        proof {
            assert(dv.len() == np);
        }
        let mut pi: usize = 0;
        while pi < np
            invariant
                0 <= pi <= np,
                np == self.paragraphs@.len(),
                dv == doc_view(*self),
                dv.len() == np,
                report@ == "=== RAPPORT HOCR - BOUNDING BOXES ===\n\n"@ + pars_block(
                    dv,
                    pi as int,
                ),
            decreases np - pi,
        {
            let ghost rep0 = report@;
            let para = &self.paragraphs[pi];
            let ghost pv = par_view(self.paragraphs@[pi as int]);
            report.append("Paragraphe #");
            append_dec(&mut report, (pi + 1) as u128);
            report.append(": ");
            append_bbox(&mut report, &para.bbox);
            report.append("\n");
            let nl = para.lines.len();
            proof {
                assert(pv.1.len() == nl);
            }
            let mut li: usize = 0;
            while li < nl
                invariant
                    0 <= li <= nl,
                    nl == para.lines@.len(),
                    para == &self.paragraphs@[pi as int],
                    pi < np,
                    np == self.paragraphs@.len(),
                    pv == par_view(self.paragraphs@[pi as int]),
                    pv.1.len() == nl,
                    report@ == rep0 + "Paragraphe #"@ + dec_str(pi + 1) + ": "@ + bbox_str(
                        para.bbox,
                    ) + "\n"@ + lines_block(pv.1, li as int),
                decreases nl - li,
            {
                let ghost repl0 = report@;
                let line = &para.lines[li];
                let ghost lv = line_view(para.lines@[li as int]);
                report.append("  Ligne #");
                append_dec(&mut report, (li + 1) as u128);
                report.append(": ");
                append_bbox(&mut report, &line.bbox);
                report.append("\n");
                let nw = line.words.len();
                proof {
                    assert(lv.1.len() == nw);
                }
                let mut wi: usize = 0;
                while wi < nw
                    invariant
                        0 <= wi <= nw,
                        nw == line.words@.len(),
                        line == &self.paragraphs@[pi as int].lines@[li as int],
                        li < nl,
                        nl == para.lines@.len(),
                        para == &self.paragraphs@[pi as int],
                        pi < np,
                        np == self.paragraphs@.len(),
                        lv == line_view(self.paragraphs@[pi as int].lines@[li as int]),
                        lv.1.len() == nw,
                        report@ == repl0 + "  Ligne #"@ + dec_str(li + 1) + ": "@ + bbox_str(
                            line.bbox,
                        ) + "\n"@ + words_block(lv.1, wi as int),
                    decreases nw - wi,
                {
                    let word = &line.words[wi];
                    let ghost wv = word_view(line.words@[wi as int]);
                    report.append("    Mot #");
                    append_dec(&mut report, (wi + 1) as u128);
                    report.append(": \"");
                    report.append(word.text.as_str());
                    report.append("\" ");
                    append_bbox(&mut report, &word.bbox);
                    match word.confidence {
                        Some(c) => {
                            report.append(" [confiance: ");
                            append_dec(&mut report, c as u128);
                            report.append("%]");
                        },
                        None => {},
                    }
                    report.append("\n");
                    proof {
                        assert(report@ =~= repl0 + "  Ligne #"@ + dec_str(li + 1) + ": "@
                            + bbox_str(line.bbox) + "\n"@ + words_block(lv.1, wi + 1));
                    }
                    wi = wi + 1;
                }
                proof {
                    assert(report@ =~= rep0 + "Paragraphe #"@ + dec_str(pi + 1) + ": "@
                        + bbox_str(para.bbox) + "\n"@ + lines_block(pv.1, li + 1));
                }
                li = li + 1;
            }
            report.append("\n");
            proof {
                assert(report@ =~= "=== RAPPORT HOCR - BOUNDING BOXES ===\n\n"@ + pars_block(
                    dv,
                    pi + 1,
                ));
            }
            pi = pi + 1;
        }
        report
    }
}

} // verus!
