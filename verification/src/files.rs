//! Classification of image files by their path: whether a path names one
//! of the raster formats the batch mode accepts. The extension is read
//! the way `Path::extension` reads it: within the final path component
//! (trailing separators ignored), after its last dot, and only when that
//! dot is not the component's first character — so a hidden file named
//! `.png` has no extension.

use vstd::prelude::*;
use crate::text::chars_of;

verus! {

/// ASCII lowercase folding of one character.
pub open spec fn ascii_lower(c: char) -> char {
    if 65 <= c as int <= 90 {
        ((c as int + 32) as char)
    } else {
        c
    }
}

/// The position of the last occurrence of `c` in `s`, or -1 when there
/// is none.
pub open spec fn last_index_of(s: Seq<char>, c: char) -> int
    decreases s.len(),
{
    if s.len() == 0 {
        -1
    } else if s.last() == c {
        s.len() - 1
    } else {
        last_index_of(s.drop_last(), c)
    }
}

/// `s` without its trailing path separators.
pub open spec fn strip_trailing_seps(s: Seq<char>) -> Seq<char>
    decreases s.len(),
{
    if s.len() > 0 && s.last() == '/' {
        strip_trailing_seps(s.drop_last())
    } else {
        s
    }
}

/// The final component of a path: what follows the last separator, once
/// trailing separators are dropped.
pub open spec fn file_component(s: Seq<char>) -> Seq<char> {
    let t = strip_trailing_seps(s);
    t.skip(last_index_of(t, '/') + 1)
}

/// The extension of a path, as `Path::extension` reads it: what follows
/// the last dot of the final component, provided that dot is not the
/// component's first character.
pub open spec fn path_extension(s: Seq<char>) -> Option<Seq<char>> {
    let c = file_component(s);
    let d = last_index_of(c, '.');
    if d >= 1 {
        Some(c.skip(d + 1))
    } else {
        None
    }
}

/// One of the accepted raster-image extensions, lowercase.
pub open spec fn is_image_ext(e: Seq<char>) -> bool {
    ||| e == "png"@
    ||| e == "jpg"@
    ||| e == "jpeg"@
    ||| e == "tiff"@
    ||| e == "tif"@
    ||| e == "bmp"@
    ||| e == "gif"@
}

/// Whether a path names a file with an accepted image extension: the
/// path has an extension and it case-folds to one of png, jpg, jpeg,
/// tiff, tif, bmp, gif.
pub open spec fn is_image_name(s: Seq<char>) -> bool {
    match path_extension(s) {
        Some(e) => is_image_ext(e.map_values(|c: char| ascii_lower(c))),
        None => false,
    }
}

proof fn lemma_last_index_at(s: Seq<char>, c: char, k: int)
    requires
        0 <= k < s.len(),
        s[k] == c,
        forall|i: int| k < i < s.len() ==> s[i] != c,
    ensures
        last_index_of(s, c) == k,
    decreases s.len(),
{
    if s.last() != c {
        lemma_last_index_at(s.drop_last(), c, k);
    }
}

proof fn lemma_last_index_none(s: Seq<char>, c: char)
    requires
        forall|i: int| 0 <= i < s.len() ==> s[i] != c,
    ensures
        last_index_of(s, c) == -1,
    decreases s.len(),
{
    if s.len() > 0 {
        lemma_last_index_none(s.drop_last(), c);
    }
}

proof fn lemma_strip_seps_at(s: Seq<char>, e: int)
    requires
        0 <= e <= s.len(),
        forall|x: int| e <= x < s.len() ==> s[x] == '/',
        e == 0 || s[e - 1] != '/',
    ensures
        strip_trailing_seps(s) == s.take(e),
    decreases s.len() - e,
{
    if e == s.len() {
        assert(s.take(e) =~= s);
    } else {
        let t = s.drop_last();
        assert forall|x: int| e <= x < t.len() implies t[x] == '/' by {
            assert(t[x] == s[x]);
        }
        lemma_strip_seps_at(t, e);
        assert(t.take(e) =~= s.take(e));
    }
}

/// Whether `path` names a file with one of the accepted raster-image
/// extensions (png, jpg, jpeg, tiff, tif, bmp, gif, compared without
/// regard to ASCII case). The extension is taken from the final path
/// component, so a hidden file such as `.png` does not count.
pub fn is_image_file(path: &str) -> (r: bool)
    ensures
        r == is_image_name(path@),
{
    let cv = chars_of(path);
    let n = cv.len();

    // Drop trailing separators.
    let mut end: usize = n;
    while end > 0 && cv[end - 1] == '/'
        invariant
            0 <= end <= n,
            n == path@.len(),
            cv@ == path@,
            forall|x: int| end <= x < n ==> path@[x] == '/',
        decreases end,
    {
        end = end - 1;
    }
    proof {
        lemma_strip_seps_at(path@, end as int);
    }
    let ghost t = path@.take(end as int);

    // Find the last separator of the stripped prefix.
    let mut sep: usize = end;
    let mut i: usize = end;
    while i > 0
        invariant
            0 <= i <= end <= n,
            n == path@.len(),
            cv@ == path@,
            sep == end || (i <= sep < end && path@[sep as int] == '/'),
            sep == end ==> forall|x: int| i <= x < end ==> path@[x] != '/',
            forall|x: int| sep < x < end ==> path@[x] != '/',
        decreases i,
    {
        i = i - 1;
        if cv[i] == '/' && sep == end {
            sep = i;
        }
    }
    let start: usize = if sep == end {
        0
    } else {
        sep + 1
    };
    proof {
        assert forall|x: int| 0 <= x < end implies t[x] == path@[x] by {}
        if sep == end {
            lemma_last_index_none(t, '/');
        } else {
            lemma_last_index_at(t, '/', sep as int);
        }
        assert(file_component(path@) =~= path@.subrange(start as int, end as int));
    }
    let ghost comp = file_component(path@);

    // Find the last dot of the component.
    let mut dot: usize = end;
    let mut j: usize = end;
    while j > start
        invariant
            start <= j <= end <= n,
            n == path@.len(),
            cv@ == path@,
            dot == end || (j <= dot < end && path@[dot as int] == '.'),
            dot == end ==> forall|x: int| j <= x < end ==> path@[x] != '.',
            forall|x: int| dot < x < end ==> path@[x] != '.',
        decreases j,
    {
        j = j - 1;
        if cv[j] == '.' && dot == end {
            dot = j;
        }
    }
    proof {
        assert forall|x: int| 0 <= x < end - start implies comp[x] == path@[start + x] by {}
        if dot == end {
            lemma_last_index_none(comp, '.');
        } else {
            lemma_last_index_at(comp, '.', dot - start);
        }
    }
    if dot == end || dot == start {
        return false;
    }

    // Case-fold the extension and compare.
    let ghost ext_spec = comp.skip(dot - start + 1);
    let mut ext: Vec<char> = Vec::new();
    let mut k: usize = dot + 1;
    while k < end
        invariant
            dot + 1 <= k <= end <= n,
            n == path@.len(),
            cv@ == path@,
            ext@.len() == k - dot - 1,
            forall|x: int| 0 <= x < ext@.len() ==> ext@[x] == ascii_lower(path@[dot + 1 + x]),
        decreases end - k,
    {
        let c = cv[k];
        let lc: char = if c >= 'A' && c <= 'Z' {
            (((c as u32) + 32) as u8) as char
        } else {
            c
        };
        ext.push(lc);
        k = k + 1;
    }
    proof {
        assert(ext@ =~= ext_spec.map_values(|c: char| ascii_lower(c)));
    }
    let r = ext_matches(&ext, "png") || ext_matches(&ext, "jpg") || ext_matches(&ext, "jpeg")
        || ext_matches(&ext, "tiff") || ext_matches(&ext, "tif") || ext_matches(&ext, "bmp")
        || ext_matches(&ext, "gif");
    r
}

/// Whether the characters of `ext` spell `lit`.
fn ext_matches(ext: &Vec<char>, lit: &str) -> (r: bool)
    ensures
        r == (ext@ == lit@),
{
    let lv = chars_of(lit);
    crate::text::chars_eq(ext, &lv)
}

} // verus!
