use crate::naming::{ext_of, extension};
use vstd::prelude::*;
use vstd::string::*;

verus! {

/// `c` is the lowercase letter `l`, or its uppercase form, or equal to `l`.
pub open spec fn same_letter(c: char, l: char) -> bool {
    c == l || ('a' <= l && l <= 'z' && c as u32 + 32 == l as u32)
}

/// `x` equals the lowercase word `w` up to ASCII case.
pub open spec fn same_word(x: Seq<char>, w: Seq<char>) -> bool {
    x.len() == w.len() && forall|i: int| 0 <= i < x.len() ==> same_letter(#[trigger] x[i], w[i])
}

/// Extensions of the image files that a chapter's pages are taken from.
pub open spec fn common_exts() -> Seq<Seq<char>> {
    seq![
        seq!['j', 'p', 'g'],
        seq!['j', 'p', 'e', 'g'],
        seq!['p', 'n', 'g'],
        seq!['w', 'e', 'b', 'p'],
        seq!['g', 'i', 'f'],
        seq!['b', 'm', 'p'],
    ]
}

/// Further extensions accepted when extended formats are asked for.
pub open spec fn extra_exts() -> Seq<Seq<char>> {
    seq![
        seq!['t', 'i', 'f'],
        seq!['t', 'i', 'f', 'f'],
        seq!['i', 'c', 'o'],
        seq!['t', 'g', 'a'],
        seq!['p', 'n', 'm'],
        seq!['d', 'd', 's'],
        seq!['h', 'd', 'r'],
    ]
}

/// The allow-list in use.
pub open spec fn image_exts(extended: bool) -> Seq<Seq<char>> {
    if extended {
        common_exts() + extra_exts()
    } else {
        common_exts()
    }
}

/// Whether the file `name` is a page image under the allow-list in use.
pub open spec fn is_image_file(name: Seq<char>, extended: bool) -> bool {
    exists|k: int| 0 <= k < image_exts(extended).len() && same_word(ext_of(name), #[trigger] image_exts(extended)[k])
}

fn same_word_exec(x: &str, w: &str) -> (r: bool)
    ensures
        r == same_word(x@, w@),
{
    let n = x.unicode_len();
    if n != w.unicode_len() {
        return false;
    }
    let mut i: usize = 0;
    while i < n
        invariant
            n == x@.len() == w@.len(),
            i <= n,
            forall|k: int| 0 <= k < i ==> same_letter(#[trigger] x@[k], w@[k]),
        decreases n - i,
    {
        let c = x.get_char(i);
        let l = w.get_char(i);
        if !(c == l || ('a' <= l && l <= 'z' && c as u32 + 32 == l as u32)) {
            return false;
        }
        i = i + 1;
    }
    true
}

/// Whether the file `name` is a page image: its extension, in any ASCII
/// case, is on the common list, or, when `extended` is set, on the longer one.
pub fn has_image_ext(name: &str, extended: bool) -> (r: bool)
    ensures
        r == is_image_file(name@, extended),
{
    let e = extension(name);
    let e = e.as_str();
    proof {
        reveal_strlit("jpg");
        reveal_strlit("jpeg");
        reveal_strlit("png");
        reveal_strlit("webp");
        reveal_strlit("gif");
        reveal_strlit("bmp");
        reveal_strlit("tif");
        reveal_strlit("tiff");
        reveal_strlit("ico");
        reveal_strlit("tga");
        reveal_strlit("pnm");
        reveal_strlit("dds");
        reveal_strlit("hdr");
    }
    let common = same_word_exec(e, "jpg") || same_word_exec(e, "jpeg") || same_word_exec(e, "png")
        || same_word_exec(e, "webp") || same_word_exec(e, "gif") || same_word_exec(e, "bmp");
    let extra = same_word_exec(e, "tif") || same_word_exec(e, "tiff") || same_word_exec(e, "ico")
        || same_word_exec(e, "tga") || same_word_exec(e, "pnm") || same_word_exec(e, "dds")
        || same_word_exec(e, "hdr");
    let r = common || (extended && extra);
    proof {
        let ex = ext_of(name@);
        let l = image_exts(extended);
        if r {
            if same_word(ex, common_exts()[0]) { assert(same_word(ex, l[0])); }
            else if same_word(ex, common_exts()[1]) { assert(same_word(ex, l[1])); }
            else if same_word(ex, common_exts()[2]) { assert(same_word(ex, l[2])); }
            else if same_word(ex, common_exts()[3]) { assert(same_word(ex, l[3])); }
            else if same_word(ex, common_exts()[4]) { assert(same_word(ex, l[4])); }
            else if same_word(ex, common_exts()[5]) { assert(same_word(ex, l[5])); }
            else if same_word(ex, extra_exts()[0]) { assert(same_word(ex, l[6])); }
            else if same_word(ex, extra_exts()[1]) { assert(same_word(ex, l[7])); }
            else if same_word(ex, extra_exts()[2]) { assert(same_word(ex, l[8])); }
            else if same_word(ex, extra_exts()[3]) { assert(same_word(ex, l[9])); }
            else if same_word(ex, extra_exts()[4]) { assert(same_word(ex, l[10])); }
            else if same_word(ex, extra_exts()[5]) { assert(same_word(ex, l[11])); }
            else { assert(same_word(ex, l[12])); }
        } else {
            assert forall|k: int| 0 <= k < l.len() implies !same_word(ex, #[trigger] l[k]) by {
                if extended && k >= 6 {
                    assert(l[k] == extra_exts()[k - 6]);
                }
            }
        }
    }
    r
}

/// Whether a page must be transcoded to WebP: transcoding is asked for and
/// the file is not WebP already (a WebP file is copied as it is).
pub fn needs_transcode(compress_webp: bool, name: &str) -> (r: bool)
    ensures
        r == (compress_webp && !same_word(ext_of(name@), seq!['w', 'e', 'b', 'p'])),
{
    if !compress_webp {
        return false;
    }
    let e = extension(name);
    proof {
        reveal_strlit("webp");
    }
    !same_word_exec(e.as_str(), "webp")
}

} // verus!
