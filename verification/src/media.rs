//! Which files are images and videos, and the content type of a file.

use vstd::prelude::*;
use vstd::utf8::is_ascii_chars;
use crate::number::ascii_lower;
use crate::path::{extension, joined, law_extension, path_extension};
use crate::text::{chars_of, find_last, last_of, lemma_last, occurs_at, same_text, slice_text};

verus! {

/// What `str::to_lowercase` makes of a text.
pub uninterp spec fn lowercase(s: Seq<char>) -> Seq<char>;

/// A text of ASCII characters in lower case.
pub open spec fn ascii_lowered(s: Seq<char>) -> Seq<char> {
    s.map_values(|c: char| ascii_lower(c))
}

/// `str::to_lowercase` depends on the text alone. Of a text of ASCII characters
/// it changes the letters A to Z, each to its small letter, and nothing else.
/// What it makes of other characters is Unicode's mapping and is not stated.
pub assume_specification[ str::to_lowercase ](s: &str) -> (r: String)
    ensures
        r@ == lowercase(s@),
        is_ascii_chars(s@) ==> r@ == ascii_lowered(s@),
;

/// A text in lower case. Of ASCII characters it is known one by one.
pub open spec fn lowered(s: Seq<char>) -> Seq<char> {
    if is_ascii_chars(s) {
        ascii_lowered(s)
    } else {
        lowercase(s)
    }
}

#[derive(Clone, Copy, Debug, PartialEq, Eq, Structural)]
pub enum MediaKind {
    Image,
    Video,
}

/// The extensions, in lower case, of image files.
pub open spec fn is_image_ext(e: Seq<char>) -> bool {
    e == "jpg"@ || e == "jpeg"@ || e == "png"@ || e == "gif"@ || e == "webp"@ || e == "avif"@ || e
        == "heic"@ || e == "heif"@
}

/// The extensions, in lower case, of video files.
pub open spec fn is_video_ext(e: Seq<char>) -> bool {
    e == "mp4"@ || e == "webm"@ || e == "mov"@ || e == "mkv"@ || e == "avi"@ || e == "m4v"@ || e
        == "3gp"@
}

/// The kind of a file with the extension `e`, given in lower case.
pub open spec fn kind_of(e: Seq<char>) -> Option<MediaKind> {
    if is_image_ext(e) {
        Some(MediaKind::Image)
    } else if is_video_ext(e) {
        Some(MediaKind::Video)
    } else {
        None
    }
}

/// What stands after the last dot of `name`; all of it, where there is no dot.
pub open spec fn after_last_dot(name: Seq<char>) -> Seq<char> {
    match last_of(name, seq!['.']) {
        Some(i) => name.skip(i + 1),
        None => name,
    }
}

/// The kind of a file called `name`.
pub open spec fn kind_of_name(name: Seq<char>) -> Option<MediaKind> {
    kind_of(lowered(after_last_dot(name)))
}

/// The content type of a file with the extension `e`, given in lower case.
pub open spec fn mime_of(e: Seq<char>) -> Seq<char> {
    if e == "jpg"@ || e == "jpeg"@ {
        "image/jpeg"@
    } else if e == "png"@ {
        "image/png"@
    } else if e == "gif"@ {
        "image/gif"@
    } else if e == "webp"@ {
        "image/webp"@
    } else if e == "avif"@ {
        "image/avif"@
    } else if e == "mp4"@ || e == "m4v"@ {
        "video/mp4"@
    } else if e == "webm"@ {
        "video/webm"@
    } else if e == "mov"@ {
        "video/quicktime"@
    } else if e == "mkv"@ {
        "video/x-matroska"@
    } else {
        "application/octet-stream"@
    }
}

/// The extension of the file at `p` before it is put in lower case; empty, where there is none.
pub open spec fn raw_ext(p: Seq<char>) -> Seq<char> {
    match extension(p) {
        Some(e) => e,
        None => Seq::empty(),
    }
}

/// Whether `ext`, in lower case, is an extension of image files.
fn image_ext(ext: &str) -> (r: bool)
    ensures
        r == is_image_ext(ext@),
{
    same_text(ext, "jpg") || same_text(ext, "jpeg") || same_text(ext, "png") || same_text(ext, "gif")
        || same_text(ext, "webp") || same_text(ext, "avif") || same_text(ext, "heic") || same_text(
        ext,
        "heif",
    )
}

/// Whether `ext`, in lower case, is an extension of video files.
pub fn video_ext(ext: &str) -> (r: bool)
    ensures
        r == is_video_ext(ext@),
{
    same_text(ext, "mp4") || same_text(ext, "webm") || same_text(ext, "mov") || same_text(ext, "mkv")
        || same_text(ext, "avi") || same_text(ext, "m4v") || same_text(ext, "3gp")
}

/// The kind of a file with the extension `ext`, given in lower case.
pub fn kind_for_ext(ext: &str) -> (r: Option<MediaKind>)
    ensures
        r == kind_of(ext@),
{
    if image_ext(ext) {
        Some(MediaKind::Image)
    } else if video_ext(ext) {
        Some(MediaKind::Video)
    } else {
        None
    }
}

/// The kind of a file called `name`, by what stands after the last dot, in any case.
pub fn media_kind(name: &str) -> (r: Option<MediaKind>)
    ensures
        r == kind_of_name(name@),
{
    let cs = chars_of(name);
    let n: usize = cs.len();
    let dot: [char; 1] = ['.'];
    assert(dot@ =~= seq!['.']);
    let start: usize = match find_last(cs.as_slice(), &dot) {
        Some(i) => i + 1,
        None => 0,
    };
    let ext = slice_text(cs.as_slice(), start, n);
    assert(ext@ =~= after_last_dot(name@));
    let lower = ext.as_str().to_lowercase();
    kind_for_ext(lower.as_str())
}

/// `a` and `b` differ in nothing but the case of ASCII letters.
pub open spec fn same_but_case(a: Seq<char>, b: Seq<char>) -> bool {
    &&& a.len() == b.len()
    &&& forall|i: int| 0 <= i < a.len() ==> ascii_lower(#[trigger] a[i]) == ascii_lower(b[i])
}

/// A name without a dot is judged by all of it.
pub proof fn lemma_no_dot(s: Seq<char>)
    requires
        forall|i: int| 0 <= i < s.len() ==> #[trigger] s[i] != '.',
    ensures
        after_last_dot(s) == s,
{
    assert forall|i: int| !occurs_at(s, seq!['.'], i) by {
        if occurs_at(s, seq!['.'], i) {
            assert(s.subrange(i, i + 1)[0] == s[i]);
        }
    }
}

/// Only what follows the last dot of a name decides on its kind, whatever
/// stands before the dot. The case of its letters does not count, where it is
/// of ASCII characters.
pub proof fn law_kind_goes_by_extension(stem: Seq<char>, ext: Seq<char>, other: Seq<char>)
    requires
        forall|i: int| 0 <= i < ext.len() ==> #[trigger] ext[i] != '.',
    ensures
        kind_of_name(stem + "."@ + ext) == kind_of_name(ext),
        is_ascii_chars(ext) && same_but_case(ext, other) ==> kind_of_name(other) == kind_of_name(
            ext,
        ) && kind_of_name(stem + "."@ + other) == kind_of_name(ext),
{
    lemma_after_dot(stem, ext);
    lemma_no_dot(ext);
    if is_ascii_chars(ext) && same_but_case(ext, other) {
        assert forall|i: int| 0 <= i < other.len() implies #[trigger] other[i] != '.' && '\0'
            <= other[i] <= '\u{7f}' by {
            assert(ascii_lower(ext[i]) == ascii_lower(other[i]));
        }
        lemma_after_dot(stem, other);
        lemma_no_dot(other);
        assert(ascii_lowered(other) =~= ascii_lowered(ext));
    }
}

proof fn lemma_after_dot(stem: Seq<char>, ext: Seq<char>)
    requires
        forall|i: int| 0 <= i < ext.len() ==> #[trigger] ext[i] != '.',
    ensures
        after_last_dot(stem + "."@ + ext) == ext,
{
    reveal_strlit(".");
    let name = stem + "."@ + ext;
    let n = stem.len() as int;
    assert(name.subrange(n, n + 1) =~= seq!['.']);
    assert forall|j: int| occurs_at(name, seq!['.'], j) implies j <= n by {
        assert(name.subrange(j, j + 1)[0] == name[j]);
        if j > n {
            assert(name[j] == ext[j - n - 1]);
        }
    }
    lemma_last(name, seq!['.'], n);
    assert(name.skip(n + 1) =~= ext);
}

/// The content type of a file with the extension `ext`, given in lower case.
pub fn mime_for_ext(ext: &str) -> (r: &'static str)
    ensures
        r@ == mime_of(ext@),
{
    if same_text(ext, "jpg") || same_text(ext, "jpeg") {
        "image/jpeg"
    } else if same_text(ext, "png") {
        "image/png"
    } else if same_text(ext, "gif") {
        "image/gif"
    } else if same_text(ext, "webp") {
        "image/webp"
    } else if same_text(ext, "avif") {
        "image/avif"
    } else if same_text(ext, "mp4") || same_text(ext, "m4v") {
        "video/mp4"
    } else if same_text(ext, "webm") {
        "video/webm"
    } else if same_text(ext, "mov") {
        "video/quicktime"
    } else if same_text(ext, "mkv") {
        "video/x-matroska"
    } else {
        "application/octet-stream"
    }
}

/// The extension of the file at `p`, in lower case; empty, where there is none.
pub fn lower_ext(p: &str) -> (r: String)
    ensures
        r@ == lowered(raw_ext(p@)),
{
    let ext = match path_extension(p) {
        Some(e) => e,
        None => String::new(),
    };
    ext.as_str().to_lowercase()
}

proof fn lemma_extensions_differ()
    ensures
        "jpg"@ != "png"@ && "jpg"@ != "gif"@ && "jpg"@ != "mp4"@ && "jpg"@ != "mov"@ && "jpg"@
            != "mkv"@ && "jpg"@ != "avi"@ && "jpg"@ != "m4v"@ && "jpg"@ != "3gp"@,
        "png"@ != "gif"@ && "png"@ != "mp4"@ && "png"@ != "mov"@ && "png"@ != "mkv"@ && "png"@
            != "avi"@ && "png"@ != "m4v"@ && "png"@ != "3gp"@,
        "gif"@ != "mp4"@ && "gif"@ != "mov"@ && "gif"@ != "mkv"@ && "gif"@ != "avi"@ && "gif"@
            != "m4v"@ && "gif"@ != "3gp"@,
        "mp4"@ != "mov"@ && "mp4"@ != "mkv"@ && "m4v"@ != "mov"@ && "m4v"@ != "mkv"@ && "mov"@
            != "mkv"@,
        "webm"@ != "jpeg"@ && "webm"@ != "webp"@ && "webm"@ != "avif"@ && "webm"@ != "heic"@
            && "webm"@ != "heif"@,
        "jpeg"@ != "webp"@ && "jpeg"@ != "avif"@ && "webp"@ != "avif"@,
        "jpg"@.len() == 3 && "png"@.len() == 3 && "gif"@.len() == 3 && "mp4"@.len() == 3
            && "mov"@.len() == 3 && "mkv"@.len() == 3 && "avi"@.len() == 3 && "m4v"@.len() == 3
            && "3gp"@.len() == 3,
        "jpeg"@.len() == 4 && "webp"@.len() == 4 && "avif"@.len() == 4 && "heic"@.len() == 4
            && "heif"@.len() == 4 && "webm"@.len() == 4,
{
    reveal_strlit("jpg");
    reveal_strlit("png");
    reveal_strlit("gif");
    reveal_strlit("mp4");
    reveal_strlit("mov");
    reveal_strlit("mkv");
    reveal_strlit("avi");
    reveal_strlit("m4v");
    reveal_strlit("3gp");
    reveal_strlit("jpeg");
    reveal_strlit("webp");
    reveal_strlit("avif");
    reveal_strlit("heic");
    reveal_strlit("heif");
    reveal_strlit("webm");
    assert("jpg"@[0] == 'j' && "png"@[0] == 'p' && "gif"@[0] == 'g' && "3gp"@[0] == '3'
        && "avi"@[0] == 'a');
    assert("mp4"@[0] == 'm' && "mov"@[0] == 'm' && "mkv"@[0] == 'm' && "m4v"@[0] == 'm');
    assert("mp4"@[1] == 'p' && "mov"@[1] == 'o' && "mkv"@[1] == 'k' && "m4v"@[1] == '4');
    assert("jpeg"@[0] == 'j' && "webp"@[0] == 'w' && "avif"@[0] == 'a' && "heic"@[0] == 'h'
        && "heif"@[0] == 'h' && "webm"@[0] == 'w');
    assert("webp"@[3] == 'p' && "webm"@[3] == 'm');
}

/// Which extensions make a file an image, which a video, and that all others
/// make it neither.
pub proof fn law_kind_of_extension(e: Seq<char>)
    ensures
        kind_of(e) == Some(MediaKind::Image) <==> e == "jpg"@ || e == "jpeg"@ || e == "png"@ || e
            == "gif"@ || e == "webp"@ || e == "avif"@ || e == "heic"@ || e == "heif"@,
        kind_of(e) == Some(MediaKind::Video) <==> e == "mp4"@ || e == "webm"@ || e == "mov"@ || e
            == "mkv"@ || e == "avi"@ || e == "m4v"@ || e == "3gp"@,
        is_video_ext(e) <==> kind_of(e) == Some(MediaKind::Video),
{
    lemma_extensions_differ();
}

/// The content type that belongs to each extension, and that of all others.
pub proof fn law_content_type(e: Seq<char>)
    ensures
        e == "jpg"@ || e == "jpeg"@ ==> mime_of(e) == "image/jpeg"@,
        e == "png"@ ==> mime_of(e) == "image/png"@,
        e == "gif"@ ==> mime_of(e) == "image/gif"@,
        e == "webp"@ ==> mime_of(e) == "image/webp"@,
        e == "avif"@ ==> mime_of(e) == "image/avif"@,
        e == "mp4"@ || e == "m4v"@ ==> mime_of(e) == "video/mp4"@,
        e == "webm"@ ==> mime_of(e) == "video/webm"@,
        e == "mov"@ ==> mime_of(e) == "video/quicktime"@,
        e == "mkv"@ ==> mime_of(e) == "video/x-matroska"@,
        e != "jpg"@ && e != "jpeg"@ && e != "png"@ && e != "gif"@ && e != "webp"@ && e != "avif"@
            && e != "mp4"@ && e != "m4v"@ && e != "webm"@ && e != "mov"@ && e != "mkv"@ ==> mime_of(
            e,
        ) == "application/octet-stream"@,
{
    lemma_extensions_differ();
}

/// Putting ASCII text in lower case changes the letters A to Z, each to the
/// letter 32 places on, and nothing else.
pub proof fn law_lower_case(s: Seq<char>)
    requires
        is_ascii_chars(s),
    ensures
        lowered(s).len() == s.len(),
        forall|i: int|
            0 <= i < s.len() ==> #[trigger] lowered(s)[i] as u32 == if 'A' <= s[i] <= 'Z' {
                s[i] as u32 + 32
            } else {
                s[i] as int
            },
{
}

/// The extension that a file is judged by is what follows the last dot of its
/// name, in whatever folder the file is; it is empty where there is none.
pub proof fn law_raw_extension(base: Seq<char>, stem: Seq<char>, ext: Seq<char>, plain: Seq<char>)
    requires
        stem.len() > 0,
        forall|i: int| 0 <= i < stem.len() ==> #[trigger] stem[i] != '/',
        forall|i: int| 0 <= i < ext.len() ==> #[trigger] ext[i] != '/' && ext[i] != '.',
        stem != seq!['.'] || ext.len() > 0,
        plain.len() > 0,
        forall|i: int| 0 <= i < plain.len() ==> #[trigger] plain[i] != '/' && plain[i] != '.',
    ensures
        raw_ext(joined(base, stem + seq!['.'] + ext)) == ext,
        raw_ext(joined(base, plain)) == Seq::<char>::empty(),
        raw_ext(joined(base, seq!['.'] + plain)) == Seq::<char>::empty(),
{
    law_extension(base, stem, ext, plain);
}

/// The kind of a file goes by its extension in lower case, and that of a name
/// without a dot by all of it. Of a text that is not ASCII the lower case is the
/// standard library's.
pub proof fn law_kind_goes_by_lower_case(stem: Seq<char>, ext: Seq<char>)
    requires
        forall|i: int| 0 <= i < ext.len() ==> #[trigger] ext[i] != '.',
    ensures
        kind_of_name(ext) == kind_of(lowered(ext)),
        kind_of_name(stem + "."@ + ext) == kind_of(lowered(ext)),
        !is_ascii_chars(ext) ==> lowered(ext) == lowercase(ext),
{
    lemma_no_dot(ext);
    lemma_after_dot(stem, ext);
}

} // verus!
