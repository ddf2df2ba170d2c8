//! The path and media classifier: which names are media, and where the
//! sidecar of a file lies.

use crate::paths::{
    extension_chars, extension_of, file_name_chars, file_name_of, join_chars, joined, last_index,
    last_index_of, lemma_last_index_of,
};
use crate::text::{
    append_str, chars_eq, chars_of, lowered, slice_of, string_of, string_texts, to_lowered,
};
use vstd::prelude::*;

verus! {

/// The class of a media file, by its extension.
#[derive(Clone, Copy, Debug, PartialEq, Eq)]
pub enum MediaKind {
    /// A still image the pipeline reads as it is.
    Image,
    /// A video.
    Video,
    /// An image that is first converted to a common format.
    Heic,
    /// Not a media file.
    Other,
}

/// The lower-case extension of the file that a path names, if it has one.
pub open spec fn lower_extension(path: Seq<char>) -> Option<Seq<char>> {
    match file_name_of(path) {
        Some(name) => match extension_of(name) {
            Some(e) => Some(lowered(e)),
            None => None,
        },
        None => None,
    }
}

/// Whether the extension of `path`, in lower case, is one of `exts`.
pub open spec fn extension_in(path: Seq<char>, exts: Seq<&str>) -> bool {
    match lower_extension(path) {
        Some(e) => exists|i: int| 0 <= i < exts.len() && (#[trigger] exts[i])@ == e,
        None => false,
    }
}

/// The image extensions.
pub open spec fn is_image_ext(e: Seq<char>) -> bool {
    e == "jpg"@ || e == "jpeg"@ || e == "png"@ || e == "webp"@ || e == "avif"@ || e == "gif"@ || e
        == "bmp"@
}

/// The video extensions.
pub open spec fn is_video_ext(e: Seq<char>) -> bool {
    e == "mp4"@ || e == "mov"@ || e == "mkv"@ || e == "webm"@ || e == "avi"@ || e == "flv"@ || e
        == "m4v"@
}

/// The extensions of images that are converted before use.
pub open spec fn is_heic_ext(e: Seq<char>) -> bool {
    e == "heic"@
}

/// The class of the file that a path names: by its extension, whatever its
/// case. A name of the convertible class counts as such before anything else.
pub open spec fn media_kind_of(path: Seq<char>) -> MediaKind {
    match lower_extension(path) {
        Some(e) => if is_heic_ext(e) {
            MediaKind::Heic
        } else if is_image_ext(e) {
            MediaKind::Image
        } else if is_video_ext(e) {
            MediaKind::Video
        } else {
            MediaKind::Other
        },
        None => MediaKind::Other,
    }
}

/// The lower-case extension of the file that a path names.
pub fn lower_extension_chars(path: &Vec<char>) -> (r: Option<Vec<char>>)
    ensures
        match r {
            Some(e) => lower_extension(path@) == Some(e@),
            None => lower_extension(path@) is None,
        },
{
    match file_name_chars(path) {
        Some(name) => match extension_chars(&name) {
            Some(e) => Some(to_lowered(&e)),
            None => None,
        },
        None => None,
    }
}

/// Whether the extension of `path` is one of `exts`, which are written in
/// lower case; the case of the path's extension does not matter.
pub fn has_extension(path: &str, exts: &[&str]) -> (r: bool)
    ensures
        r == extension_in(path@, exts@),
{
    let chars = chars_of(path);
    match lower_extension_chars(&chars) {
        Some(e) => {
            let mut i: usize = 0;
            while i < exts.len()
                invariant
                    i <= exts.len(),
                    lower_extension(path@) == Some(e@),
                    forall|j: int| 0 <= j < i ==> (#[trigger] exts@[j])@ != e@,
                decreases exts.len() - i,
            {
                let x = chars_of(exts[i]);
                if chars_eq(&x, &e) {
                    assert(exts@[i as int]@ == e@);
                    return true;
                }
                i += 1;
            }
            false
        },
        None => false,
    }
}

/// Whether an extension is the given one.
fn is_text(e: &Vec<char>, lit: &str) -> (r: bool)
    ensures
        r == (e@ == lit@),
{
    let x = chars_of(lit);
    chars_eq(e, &x)
}

/// The class of the file that a path names.
pub fn media_kind(path: &str) -> (k: MediaKind)
    ensures
        k == media_kind_of(path@),
{
    let chars = chars_of(path);
    match lower_extension_chars(&chars) {
        Some(e) => {
            if is_text(&e, "heic") {
                MediaKind::Heic
            } else if is_text(&e, "jpg") || is_text(&e, "jpeg") || is_text(&e, "png") || is_text(
                &e,
                "webp",
            ) || is_text(&e, "avif") || is_text(&e, "gif") || is_text(&e, "bmp") {
                MediaKind::Image
            } else if is_text(&e, "mp4") || is_text(&e, "mov") || is_text(&e, "mkv") || is_text(
                &e,
                "webm",
            ) || is_text(&e, "avi") || is_text(&e, "flv") || is_text(&e, "m4v") {
                MediaKind::Video
            } else {
                MediaKind::Other
            }
        },
        None => MediaKind::Other,
    }
}

/// Whether a path names a media file that listings show: an image or a
/// video, not one that still has to be converted.
pub fn is_listed_media(path: &str) -> (r: bool)
    ensures
        r == (media_kind_of(path@) == MediaKind::Image || media_kind_of(path@)
            == MediaKind::Video),
{
    match media_kind(path) {
        MediaKind::Image => true,
        MediaKind::Video => true,
        _ => false,
    }
}

/// The path of the sidecar record of `file_name` under `meta_dir`.
pub fn meta_path(meta_dir: &str, file_name: &str) -> (r: String)
    ensures
        r@ == joined(meta_dir@, file_name@ + ".meta"@),
{
    let dir = chars_of(meta_dir);
    let mut name = chars_of(file_name);
    append_str(&mut name, ".meta");
    let out = join_chars(&dir, &name);
    string_of(&out)
}

/// Whether a file modified at `a` is at least as new as one modified at `b`.
/// There is no answer where either time could not be read.
pub fn newer_than(a: Option<i128>, b: Option<i128>) -> (r: Option<bool>)
    ensures
        r == match (a, b) {
            (Some(x), Some(y)) => Some(x >= y),
            _ => None,
        },
{
    match (a, b) {
        (Some(x), Some(y)) => Some(x >= y),
        _ => None,
    }
}

/// Whether a convertible image still has to be converted: its derivative is
/// missing or older than it.
pub fn needs_conversion(derivative_mtime: Option<i128>, source_mtime: Option<i128>) -> (r: bool)
    ensures
        r == !(derivative_mtime is Some && source_mtime is Some && derivative_mtime->0
            >= source_mtime->0),
{
    match newer_than(derivative_mtime, source_mtime) {
        Some(newer) => !newer,
        None => true,
    }
}

/// A path with its extension replaced by `extension`: the text from the
/// last `.` of its final component on gives way to a `.` and the
/// extension; a final component without extension gets them added.
pub open spec fn with_extension(path: Seq<char>, extension: Seq<char>) -> Seq<char> {
    let slash = last_index_of(path, '/');
    let dot = last_index_of(path, '.');
    if dot > slash + 1 {
        path.subrange(0, dot) + seq!['.'] + extension
    } else {
        path + seq!['.'] + extension
    }
}

/// The path of the derivative that a convertible image is turned into: the
/// same path with the extension `jpeg`.
pub fn converted_path(path: &str) -> (r: String)
    ensures
        r@ == with_extension(path@, "jpeg"@),
{
    let chars = chars_of(path);
    proof {
        lemma_last_index_of(chars@, '/');
        lemma_last_index_of(chars@, '.');
    }
    let after_slash: usize = match last_index(&chars, '/') {
        Some(at) => at + 1,
        None => 0,
    };
    let mut out: Vec<char> = match last_index(&chars, '.') {
        Some(dot) => {
            if dot > after_slash {
                slice_of(&chars, 0, dot)
            } else {
                let all = slice_of(&chars, 0, chars.len());
                assert(all@ =~= chars@);
                all
            }
        },
        None => {
            let all = slice_of(&chars, 0, chars.len());
            assert(all@ =~= chars@);
            all
        },
    };
    out.push('.');
    append_str(&mut out, "jpeg");
    string_of(&out)
}

/// The arguments with which the media tool converts the image at `src`
/// into `dst`, keeping its metadata.
pub fn heic_to_jpeg(src: &str, dst: &str) -> (args: Vec<String>)
    ensures
        string_texts(args@) == seq!["-i"@, src@, "-y"@, "-map_metadata"@, "0"@, dst@],
{
    let mut args: Vec<String> = Vec::new();
    args.push("-i".to_owned());
    args.push(src.to_owned());
    args.push("-y".to_owned());
    args.push("-map_metadata".to_owned());
    args.push("0".to_owned());
    args.push(dst.to_owned());
    assert(string_texts(args@) =~= seq!["-i"@, src@, "-y"@, "-map_metadata"@, "0"@, dst@]);
    args
}

} // verus!
