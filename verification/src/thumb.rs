//! The thumbnail generator: where a thumbnail lies, when it is fresh, how
//! the media tool is asked to make it, and what the sidecar records of it.

use crate::decimal::{decimal, decimal_chars};
use crate::error::Error;
use crate::metadata::{
    load_thumb_version, mark_thumb_failed, updated, write_thumb_version, AlbumMeta,
    FileMetaEntryView,
};
use crate::paths::{
    extension_chars, extension_of, file_name_chars, file_name_of, join_chars, joined, stem_chars,
    stem_of,
};
use crate::settings::ThumbnailSettings;
use crate::text::{
    append_chars, append_str, chars_eq, chars_of, lowered, str_eq, string_of, to_lowered,
};
use crate::util::{media_kind, media_kind_of, newer_than, MediaKind};
use vstd::prelude::*;

verus! {

/// The path of the thumbnail of a media file: the file's name with `.webp`
/// added, in the thumbnail directory.
pub open spec fn thumb_path_of(original: Seq<char>, thumb_dir: Seq<char>) -> Option<Seq<char>> {
    match file_name_of(original) {
        Some(name) => Some(joined(thumb_dir, name + ".webp"@)),
        None => None,
    }
}

/// The path of the thumbnail of a media file. A path that names no file has
/// none.
pub fn thumb_path(original: &str, thumb_dir: &str) -> (r: Result<String, Error>)
    ensures
        match thumb_path_of(original@, thumb_dir@) {
            Some(p) => r is Ok && r->Ok_0@ == p,
            None => r == Err::<String, Error>(Error::InvalidFilename),
        },
{
    let chars = chars_of(original);
    match file_name_chars(&chars) {
        Some(name) => {
            let mut file = name;
            append_str(&mut file, ".webp");
            let dir = chars_of(thumb_dir);
            let full = join_chars(&dir, &file);
            Ok(string_of(&full))
        },
        None => Err(Error::InvalidFilename),
    }
}

/// The path of the marker that the one writer of a thumbnail holds: the
/// thumbnail's path with `.lock` added.
pub fn thumb_lock_path(thumb: &str) -> (r: String)
    ensures
        r@ == thumb@ + ".lock"@,
{
    let mut chars = chars_of(thumb);
    append_str(&mut chars, ".lock");
    string_of(&chars)
}

/// Whether a thumbnail is fresh: it exists, it is at least as new as the
/// media file, and the sidecar records the current version for it.
pub open spec fn fresh(
    thumb_mtime: Option<i128>,
    media_mtime: Option<i128>,
    recorded: Option<Seq<char>>,
    current: Seq<char>,
) -> bool {
    &&& thumb_mtime is Some
    &&& media_mtime is Some
    &&& thumb_mtime->0 >= media_mtime->0
    &&& recorded == Some(current)
}

/// Whether a thumbnail is fresh. The times are those at which the
/// thumbnail and the media file were last modified; a file that is not
/// there has none.
pub fn thumb_is_fresh(
    thumb_mtime: Option<i128>,
    media_mtime: Option<i128>,
    recorded: Option<&str>,
    current: &str,
) -> (r: bool)
    ensures
        r == fresh(
            thumb_mtime,
            media_mtime,
            match recorded {
                Some(v) => Some(v@),
                None => None,
            },
            current@,
        ),
{
    let newer: bool = match newer_than(thumb_mtime, media_mtime) {
        Some(b) => b,
        None => false,
    };
    let version_ok: bool = match recorded {
        Some(v) => str_eq(v, current),
        None => false,
    };
    newer && version_ok
}

/// The filter that scales a picture down to fit a square of `max_dim`
/// pixels, keeping its shape.
pub open spec fn scale_filter(max_dim: u32) -> Seq<char> {
    "scale=min(iw\\,"@ + decimal(max_dim as nat) + "):min(ih\\,"@ + decimal(max_dim as nat)
        + "):force_original_aspect_ratio=decrease"@
}

/// A time in milliseconds as seconds with three decimals.
pub open spec fn seconds_text(millis: u64) -> Seq<char> {
    decimal((millis / 1000) as nat) + "."@ + decimal(((millis % 1000) / 100) as nat) + decimal(
        ((millis % 100) / 10) as nat,
    ) + decimal((millis % 10) as nat)
}

/// The arguments with which the media tool makes the thumbnail of an
/// image.
pub open spec fn image_args(input: Seq<char>, output: Seq<char>, settings: ThumbnailSettings) -> Seq<
    Seq<char>,
> {
    seq![
        "-i"@,
        input,
        "-y"@,
        "-vf"@,
        scale_filter(settings.max_dim),
        "-c:v"@,
        "libwebp"@,
        "-q:v"@,
        decimal(settings.image_webp_quality as nat),
        "-compression_level"@,
        decimal(settings.image_webp_compression_level as nat),
        output,
    ]
}

/// The arguments with which the media tool takes one still of a video as
/// its thumbnail.
pub open spec fn video_args(input: Seq<char>, output: Seq<char>, settings: ThumbnailSettings) -> Seq<
    Seq<char>,
> {
    seq![
        "-i"@,
        input,
        "-ss"@,
        seconds_text(settings.video_seek_millis),
        "-y"@,
        "-frames:v"@,
        "1"@,
        "-vf"@,
        scale_filter(settings.max_dim),
        output,
    ]
}

/// The arguments with which the media tool makes the thumbnail of a file,
/// by the class of the file; none for a file that is neither image nor
/// video.
pub open spec fn thumbnail_args(
    input: Seq<char>,
    output: Seq<char>,
    settings: ThumbnailSettings,
) -> Option<
    Seq<Seq<char>>,
> {
    match media_kind_of(input) {
        MediaKind::Image => Some(image_args(input, output, settings)),
        MediaKind::Video => Some(video_args(input, output, settings)),
        _ => None,
    }
}

/// The decimal text of a number.
fn number(n: u64) -> (s: String)
    ensures
        s@ == decimal(n as nat),
{
    string_of(&decimal_chars(n as u128))
}

/// The scale filter for thumbnails of at most `max_dim` pixels.
fn scale_text(max_dim: u32) -> (s: String)
    ensures
        s@ == scale_filter(max_dim),
{
    let digits = decimal_chars(max_dim as u128);
    let mut out = chars_of("scale=min(iw\\,");
    append_chars(&mut out, &digits);
    append_str(&mut out, "):min(ih\\,");
    append_chars(&mut out, &digits);
    append_str(&mut out, "):force_original_aspect_ratio=decrease");
    string_of(&out)
}

/// A time in milliseconds as seconds with three decimals.
fn seek_text(millis: u64) -> (s: String)
    ensures
        s@ == seconds_text(millis),
{
    let mut out = decimal_chars((millis / 1000) as u128);
    append_str(&mut out, ".");
    append_chars(&mut out, &decimal_chars(((millis % 1000) / 100) as u128));
    append_chars(&mut out, &decimal_chars(((millis % 100) / 10) as u128));
    append_chars(&mut out, &decimal_chars((millis % 10) as u128));
    string_of(&out)
}

/// The texts of a list of arguments.
pub open spec fn arg_texts(args: Seq<String>) -> Seq<Seq<char>> {
    Seq::new(args.len(), |i: int| args[i]@)
}

/// The arguments with which the media tool makes the thumbnail of an
/// image.
pub fn generate_image_thumbnail(input: &str, output: &str, settings: &ThumbnailSettings) -> (args:
    Vec<String>)
    ensures
        arg_texts(args@) == image_args(input@, output@, *settings),
{
    let mut args: Vec<String> = Vec::new();
    args.push("-i".to_owned());
    args.push(input.to_owned());
    args.push("-y".to_owned());
    args.push("-vf".to_owned());
    args.push(scale_text(settings.max_dim));
    args.push("-c:v".to_owned());
    args.push("libwebp".to_owned());
    args.push("-q:v".to_owned());
    args.push(number(settings.image_webp_quality as u64));
    args.push("-compression_level".to_owned());
    args.push(number(settings.image_webp_compression_level as u64));
    args.push(output.to_owned());
    assert(arg_texts(args@) =~= image_args(input@, output@, *settings));
    args
}

/// The arguments with which the media tool takes one still of a video as
/// its thumbnail.
pub fn generate_video_thumbnail(input: &str, output: &str, settings: &ThumbnailSettings) -> (args:
    Vec<String>)
    ensures
        arg_texts(args@) == video_args(input@, output@, *settings),
{
    let mut args: Vec<String> = Vec::new();
    args.push("-i".to_owned());
    args.push(input.to_owned());
    args.push("-ss".to_owned());
    args.push(seek_text(settings.video_seek_millis));
    args.push("-y".to_owned());
    args.push("-frames:v".to_owned());
    args.push("1".to_owned());
    args.push("-vf".to_owned());
    args.push(scale_text(settings.max_dim));
    args.push(output.to_owned());
    assert(arg_texts(args@) =~= video_args(input@, output@, *settings));
    args
}

/// What has to happen for a file to have its thumbnail.
#[derive(Debug, PartialEq, Eq)]
pub enum ThumbStep {
    /// The thumbnail at this path is fresh: nothing more.
    Fresh(String),
    /// The thumbnail at `thumb` has to be made. Whoever makes it first takes
    /// the lock at `lock`, then goes on as `lock_taken` says; while another
    /// holds the lock, as `lock_held` says. A lock that nobody releases
    /// holds a writer up for no longer than the configured wait.
    Lock { thumb: String, lock: String },
}

/// What a writer does while another holds the lock of a thumbnail.
#[derive(Debug, PartialEq, Eq)]
pub enum LockStep {
    /// The thumbnail has become fresh: nothing more.
    Fresh,
    /// Sleep for so many milliseconds, then try the lock again.
    Retry(u64),
    /// The holder is taken to be gone: remove the lock and try it again,
    /// counting the time waited from zero.
    TakeOver,
}

/// What a writer does that has taken the lock of a thumbnail.
#[derive(Debug, PartialEq, Eq)]
pub enum WriterStep {
    /// Another writer was faster and the thumbnail is fresh: release the
    /// lock, nothing more.
    Fresh,
    /// Run the media tool with these arguments, or fail at once where there
    /// are none; report the outcome with `thumb_generated`, then release
    /// the lock.
    Generate(Option<Vec<String>>),
}

/// Decides what has to happen for the media file at `path`, called `name`
/// in its album, to have its thumbnail in `thumb_dir`. The times are those
/// at which the thumbnail and the media file were last modified.
pub fn ensure_thumb(
    album: &AlbumMeta,
    path: &str,
    name: &str,
    thumb_dir: &str,
    thumb_mtime: Option<i128>,
    media_mtime: Option<i128>,
    settings: &ThumbnailSettings,
) -> (r: Result<ThumbStep, Error>)
    requires
        album.wf(),
    ensures
        match thumb_path_of(path@, thumb_dir@) {
            None => r == Err::<ThumbStep, Error>(Error::InvalidFilename),
            Some(thumb) => if fresh(
                thumb_mtime,
                media_mtime,
                album.entry_or_blank(name@).thumb_version,
                settings.thumb_version@,
            ) {
                r matches Ok(ThumbStep::Fresh(p)) && p@ == thumb
            } else {
                r matches Ok(ThumbStep::Lock { thumb: t, lock }) && t@ == thumb && lock@ == thumb
                    + ".lock"@
            },
        },
{
    let thumb = match thumb_path(path, thumb_dir) {
        Ok(t) => t,
        Err(e) => {
            return Err(Error::InvalidFilename);
        },
    };
    if is_fresh_now(album, name, thumb_mtime, media_mtime, settings) {
        return Ok(ThumbStep::Fresh(thumb));
    }
    let lock = thumb_lock_path(thumb.as_str());
    Ok(ThumbStep::Lock { thumb, lock })
}

/// Whether the thumbnail of `name` is fresh, by the sidecar as it is now.
fn is_fresh_now(
    album: &AlbumMeta,
    name: &str,
    thumb_mtime: Option<i128>,
    media_mtime: Option<i128>,
    settings: &ThumbnailSettings,
) -> (r: bool)
    requires
        album.wf(),
    ensures
        r == fresh(
            thumb_mtime,
            media_mtime,
            album.entry_or_blank(name@).thumb_version,
            settings.thumb_version@,
        ),
{
    let recorded = load_thumb_version(album, name);
    match &recorded {
        Some(v) => thumb_is_fresh(
            thumb_mtime,
            media_mtime,
            Some(v.as_str()),
            settings.thumb_version.as_str(),
        ),
        None => false,
    }
}

/// Decides what a writer does that found the lock of a thumbnail held and
/// has waited for it for `waited_ms`: nothing more where the thumbnail has
/// become fresh meanwhile; else, once the configured wait is over, take the
/// lock over, since whoever held it is gone; else sleep for the configured
/// time and try again. Sidecar and times are read anew.
pub fn lock_held(
    album: &AlbumMeta,
    name: &str,
    thumb_mtime: Option<i128>,
    media_mtime: Option<i128>,
    waited_ms: u64,
    settings: &ThumbnailSettings,
) -> (step: LockStep)
    requires
        album.wf(),
    ensures
        step == (if fresh(
            thumb_mtime,
            media_mtime,
            album.entry_or_blank(name@).thumb_version,
            settings.thumb_version@,
        ) {
            LockStep::Fresh
        } else if waited_ms >= settings.lock_wait_ms {
            LockStep::TakeOver
        } else {
            LockStep::Retry(settings.lock_poll_ms)
        }),
{
    if is_fresh_now(album, name, thumb_mtime, media_mtime, settings) {
        LockStep::Fresh
    } else if waited_ms >= settings.lock_wait_ms {
        LockStep::TakeOver
    } else {
        LockStep::Retry(settings.lock_poll_ms)
    }
}

/// Decides what a writer does that has taken the lock of the thumbnail at
/// `thumb`. Sidecar and times are read anew under the lock: the thumbnail is
/// made only if it is still not fresh, so that of the writers of one
/// thumbnail only the first runs the media tool.
pub fn lock_taken(
    album: &AlbumMeta,
    path: &str,
    name: &str,
    thumb: &str,
    thumb_mtime: Option<i128>,
    media_mtime: Option<i128>,
    settings: &ThumbnailSettings,
) -> (step: WriterStep)
    requires
        album.wf(),
    ensures
        if fresh(
            thumb_mtime,
            media_mtime,
            album.entry_or_blank(name@).thumb_version,
            settings.thumb_version@,
        ) {
            step == WriterStep::Fresh
        } else {
            &&& step matches WriterStep::Generate(command)
            &&& match thumbnail_args(path@, thumb@, *settings) {
                Some(args) => command is Some && arg_texts(command->0@) == args,
                None => command is None,
            }
        },
{
    if is_fresh_now(album, name, thumb_mtime, media_mtime, settings) {
        return WriterStep::Fresh;
    }
    WriterStep::Generate(
        match media_kind(path) {
            MediaKind::Image => Some(generate_image_thumbnail(path, thumb, settings)),
            MediaKind::Video => Some(generate_video_thumbnail(path, thumb, settings)),
            _ => None,
        },
    )
}

/// Records how making the thumbnail of `name` went. After a success the
/// sidecar holds the current version for the file and no failure mark;
/// after a failure it holds the failure mark.
pub fn thumb_generated(album: &mut AlbumMeta, name: &str, success: bool, settings: &ThumbnailSettings)
    requires
        old(album).wf(),
    ensures
        success ==> updated(
            *old(album),
            *final(album),
            name@,
            FileMetaEntryView {
                thumb_version: Some(settings.thumb_version@),
                thumb_failed: false,
                ..old(album).entry_or_blank(name@)
            },
        ),
        !success ==> updated(
            *old(album),
            *final(album),
            name@,
            FileMetaEntryView { thumb_failed: true, ..old(album).entry_or_blank(name@) },
        ),
        old(album).hashes_agree() ==> final(album).hashes_agree(),
{
    if success {
        write_thumb_version(album, name, settings.thumb_version.as_str());
    } else {
        mark_thumb_failed(album, name);
    }
}

/// Once a thumbnail was made with success, it is fresh for as long as it is
/// not older than the media file: the sidecar holds the current version.
pub proof fn lemma_generated_is_fresh(
    before: AlbumMeta,
    after: AlbumMeta,
    name: Seq<char>,
    settings: ThumbnailSettings,
    thumb_mtime: i128,
    media_mtime: i128,
)
    requires
        updated(
            before,
            after,
            name,
            FileMetaEntryView {
                thumb_version: Some(settings.thumb_version@),
                thumb_failed: false,
                ..before.entry_or_blank(name)
            },
        ),
        thumb_mtime >= media_mtime,
    ensures
        after.entry_or_blank(name).thumb_version == Some(settings.thumb_version@),
        fresh(
            Some(thumb_mtime),
            Some(media_mtime),
            after.entry_or_blank(name).thumb_version,
            settings.thumb_version@,
        ),
{
}

/// The media file that a thumbnail of an album belongs to, as far as its
/// hash is wanted: the thumbnail's name without its `.webp`, in whatever
/// case, where what is left names an image.
pub open spec fn original_of(album: Seq<char>, thumb_name: Seq<char>) -> Option<Seq<char>> {
    match extension_of(thumb_name) {
        Some(e) => if lowered(e) == "webp"@ && media_kind_of(joined(album, stem_of(thumb_name)))
            == MediaKind::Image {
            Some(joined(album, stem_of(thumb_name)))
        } else {
            None
        },
        None => None,
    }
}

/// The path of the image that the thumbnail file `thumb_name` of the album
/// at `album` was made of.
pub fn thumb_original(album: &str, thumb_name: &str) -> (r: Option<String>)
    ensures
        match original_of(album@, thumb_name@) {
            Some(p) => r is Some && r->0@ == p,
            None => r is None,
        },
{
    let name = chars_of(thumb_name);
    match extension_chars(&name) {
        Some(e) => {
            let webp = chars_of("webp");
            if !chars_eq(&to_lowered(&e), &webp) {
                return None;
            }
            let stem = stem_chars(&name);
            let dir = chars_of(album);
            let original = string_of(&join_chars(&dir, &stem));
            match media_kind(original.as_str()) {
                MediaKind::Image => Some(original),
                _ => None,
            }
        },
        None => None,
    }
}

} // verus!
