//! Packed file metadata and the per-album sidecar records.

use crate::decimal::{decimal, format_u128, lemma_parse_decimal_roundtrip, parse_decimal, parse_u128};
use crate::error::Error;
use crate::hashbits::base64_decoded;
use crate::paths::{join, joined};
use crate::text::{append_str, chars_of, has_suffix, same_text, slice_of, string_of};
use crate::util::{media_kind, media_kind_of, MediaKind};
use vstd::prelude::*;

verus! {

/// The six metadata fields of one media file.
#[derive(Clone, Copy, Debug, PartialEq, Eq)]
pub struct DetachedFileMeta {
    /// When the file was added, in seconds since the epoch.
    pub a: Option<u64>,
    /// When the picture was taken, in seconds since the epoch.
    pub s: Option<u64>,
    /// Whether the file is an image.
    pub i: bool,
    /// Whether the file is a video.
    pub v: bool,
    /// Width in pixels.
    pub w: Option<u32>,
    /// Height in pixels.
    pub h: Option<u32>,
}

/// The 40 low bits: the width of a timestamp in the packed form.
pub const MASK_40: u128 = 0xff_ffff_ffff;

/// The 20 low bits: the width of a dimension in the packed form.
pub const MASK_20: u128 = 0xf_ffff;

/// One bit of the packed form: set at position `at` when `on` holds.
pub open spec fn flag_bit(on: bool, at: u128) -> u128 {
    if on {
        1u128 << at
    } else {
        0u128
    }
}

/// The low 40 bits of an optional timestamp, zero when it is absent.
pub open spec fn field_40(x: Option<u64>) -> u128 {
    match x {
        Some(v) => (v as u128) & MASK_40,
        None => 0u128,
    }
}

/// The low 20 bits of an optional dimension, zero when it is absent.
pub open spec fn field_20(x: Option<u32>) -> u128 {
    match x {
        Some(v) => (v as u128) & MASK_20,
        None => 0u128,
    }
}

/// The 128-bit packed form: added in bits 0..40, shoot in 40..80, width in
/// 80..100, height in 100..120, the image and video flags at 120 and 121,
/// and one presence bit for each optional field at 122..126.
pub open spec fn pack_bits(m: DetachedFileMeta) -> u128 {
    field_40(m.a) | (field_40(m.s) << 40) | (field_20(m.w) << 80) | (field_20(m.h) << 100)
        | flag_bit(m.i, 120) | flag_bit(m.v, 121) | flag_bit(m.a is Some, 122) | flag_bit(
        m.s is Some,
        123,
    ) | flag_bit(m.w is Some, 124) | flag_bit(m.h is Some, 125)
}

/// The fields that a 128-bit packed form holds.
pub open spec fn unpack_bits(p: u128) -> DetachedFileMeta {
    DetachedFileMeta {
        a: if p & (1u128 << 122) != 0 {
            Some((p & MASK_40) as u64)
        } else {
            None
        },
        s: if p & (1u128 << 123) != 0 {
            Some(((p >> 40) & MASK_40) as u64)
        } else {
            None
        },
        i: p & (1u128 << 120) != 0,
        v: p & (1u128 << 121) != 0,
        w: if p & (1u128 << 124) != 0 {
            Some(((p >> 80) & MASK_20) as u32)
        } else {
            None
        },
        h: if p & (1u128 << 125) != 0 {
            Some(((p >> 100) & MASK_20) as u32)
        } else {
            None
        },
    }
}

/// The wire form of metadata: the decimal text of the packed number.
pub open spec fn pack_text(m: DetachedFileMeta) -> Seq<char> {
    decimal(pack_bits(m) as nat)
}

/// What a wire form stands for, where it is the text of a 128-bit number.
pub open spec fn unpack_text(s: Seq<char>) -> Option<DetachedFileMeta> {
    match parse_decimal(s, u128::MAX as nat) {
        Some(p) => Some(unpack_bits(p as u128)),
        None => None,
    }
}

/// The fields as a packed form keeps them: timestamps cut to 40 bits,
/// dimensions to 20.
pub open spec fn stored_fields(m: DetachedFileMeta) -> DetachedFileMeta {
    DetachedFileMeta {
        a: match m.a {
            Some(_) => Some(field_40(m.a) as u64),
            None => None,
        },
        s: match m.s {
            Some(_) => Some(field_40(m.s) as u64),
            None => None,
        },
        i: m.i,
        v: m.v,
        w: match m.w {
            Some(_) => Some(field_20(m.w) as u32),
            None => None,
        },
        h: match m.h {
            Some(_) => Some(field_20(m.h) as u32),
            None => None,
        },
    }
}

/// Fields that fit their width and flags at their places can be read back
/// from the packed number.
proof fn lemma_layout(
    a: u128,
    s: u128,
    w: u128,
    h: u128,
    fi: u128,
    fv: u128,
    fa: u128,
    fs: u128,
    fw: u128,
    fh: u128,
)
    requires
        a <= MASK_40,
        s <= MASK_40,
        w <= MASK_20,
        h <= MASK_20,
        fi == 0 || fi == 1u128 << 120,
        fv == 0 || fv == 1u128 << 121,
        fa == 0 || fa == 1u128 << 122,
        fs == 0 || fs == 1u128 << 123,
        fw == 0 || fw == 1u128 << 124,
        fh == 0 || fh == 1u128 << 125,
    ensures
        ({
            let p = a | (s << 40) | (w << 80) | (h << 100) | fi | fv | fa | fs | fw | fh;
            &&& p & MASK_40 == a
            &&& (p >> 40) & MASK_40 == s
            &&& (p >> 80) & MASK_20 == w
            &&& (p >> 100) & MASK_20 == h
            &&& (p & (1u128 << 120) != 0) == (fi != 0)
            &&& (p & (1u128 << 121) != 0) == (fv != 0)
            &&& (p & (1u128 << 122) != 0) == (fa != 0)
            &&& (p & (1u128 << 123) != 0) == (fs != 0)
            &&& (p & (1u128 << 124) != 0) == (fw != 0)
            &&& (p & (1u128 << 125) != 0) == (fh != 0)
        }),
{
    let p = a | (s << 40) | (w << 80) | (h << 100) | fi | fv | fa | fs | fw | fh;
    assert(p & 0xff_ffff_ffffu128 == a && (p >> 40) & 0xff_ffff_ffffu128 == s && (p >> 80)
        & 0xf_ffffu128 == w && (p >> 100) & 0xf_ffffu128 == h && (p & (1u128 << 120) != 0) == (fi
        != 0) && (p & (1u128 << 121) != 0) == (fv != 0) && (p & (1u128 << 122) != 0) == (fa != 0)
        && (p & (1u128 << 123) != 0) == (fs != 0) && (p & (1u128 << 124) != 0) == (fw != 0) && (p
        & (1u128 << 125) != 0) == (fh != 0)) by (bit_vector)
        requires
            p == a | (s << 40) | (w << 80) | (h << 100) | fi | fv | fa | fs | fw | fh,
            a <= 0xff_ffff_ffffu128,
            s <= 0xff_ffff_ffffu128,
            w <= 0xf_ffffu128,
            h <= 0xf_ffffu128,
            fi == 0 || fi == 1u128 << 120,
            fv == 0 || fv == 1u128 << 121,
            fa == 0 || fa == 1u128 << 122,
            fs == 0 || fs == 1u128 << 123,
            fw == 0 || fw == 1u128 << 124,
            fh == 0 || fh == 1u128 << 125,
    ;
}

/// A field cut to its width fits it, and cutting it again changes nothing.
proof fn lemma_field_bounds(x: Option<u64>, y: Option<u32>)
    ensures
        field_40(x) <= MASK_40,
        field_20(y) <= MASK_20,
        field_40(Some(field_40(x) as u64)) == field_40(x),
        field_20(Some(field_20(y) as u32)) == field_20(y),
{
    if let Some(v) = x {
        let u = v as u128;
        assert(u & 0xff_ffff_ffffu128 <= 0xff_ffff_ffffu128 && (u & 0xff_ffff_ffffu128)
            & 0xff_ffff_ffffu128 == u & 0xff_ffff_ffffu128) by (bit_vector);
    } else {
        assert(0u128 & 0xff_ffff_ffffu128 == 0u128) by (bit_vector);
    }
    if let Some(v) = y {
        let u = v as u128;
        assert(u & 0xf_ffffu128 <= 0xf_ffffu128 && (u & 0xf_ffffu128) & 0xf_ffffu128 == u
            & 0xf_ffffu128) by (bit_vector);
    } else {
        assert(0u128 & 0xf_ffffu128 == 0u128) by (bit_vector);
    }
}

/// No flag bit is zero.
proof fn lemma_flag_values()
    ensures
        1u128 << 120 != 0,
        1u128 << 121 != 0,
        1u128 << 122 != 0,
        1u128 << 123 != 0,
        1u128 << 124 != 0,
        1u128 << 125 != 0,
{
    assert(1u128 << 120 != 0 && 1u128 << 121 != 0 && 1u128 << 122 != 0 && 1u128 << 123 != 0
        && 1u128 << 124 != 0 && 1u128 << 125 != 0) by (bit_vector);
}

/// Unpacking a packed number gives the fields as the packed form keeps them.
pub proof fn lemma_unpack_pack_bits(m: DetachedFileMeta)
    ensures
        unpack_bits(pack_bits(m)) == stored_fields(m),
        pack_bits(stored_fields(m)) == pack_bits(m),
{
    lemma_field_bounds(m.a, m.w);
    lemma_field_bounds(m.s, m.h);
    lemma_flag_values();
    lemma_layout(
        field_40(m.a),
        field_40(m.s),
        field_20(m.w),
        field_20(m.h),
        flag_bit(m.i, 120),
        flag_bit(m.v, 121),
        flag_bit(m.a is Some, 122),
        flag_bit(m.s is Some, 123),
        flag_bit(m.w is Some, 124),
        flag_bit(m.h is Some, 125),
    );
    let n = stored_fields(m);
    assert(field_40(n.a) == field_40(m.a));
    assert(field_40(n.s) == field_40(m.s));
    assert(field_20(n.w) == field_20(m.w));
    assert(field_20(n.h) == field_20(m.h));
}

/// Packing round-trips: a wire form that `pack` wrote unpacks, and packing
/// what was unpacked writes the same wire form again.
pub proof fn lemma_pack_roundtrip(m: DetachedFileMeta)
    ensures
        unpack_text(pack_text(m)) == Some(stored_fields(m)),
        pack_text(stored_fields(m)) == pack_text(m),
{
    lemma_unpack_pack_bits(m);
    lemma_parse_decimal_roundtrip(pack_bits(m) as nat, u128::MAX as nat);
}

/// The low 40 bits of an optional timestamp.
fn low_40(x: Option<u64>) -> (r: u128)
    ensures
        r == field_40(x),
        r <= MASK_40,
{
    let r: u128 = match x {
        Some(v) => (v as u128) & MASK_40,
        None => 0u128,
    };
    assert(r <= MASK_40) by {
        if let Some(v) = x {
            let y = v as u128;
            assert(y & 0xff_ffff_ffffu128 <= 0xff_ffff_ffffu128) by (bit_vector);
        }
    }
    r
}

/// The low 20 bits of an optional dimension.
fn low_20(x: Option<u32>) -> (r: u128)
    ensures
        r == field_20(x),
        r <= MASK_20,
{
    let r: u128 = match x {
        Some(v) => (v as u128) & MASK_20,
        None => 0u128,
    };
    assert(r <= MASK_20) by {
        if let Some(v) = x {
            let y = v as u128;
            assert(y & 0xf_ffffu128 <= 0xf_ffffu128) by (bit_vector);
        }
    }
    r
}

/// One bit of the packed form.
fn flag(on: bool, at: u128) -> (r: u128)
    requires
        at < 128,
    ensures
        r == flag_bit(on, at),
{
    if on {
        1u128 << at
    } else {
        0u128
    }
}

impl DetachedFileMeta {
    /// The packed number of these fields.
    pub fn packed(&self) -> (p: u128)
        ensures
            p == pack_bits(*self),
    {
        let a: u128 = low_40(self.a);
        let s: u128 = low_40(self.s);
        let w: u128 = low_20(self.w);
        let h: u128 = low_20(self.h);
        a | (s << 40) | (w << 80) | (h << 100) | flag(self.i, 120) | flag(self.v, 121) | flag(
            self.a.is_some(),
            122,
        ) | flag(self.s.is_some(), 123) | flag(self.w.is_some(), 124) | flag(
            self.h.is_some(),
            125,
        )
    }

    /// The wire form of these fields.
    pub fn pack(&self) -> (s: String)
        ensures
            s@ == pack_text(*self),
    {
        format_u128(self.packed())
    }

    /// The fields of a packed number.
    pub fn from_packed(p: u128) -> (m: DetachedFileMeta)
        ensures
            m == unpack_bits(p),
    {
        DetachedFileMeta {
            a: if p & (1u128 << 122) != 0 {
                Some((p & MASK_40) as u64)
            } else {
                None
            },
            s: if p & (1u128 << 123) != 0 {
                Some(((p >> 40) & MASK_40) as u64)
            } else {
                None
            },
            i: p & (1u128 << 120) != 0,
            v: p & (1u128 << 121) != 0,
            w: if p & (1u128 << 124) != 0 {
                Some(((p >> 80) & MASK_20) as u32)
            } else {
                None
            },
            h: if p & (1u128 << 125) != 0 {
                Some(((p >> 100) & MASK_20) as u32)
            } else {
                None
            },
        }
    }
}

/// Reads a wire form back into its fields.
pub fn unpack_file_meta(packed: &str) -> (r: Result<DetachedFileMeta, Error>)
    ensures
        match unpack_text(packed@) {
            Some(m) => r == Ok::<DetachedFileMeta, Error>(m),
            None => r == Err::<DetachedFileMeta, Error>(Error::InvalidPackedMeta),
        },
{
    match parse_u128(packed) {
        Some(p) => Ok(DetachedFileMeta::from_packed(p)),
        None => Err(Error::InvalidPackedMeta),
    }
}

/// One entry of a media listing.
#[derive(Debug, PartialEq, Eq)]
pub struct DetachedMediaEntry {
    /// The packed metadata of the file.
    pub meta: String,
    /// The file's name within its album.
    pub name: String,
    /// `Some(true)` for a favorite, absent otherwise.
    pub favorite: Option<bool>,
}

/// One album of a listing.
#[derive(Debug, PartialEq, Eq)]
pub struct DetachedAlbum {
    pub path: String,
    pub name: String,
    /// The number of media files directly in the album.
    pub size: usize,
    pub thumb_path: Option<String>,
    /// The album's path below the root, `/`-separated.
    pub relative_path: String,
    /// The relative path of the album that holds this one, if any.
    pub parent: Option<String>,
}

/// Packed metadata together with the favorite flag.
#[derive(Debug, PartialEq, Eq)]
pub struct StoredMetadata {
    pub meta: String,
    pub favorite: bool,
}

/// A perceptual hash as the sidecar keeps it.
#[derive(Debug, PartialEq, Eq)]
pub struct CachedHash {
    /// The hash bytes in base64.
    pub hash: String,
    pub version: Option<String>,
    pub bits: Option<u32>,
}

/// The sidecar record of one media file.
#[derive(Debug, PartialEq, Eq)]
pub struct FileMetaEntry {
    pub meta: Option<String>,
    pub favorite: bool,
    pub hash: Option<String>,
    pub hash_version: Option<String>,
    pub hash_bits: Option<u32>,
    pub thumb_version: Option<String>,
    pub hash_failed: bool,
    pub thumb_failed: bool,
    pub meta_failed: bool,
}

/// A sidecar record with its texts as sequences of characters.
pub struct FileMetaEntryView {
    pub meta: Option<Seq<char>>,
    pub favorite: bool,
    pub hash: Option<Seq<char>>,
    pub hash_version: Option<Seq<char>>,
    pub hash_bits: Option<u32>,
    pub thumb_version: Option<Seq<char>>,
    pub hash_failed: bool,
    pub thumb_failed: bool,
    pub meta_failed: bool,
}

/// The text of an optional string.
pub open spec fn opt_text(o: Option<String>) -> Option<Seq<char>> {
    match o {
        Some(s) => Some(s@),
        None => None,
    }
}

/// The record that stands for a file the sidecar does not know yet.
pub open spec fn blank_entry() -> FileMetaEntryView {
    FileMetaEntryView {
        meta: None,
        favorite: false,
        hash: None,
        hash_version: None,
        hash_bits: None,
        thumb_version: None,
        hash_failed: false,
        thumb_failed: false,
        meta_failed: false,
    }
}

/// Whether `hash` is the base64 text of exactly `bits` bits.
pub open spec fn hash_has_bits(hash: Seq<char>, bits: u32) -> bool {
    match base64_decoded(hash) {
        Some(bytes) => bytes.len() * 8 == bits,
        None => false,
    }
}

/// The hash fields of a record agree: a hash is kept exactly when hashing
/// has not failed and both its version and its bit count are kept with it,
/// and a hash that is kept has as many bits as the count says.
pub open spec fn hash_fields_agree(e: FileMetaEntryView) -> bool {
    &&& e.hash is Some <==> (!e.hash_failed && e.hash_version is Some && e.hash_bits is Some)
    &&& e.hash is Some ==> hash_has_bits(e.hash->0, e.hash_bits->0)
}

impl View for FileMetaEntry {
    type V = FileMetaEntryView;

    open spec fn view(&self) -> FileMetaEntryView {
        FileMetaEntryView {
            meta: opt_text(self.meta),
            favorite: self.favorite,
            hash: opt_text(self.hash),
            hash_version: opt_text(self.hash_version),
            hash_bits: self.hash_bits,
            thumb_version: opt_text(self.thumb_version),
            hash_failed: self.hash_failed,
            thumb_failed: self.thumb_failed,
            meta_failed: self.meta_failed,
        }
    }
}

/// A copy of an optional string.
pub fn copy_text(o: &Option<String>) -> (r: Option<String>)
    ensures
        opt_text(r) == opt_text(*o),
{
    match o {
        Some(s) => Some(s.clone()),
        None => None,
    }
}

impl FileMetaEntry {
    /// The record of a file the sidecar does not know yet: nothing cached,
    /// no flag set.
    pub fn new() -> (e: FileMetaEntry)
        ensures
            e@ == blank_entry(),
    {
        FileMetaEntry {
            meta: None,
            favorite: false,
            hash: None,
            hash_version: None,
            hash_bits: None,
            thumb_version: None,
            hash_failed: false,
            thumb_failed: false,
            meta_failed: false,
        }
    }

    /// A copy of this record.
    pub fn copy(&self) -> (e: FileMetaEntry)
        ensures
            e@ == self@,
    {
        FileMetaEntry {
            meta: copy_text(&self.meta),
            favorite: self.favorite,
            hash: copy_text(&self.hash),
            hash_version: copy_text(&self.hash_version),
            hash_bits: self.hash_bits,
            thumb_version: copy_text(&self.thumb_version),
            hash_failed: self.hash_failed,
            thumb_failed: self.thumb_failed,
            meta_failed: self.meta_failed,
        }
    }
}

impl Default for FileMetaEntry {
    fn default() -> (e: FileMetaEntry)
        ensures
            e@ == blank_entry(),
    {
        FileMetaEntry::new()
    }
}

/// A sidecar record under the name of its file.
#[derive(Debug, PartialEq, Eq)]
pub struct FileRecord {
    pub name: String,
    pub entry: FileMetaEntry,
}

/// The sidecar state of one album: a record for each known file, none
/// named twice, and the pairs of files that are known not to be duplicates.
#[derive(Debug, PartialEq, Eq)]
pub struct AlbumMeta {
    pub files: Vec<FileRecord>,
    pub duplicates_ignore: Vec<(String, String)>,
}

impl AlbumMeta {
    /// No file has two records.
    pub open spec fn wf(&self) -> bool {
        forall|i: int, j: int|
            0 <= i < j < self.files.len() ==> (#[trigger] self.files[i]).name@ != (
            #[trigger] self.files[j]).name@
    }

    /// Whether `i` is where the record of `name` stands.
    pub open spec fn at(&self, name: Seq<char>, i: int) -> bool {
        0 <= i < self.files.len() && self.files[i].name@ == name
    }

    /// Whether the sidecar has a record of `name`.
    pub open spec fn has(&self, name: Seq<char>) -> bool {
        exists|i: int| self.at(name, i)
    }

    /// The record of `name`, if the sidecar has one.
    pub open spec fn entry(&self, name: Seq<char>) -> Option<FileMetaEntryView> {
        if self.has(name) {
            Some(self.files[choose|i: int| self.at(name, i)].entry@)
        } else {
            None
        }
    }

    /// The record of `name`, or a blank one.
    pub open spec fn entry_or_blank(&self, name: Seq<char>) -> FileMetaEntryView {
        match self.entry(name) {
            Some(e) => e,
            None => blank_entry(),
        }
    }

    /// The hash fields of every record agree.
    pub open spec fn hashes_agree(&self) -> bool {
        forall|i: int| 0 <= i < self.files.len() ==> hash_fields_agree(#[trigger] self.files[i].entry@)
    }

    /// Where `i` is the place of `name`, its record is the one found there.
    pub proof fn lemma_entry_at(&self, name: Seq<char>, i: int)
        requires
            self.wf(),
            self.at(name, i),
        ensures
            self.entry(name) == Some(self.files[i].entry@),
    {
        let j = choose|j: int| self.at(name, j);
        assert(self.at(name, j));
        if i < j {
            assert(self.files[i].name@ != self.files[j].name@);
        } else if j < i {
            assert(self.files[j].name@ != self.files[i].name@);
        }
    }

    /// An empty sidecar.
    pub fn new() -> (album: AlbumMeta)
        ensures
            album.wf(),
            album.hashes_agree(),
            album.files@.len() == 0,
            album.duplicates_ignore@.len() == 0,
    {
        AlbumMeta { files: Vec::new(), duplicates_ignore: Vec::new() }
    }

    /// Where the record of `name` stands.
    pub fn position(&self, name: &str) -> (r: Option<usize>)
        ensures
            match r {
                Some(i) => self.at(name@, i as int),
                None => !self.has(name@),
            },
    {
        let wanted = name.to_owned();
        let mut i: usize = 0;
        while i < self.files.len()
            invariant
                i <= self.files.len(),
                wanted@ == name@,
                forall|j: int| 0 <= j < i ==> !self.at(name@, j),
            decreases self.files.len() - i,
        {
            if same_text(&self.files[i].name, &wanted) {
                return Some(i);
            }
            i += 1;
        }
        None
    }

    /// The record of `name`.
    pub fn get(&self, name: &str) -> (r: Option<&FileMetaEntry>)
        requires
            self.wf(),
        ensures
            match r {
                Some(e) => self.entry(name@) == Some(e@),
                None => self.entry(name@) is None,
            },
    {
        match self.position(name) {
            Some(i) => {
                proof {
                    self.lemma_entry_at(name@, i as int);
                }
                Some(&self.files[i].entry)
            },
            None => None,
        }
    }

    /// A copy of the record of `name`, or a blank record.
    pub fn get_or_default(&self, name: &str) -> (e: FileMetaEntry)
        requires
            self.wf(),
        ensures
            e@ == self.entry_or_blank(name@),
    {
        match self.get(name) {
            Some(e) => e.copy(),
            None => FileMetaEntry::new(),
        }
    }

    /// Puts `entry` in the place of the record of `name`, or adds it. No
    /// other record changes.
    pub fn put(&mut self, name: &str, entry: FileMetaEntry)
        requires
            old(self).wf(),
        ensures
            final(self).wf(),
            final(self).entry(name@) == Some(entry@),
            forall|other: Seq<char>|
                other != name@ ==> final(self).entry(other) == old(self).entry(other),
            final(self).duplicates_ignore == old(self).duplicates_ignore,
            old(self).hashes_agree() && hash_fields_agree(entry@) ==> final(self).hashes_agree(),
    {
        let ghost before = *self;
        match self.position(name) {
            Some(i) => {
                let record = FileRecord { name: name.to_owned(), entry };
                self.files[i] = record;
                proof {
                    let after = *self;
                    assert(after.wf()) by {
                        assert forall|a: int, b: int| 0 <= a < b < after.files.len() implies (
                        #[trigger] after.files[a]).name@ != (#[trigger] after.files[b]).name@ by {
                            assert(after.files[a].name@ == before.files[a].name@);
                            assert(after.files[b].name@ == before.files[b].name@);
                        }
                    }
                    assert(after.at(name@, i as int));
                    after.lemma_entry_at(name@, i as int);
                    assert forall|other: Seq<char>| other != name@ implies after.entry(other)
                        == before.entry(other) by {
                        lemma_same_names(before, after, other, i as int);
                    }
                }
            },
            None => {
                let record = FileRecord { name: name.to_owned(), entry };
                self.files.push(record);
                proof {
                    let after = *self;
                    let last = before.files.len() as int;
                    assert(after.wf()) by {
                        assert forall|a: int, b: int| 0 <= a < b < after.files.len() implies (
                        #[trigger] after.files[a]).name@ != (#[trigger] after.files[b]).name@ by {
                            assert(after.files[a] == before.files[a]);
                            if b < last {
                                assert(after.files[b] == before.files[b]);
                            } else {
                                assert(!before.at(name@, a));
                            }
                        }
                    }
                    assert(after.at(name@, last));
                    after.lemma_entry_at(name@, last);
                    assert forall|other: Seq<char>| other != name@ implies after.entry(other)
                        == before.entry(other) by {
                        lemma_pushed_names(before, after, other);
                    }
                }
            },
        }
    }
}

/// Replacing one record leaves the records of other names as they were.
proof fn lemma_same_names(before: AlbumMeta, after: AlbumMeta, other: Seq<char>, i: int)
    requires
        before.wf(),
        after.wf(),
        0 <= i < before.files.len(),
        after.files.len() == before.files.len(),
        forall|k: int| 0 <= k < before.files.len() && k != i ==> after.files[k] == before.files[k],
        after.files[i].name@ == before.files[i].name@,
        other != before.files[i].name@,
    ensures
        after.entry(other) == before.entry(other),
{
    if before.has(other) {
        let j = choose|j: int| before.at(other, j);
        assert(before.at(other, j));
        assert(after.at(other, j));
        before.lemma_entry_at(other, j);
        after.lemma_entry_at(other, j);
    } else if after.has(other) {
        let j = choose|j: int| after.at(other, j);
        assert(after.at(other, j));
        assert(before.at(other, j));
    }
}

/// Adding a record leaves the records of other names as they were.
proof fn lemma_pushed_names(before: AlbumMeta, after: AlbumMeta, other: Seq<char>)
    requires
        before.wf(),
        after.wf(),
        after.files.len() == before.files.len() + 1,
        forall|k: int| 0 <= k < before.files.len() ==> after.files[k] == before.files[k],
        other != after.files[before.files.len() as int].name@,
    ensures
        after.entry(other) == before.entry(other),
{
    if before.has(other) {
        let j = choose|j: int| before.at(other, j);
        assert(before.at(other, j));
        assert(after.at(other, j));
        before.lemma_entry_at(other, j);
        after.lemma_entry_at(other, j);
    } else if after.has(other) {
        let j = choose|j: int| after.at(other, j);
        assert(after.at(other, j));
        assert(before.at(other, j));
    }
}

impl Default for AlbumMeta {
    fn default() -> (album: AlbumMeta)
        ensures
            album.wf(),
            album.files@.len() == 0,
            album.duplicates_ignore@.len() == 0,
    {
        AlbumMeta::new()
    }
}

/// `after` is `before` with the record of `name` set to `e`: no other record
/// and no ignored pair has changed.
pub open spec fn updated(
    before: AlbumMeta,
    after: AlbumMeta,
    name: Seq<char>,
    e: FileMetaEntryView,
) -> bool {
    &&& after.wf()
    &&& after.entry(name) == Some(e)
    &&& forall|other: Seq<char>| other != name ==> after.entry(other) == before.entry(other)
    &&& after.duplicates_ignore == before.duplicates_ignore
    &&& (before.hashes_agree() && hash_fields_agree(e) ==> after.hashes_agree())
}

/// In a sidecar whose hash fields agree, those of each record agree, and so
/// do those of a blank record.
pub proof fn lemma_entry_agrees(album: AlbumMeta, name: Seq<char>)
    requires
        album.wf(),
        album.hashes_agree(),
    ensures
        hash_fields_agree(album.entry_or_blank(name)),
{
    if album.has(name) {
        let i = choose|i: int| album.at(name, i);
        assert(album.at(name, i));
        assert(hash_fields_agree(album.files[i].entry@));
    }
}

/// Records that making the thumbnail of `name` failed.
pub fn mark_thumb_failed(album: &mut AlbumMeta, name: &str)
    requires
        old(album).wf(),
    ensures
        updated(
            *old(album),
            *final(album),
            name@,
            FileMetaEntryView { thumb_failed: true, ..old(album).entry_or_blank(name@) },
        ),
        old(album).hashes_agree() ==> final(album).hashes_agree(),
{
    proof {
        if album.hashes_agree() {
            lemma_entry_agrees(*album, name@);
        }
    }
    let mut entry = album.get_or_default(name);
    entry.thumb_failed = true;
    album.put(name, entry);
}

/// Forgets that making the thumbnail of `name` failed.
pub fn clear_thumb_failed(album: &mut AlbumMeta, name: &str)
    requires
        old(album).wf(),
    ensures
        updated(
            *old(album),
            *final(album),
            name@,
            FileMetaEntryView { thumb_failed: false, ..old(album).entry_or_blank(name@) },
        ),
        old(album).hashes_agree() ==> final(album).hashes_agree(),
{
    proof {
        if album.hashes_agree() {
            lemma_entry_agrees(*album, name@);
        }
    }
    let mut entry = album.get_or_default(name);
    entry.thumb_failed = false;
    album.put(name, entry);
}

/// Records that reading the metadata of `name` failed.
pub fn mark_meta_failed(album: &mut AlbumMeta, name: &str)
    requires
        old(album).wf(),
    ensures
        updated(
            *old(album),
            *final(album),
            name@,
            FileMetaEntryView { meta_failed: true, ..old(album).entry_or_blank(name@) },
        ),
        old(album).hashes_agree() ==> final(album).hashes_agree(),
{
    proof {
        if album.hashes_agree() {
            lemma_entry_agrees(*album, name@);
        }
    }
    let mut entry = album.get_or_default(name);
    entry.meta_failed = true;
    album.put(name, entry);
}

/// Whether making the thumbnail of `name` is known to have failed.
pub fn is_thumb_failed(album: &AlbumMeta, name: &str) -> (r: bool)
    requires
        album.wf(),
    ensures
        r == album.entry_or_blank(name@).thumb_failed,
{
    match album.get(name) {
        Some(e) => e.thumb_failed,
        None => false,
    }
}

/// Whether reading the metadata of `name` is known to have failed.
pub fn is_meta_failed(album: &AlbumMeta, name: &str) -> (r: bool)
    requires
        album.wf(),
    ensures
        r == album.entry_or_blank(name@).meta_failed,
{
    match album.get(name) {
        Some(e) => e.meta_failed,
        None => false,
    }
}

/// Records that hashing `name` failed, and drops whatever hash was kept.
pub fn mark_hash_failed(album: &mut AlbumMeta, name: &str)
    requires
        old(album).wf(),
    ensures
        updated(
            *old(album),
            *final(album),
            name@,
            FileMetaEntryView {
                hash: None,
                hash_version: None,
                hash_bits: None,
                hash_failed: true,
                ..old(album).entry_or_blank(name@)
            },
        ),
        old(album).hashes_agree() ==> final(album).hashes_agree(),
{
    let mut entry = album.get_or_default(name);
    entry.hash = None;
    entry.hash_version = None;
    entry.hash_bits = None;
    entry.hash_failed = true;
    album.put(name, entry);
}

/// The hash kept for `name`, with its version and bit count.
pub fn load_album_file_hash(album: &AlbumMeta, name: &str) -> (r: Option<CachedHash>)
    requires
        album.wf(),
    ensures
        match r {
            Some(c) => {
                let e = album.entry_or_blank(name@);
                &&& e.hash == Some(c.hash@)
                &&& opt_text(c.version) == e.hash_version
                &&& c.bits == e.hash_bits
            },
            None => album.entry_or_blank(name@).hash is None,
        },
{
    match album.get(name) {
        Some(e) => match &e.hash {
            Some(h) => Some(
                CachedHash {
                    hash: h.clone(),
                    version: copy_text(&e.hash_version),
                    bits: e.hash_bits,
                },
            ),
            None => None,
        },
        None => None,
    }
}

/// Keeps a hash for `name`, with its version and bit count. Hashing is no
/// longer marked as failed; everything else of the record stays, the mark
/// of failed metadata too. The hash fields of the sidecar go on to agree
/// where the hash is the base64 text of `hash_bits` bits.
pub fn write_album_file_hash(
    album: &mut AlbumMeta,
    name: &str,
    hash_b64: String,
    hash_version: String,
    hash_bits: u32,
)
    requires
        old(album).wf(),
    ensures
        updated(
            *old(album),
            *final(album),
            name@,
            FileMetaEntryView {
                hash: Some(hash_b64@),
                hash_version: Some(hash_version@),
                hash_bits: Some(hash_bits),
                hash_failed: false,
                ..old(album).entry_or_blank(name@)
            },
        ),
        old(album).hashes_agree() && hash_has_bits(hash_b64@, hash_bits) ==> final(album).hashes_agree(),
{
    let mut entry = album.get_or_default(name);
    entry.hash = Some(hash_b64);
    entry.hash_version = Some(hash_version);
    entry.hash_bits = Some(hash_bits);
    entry.hash_failed = false;
    album.put(name, entry);
}

/// The version of the thumbnail that was made for `name`.
pub fn load_thumb_version(album: &AlbumMeta, name: &str) -> (r: Option<String>)
    requires
        album.wf(),
    ensures
        opt_text(r) == album.entry_or_blank(name@).thumb_version,
{
    match album.get(name) {
        Some(e) => copy_text(&e.thumb_version),
        None => None,
    }
}

/// Records the version of the thumbnail just made for `name`; making it is
/// no longer marked as failed.
pub fn write_thumb_version(album: &mut AlbumMeta, name: &str, thumb_version: &str)
    requires
        old(album).wf(),
    ensures
        updated(
            *old(album),
            *final(album),
            name@,
            FileMetaEntryView {
                thumb_version: Some(thumb_version@),
                thumb_failed: false,
                ..old(album).entry_or_blank(name@)
            },
        ),
        old(album).hashes_agree() ==> final(album).hashes_agree(),
{
    proof {
        if album.hashes_agree() {
            lemma_entry_agrees(*album, name@);
        }
    }
    let mut entry = album.get_or_default(name);
    entry.thumb_version = Some(thumb_version.to_owned());
    entry.thumb_failed = false;
    album.put(name, entry);
}

/// Sets or clears the favorite flag of `name`.
pub fn set_favorite(album: &mut AlbumMeta, name: &str, favorite: bool)
    requires
        old(album).wf(),
    ensures
        updated(
            *old(album),
            *final(album),
            name@,
            FileMetaEntryView { favorite, ..old(album).entry_or_blank(name@) },
        ),
        old(album).hashes_agree() ==> final(album).hashes_agree(),
{
    proof {
        if album.hashes_agree() {
            lemma_entry_agrees(*album, name@);
        }
    }
    let mut entry = album.get_or_default(name);
    entry.favorite = favorite;
    album.put(name, entry);
}

/// Keeps packed metadata for `name`; reading it is no longer marked as
/// failed.
pub fn write_file_meta(album: &mut AlbumMeta, name: &str, packed: &str)
    requires
        old(album).wf(),
    ensures
        updated(
            *old(album),
            *final(album),
            name@,
            FileMetaEntryView {
                meta: Some(packed@),
                meta_failed: false,
                ..old(album).entry_or_blank(name@)
            },
        ),
        old(album).hashes_agree() ==> final(album).hashes_agree(),
{
    proof {
        if album.hashes_agree() {
            lemma_entry_agrees(*album, name@);
        }
    }
    let mut entry = album.get_or_default(name);
    entry.meta = Some(packed.to_owned());
    entry.meta_failed = false;
    album.put(name, entry);
}

/// The favorite field of a listing entry: present only for a favorite.
pub open spec fn favorite_mark(favorite: bool) -> Option<bool> {
    if favorite {
        Some(true)
    } else {
        None
    }
}

/// The cached metadata of `name` with its favorite flag, where the sidecar
/// holds metadata for it.
pub fn get_metadata_with_favorite(album: &AlbumMeta, name: &str) -> (r: Option<StoredMetadata>)
    requires
        album.wf(),
    ensures
        match r {
            Some(m) => album.entry_or_blank(name@).meta == Some(m.meta@) && m.favorite
                == album.entry_or_blank(name@).favorite,
            None => album.entry_or_blank(name@).meta is None,
        },
{
    match album.get(name) {
        Some(e) => match &e.meta {
            Some(meta) => Some(StoredMetadata { meta: meta.clone(), favorite: e.favorite }),
            None => None,
        },
        None => None,
    }
}

/// The cached packed metadata of `name`, where the sidecar holds it.
pub fn get_file_metadata_cached(album: &AlbumMeta, name: &str) -> (r: Option<String>)
    requires
        album.wf(),
    ensures
        opt_text(r) == album.entry_or_blank(name@).meta,
{
    match get_metadata_with_favorite(album, name) {
        Some(m) => Some(m.meta),
        None => None,
    }
}

/// What a probe of the media container found.
#[derive(Clone, Copy, Debug, PartialEq, Eq)]
pub struct ProbeInfo {
    /// The container's creation time, in seconds since the epoch.
    pub shoot: Option<u64>,
    pub width: Option<u32>,
    pub height: Option<u32>,
}

/// What was gathered about a file before its metadata is packed.
#[derive(Clone, Copy, Debug, PartialEq, Eq)]
pub struct FileFacts {
    /// The file's creation time, in seconds since the epoch.
    pub added: Option<u64>,
    /// The timestamp stored on the file itself.
    pub embedded_shoot: Option<u64>,
    /// The result of the container probe, where one was run.
    pub probe: Option<ProbeInfo>,
    /// The timestamp of the image tags.
    pub exif_shoot: Option<u64>,
}

/// The metadata of a file, from what was gathered about it. The flags come
/// from the extension. The shoot time is the first that is there of: the
/// time stored on the file, the container's creation time, and, for an
/// image, the time of its tags. A probe counts only for a media file.
pub open spec fn extracted_meta(name: Seq<char>, facts: FileFacts) -> DetachedFileMeta {
    let kind = media_kind_of(name);
    let is_image = kind == MediaKind::Image;
    let is_video = kind == MediaKind::Video;
    let probe = if is_image || is_video {
        facts.probe
    } else {
        None
    };
    let probe_shoot = match probe {
        Some(p) => p.shoot,
        None => None,
    };
    DetachedFileMeta {
        a: facts.added,
        s: if facts.embedded_shoot is Some {
            facts.embedded_shoot
        } else if probe_shoot is Some {
            probe_shoot
        } else if is_image {
            facts.exif_shoot
        } else {
            None
        },
        i: is_image,
        v: is_video,
        w: match probe {
            Some(p) => p.width,
            None => None,
        },
        h: match probe {
            Some(p) => p.height,
            None => None,
        },
    }
}

/// Whether the tags of a file have to be read for its shoot time: the file
/// is an image and neither the time stored on it nor the probe gives one.
pub open spec fn wants_tag_time(
    name: Seq<char>,
    embedded_shoot: Option<u64>,
    probe: Option<ProbeInfo>,
) -> bool {
    &&& media_kind_of(name) == MediaKind::Image
    &&& embedded_shoot is None
    &&& match probe {
        Some(p) => p.shoot is None,
        None => true,
    }
}

/// Whether the container of a file is probed: it is an image or a video.
pub fn needs_probe(name: &str) -> (r: bool)
    ensures
        r == (media_kind_of(name@) == MediaKind::Image || media_kind_of(name@) == MediaKind::Video),
{
    match media_kind(name) {
        MediaKind::Image => true,
        MediaKind::Video => true,
        _ => false,
    }
}

/// Whether the tags of a file have to be read for its shoot time.
pub fn needs_tag_time(name: &str, embedded_shoot: Option<u64>, probe: Option<ProbeInfo>) -> (r: bool)
    ensures
        r == wants_tag_time(name@, embedded_shoot, probe),
{
    let is_image: bool = match media_kind(name) {
        MediaKind::Image => true,
        _ => false,
    };
    let probed: bool = match probe {
        Some(p) => p.shoot.is_some(),
        None => false,
    };
    is_image && embedded_shoot.is_none() && !probed
}

/// Where the tags need not be read, the metadata does not depend on them;
/// and the probe of a file that is not probed counts for nothing.
pub proof fn lemma_unread_facts_unused(
    name: Seq<char>,
    facts: FileFacts,
    tag_time: Option<u64>,
    probe: Option<ProbeInfo>,
)
    ensures
        !wants_tag_time(name, facts.embedded_shoot, facts.probe) ==> extracted_meta(
            name,
            FileFacts { exif_shoot: tag_time, ..facts },
        ) == extracted_meta(name, facts),
        media_kind_of(name) != MediaKind::Image && media_kind_of(name) != MediaKind::Video
            ==> extracted_meta(name, FileFacts { probe, ..facts }) == extracted_meta(name, facts),
{
}

/// The metadata of a file, from what was gathered about it.
pub fn extract_meta(name: &str, facts: &FileFacts) -> (m: DetachedFileMeta)
    ensures
        m == extracted_meta(name@, *facts),
{
    let kind = media_kind(name);
    let is_image: bool = match kind {
        MediaKind::Image => true,
        _ => false,
    };
    let is_video: bool = match kind {
        MediaKind::Video => true,
        _ => false,
    };
    let probe: Option<ProbeInfo> = if is_image || is_video {
        facts.probe
    } else {
        None
    };
    let probe_shoot: Option<u64> = match probe {
        Some(p) => p.shoot,
        None => None,
    };
    let shoot: Option<u64> = if facts.embedded_shoot.is_some() {
        facts.embedded_shoot
    } else if probe_shoot.is_some() {
        probe_shoot
    } else if is_image {
        facts.exif_shoot
    } else {
        None
    };
    DetachedFileMeta {
        a: facts.added,
        s: shoot,
        i: is_image,
        v: is_video,
        w: match probe {
            Some(p) => p.width,
            None => None,
        },
        h: match probe {
            Some(p) => p.height,
            None => None,
        },
    }
}

/// Packs the metadata of `name` from what was gathered about it and keeps
/// it in the sidecar, where reading it is no longer marked as failed.
pub fn get_file_metadata(album: &mut AlbumMeta, name: &str, facts: &FileFacts) -> (packed: String)
    requires
        old(album).wf(),
    ensures
        packed@ == pack_text(extracted_meta(name@, *facts)),
        updated(
            *old(album),
            *final(album),
            name@,
            FileMetaEntryView {
                meta: Some(packed@),
                meta_failed: false,
                ..old(album).entry_or_blank(name@)
            },
        ),
        old(album).hashes_agree() ==> final(album).hashes_agree(),
{
    let packed = extract_meta(name, facts).pack();
    write_file_meta(album, name, packed.as_str());
    packed
}

/// Marks or unmarks `name` as a favorite, after its metadata was packed
/// anew from `facts`. The sidecar keeps the metadata it had, or the new one
/// where it had none; the entry returned carries the new one.
pub fn set_media_favorite(
    album: &mut AlbumMeta,
    name: &str,
    favorite: bool,
    facts: &FileFacts,
) -> (entry: DetachedMediaEntry)
    requires
        old(album).wf(),
    ensures
        entry.meta@ == pack_text(extracted_meta(name@, *facts)),
        entry.name@ == name@,
        entry.favorite == favorite_mark(favorite),
        updated(
            *old(album),
            *final(album),
            name@,
            FileMetaEntryView {
                meta: Some(entry.meta@),
                meta_failed: false,
                favorite,
                ..old(album).entry_or_blank(name@)
            },
        ),
        old(album).hashes_agree() ==> final(album).hashes_agree(),
{
    let ghost before = *album;
    let packed = get_file_metadata(album, name, facts);
    let ghost mid = *album;
    set_favorite(album, name, favorite);
    proof {
        let after = *album;
        assert forall|other: Seq<char>| other != name@ implies after.entry(other) == before.entry(
            other,
        ) by {
            assert(mid.entry(other) == before.entry(other));
        }
    }
    DetachedMediaEntry {
        meta: packed,
        name: name.to_owned(),
        favorite: if favorite {
            Some(true)
        } else {
            None
        },
    }
}

/// A wire form with its shoot time replaced by `timestamp`.
pub open spec fn retimed_text(packed: Seq<char>, timestamp: u64) -> Option<Seq<char>> {
    match unpack_text(packed) {
        Some(m) => Some(pack_text(DetachedFileMeta { s: Some(timestamp), ..m })),
        None => None,
    }
}

/// Sets the shoot time of `name`, whose packed metadata so far is
/// `meta_str`, and keeps the new packed form in the sidecar. Where
/// `meta_str` is no packed form, nothing changes.
pub fn set_media_timestamp(
    album: &mut AlbumMeta,
    name: &str,
    meta_str: &str,
    timestamp: u64,
) -> (r: Result<DetachedMediaEntry, Error>)
    requires
        old(album).wf(),
    ensures
        match retimed_text(meta_str@, timestamp) {
            Some(packed) => {
                &&& r is Ok
                &&& r->Ok_0.meta@ == packed
                &&& r->Ok_0.name@ == name@
                &&& r->Ok_0.favorite == favorite_mark(old(album).entry_or_blank(name@).favorite)
                &&& updated(
                    *old(album),
                    *final(album),
                    name@,
                    FileMetaEntryView {
                        meta: Some(packed),
                        meta_failed: false,
                        ..old(album).entry_or_blank(name@)
                    },
                )
            },
            None => r == Err::<DetachedMediaEntry, Error>(Error::InvalidPackedMeta) && *final(album)
                == *old(album),
        },
        old(album).hashes_agree() ==> final(album).hashes_agree(),
{
    let unpacked = unpack_file_meta(meta_str);
    match unpacked {
        Ok(m) => {
            let mut meta = m;
            meta.s = Some(timestamp);
            let packed = meta.pack();
            let favorite = match album.get(name) {
                Some(e) => e.favorite,
                None => false,
            };
            write_file_meta(album, name, packed.as_str());
            Ok(
                DetachedMediaEntry {
                    meta: packed,
                    name: name.to_owned(),
                    favorite: if favorite {
                        Some(true)
                    } else {
                        None
                    },
                },
            )
        },
        Err(e) => Err(Error::InvalidPackedMeta),
    }
}

/// The directory that holds the sidecar records of an album.
pub fn meta_dir(dir: &str) -> (r: String)
    ensures
        r@ == joined(dir@, ".room237-metadata"@),
{
    join(dir, ".room237-metadata")
}

/// The path of the album-level record.
pub fn album_meta_path(dir: &str) -> (r: String)
    ensures
        r@ == joined(joined(dir@, ".room237-metadata"@), "album.json"@),
{
    let d = meta_dir(dir);
    join(d.as_str(), "album.json")
}

/// The path of the record of `name`.
pub fn file_meta_path(dir: &str, name: &str) -> (r: String)
    ensures
        r@ == joined(joined(dir@, ".room237-metadata"@), name@ + ".meta"@),
{
    let d = meta_dir(dir);
    let mut file = chars_of(name);
    append_str(&mut file, ".meta");
    let file_name = string_of(&file);
    join(d.as_str(), file_name.as_str())
}

/// The name of the file that a sidecar record is for: the record's file
/// name without its `.meta`; none for a file of another kind.
pub open spec fn record_name(file_name: Seq<char>) -> Option<Seq<char>> {
    if ".meta"@.is_suffix_of(file_name) {
        Some(file_name.subrange(0, file_name.len() - ".meta"@.len()))
    } else {
        None
    }
}

/// The record that the first `n` record files give for `name`: that of the
/// last file for it.
pub open spec fn loaded_upto(records: Seq<FileRecord>, name: Seq<char>, n: int) -> Option<
    FileMetaEntryView,
>
    decreases n,
{
    if n <= 0 {
        None
    } else if record_name(records[n - 1].name@) == Some(name) {
        Some(records[n - 1].entry@)
    } else {
        loaded_upto(records, name, n - 1)
    }
}

/// The sidecar state of an album, put together from what its sidecar
/// directory holds: the ignored pairs of the album-level record, and a
/// record for each file named `<name>.meta`, under that name.
pub fn read_album_meta(duplicates_ignore: Vec<(String, String)>, records: &Vec<FileRecord>) -> (album:
    AlbumMeta)
    ensures
        album.wf(),
        album.duplicates_ignore == duplicates_ignore,
        forall|name: Seq<char>|
            album.entry(name) == loaded_upto(records@, name, records@.len() as int),
{
    let mut album = AlbumMeta::new();
    album.duplicates_ignore = duplicates_ignore;
    let suffix = chars_of(".meta");
    let mut i: usize = 0;
    proof {
        assert forall|name: Seq<char>| album.entry(name) == loaded_upto(records@, name, 0) by {
            assert(!album.has(name));
        }
    }
    while i < records.len()
        invariant
            i <= records.len(),
            suffix@ == ".meta"@,
            album.wf(),
            album.duplicates_ignore == duplicates_ignore,
            forall|name: Seq<char>| album.entry(name) == loaded_upto(records@, name, i as int),
        decreases records.len() - i,
    {
        let ghost before = album;
        let file = chars_of(records[i].name.as_str());
        if has_suffix(&file, &suffix) {
            let stem = string_of(&slice_of(&file, 0, file.len() - suffix.len()));
            album.put(stem.as_str(), records[i].entry.copy());
            proof {
                assert forall|name: Seq<char>| album.entry(name) == loaded_upto(
                    records@,
                    name,
                    i + 1,
                ) by {
                    if name != stem@ {
                        assert(album.entry(name) == before.entry(name));
                    }
                }
            }
        } else {
            proof {
                assert forall|name: Seq<char>| album.entry(name) == loaded_upto(
                    records@,
                    name,
                    i + 1,
                ) by {
                    assert(album.entry(name) == before.entry(name));
                }
            }
        }
        i += 1;
    }
    album
}

/// The album-level record of a sidecar: its ignored pairs, nothing of its
/// files.
pub fn write_album_meta(data: &AlbumMeta) -> (record: AlbumMeta)
    ensures
        record.wf(),
        record.files@.len() == 0,
        record.duplicates_ignore@.len() == data.duplicates_ignore@.len(),
        forall|i: int|
            0 <= i < record.duplicates_ignore@.len() ==> (#[trigger] record.duplicates_ignore@[i])
                == data.duplicates_ignore@[i],
{
    let mut record = AlbumMeta::new();
    let mut i: usize = 0;
    while i < data.duplicates_ignore.len()
        invariant
            i <= data.duplicates_ignore@.len(),
            record.wf(),
            record.files@.len() == 0,
            record.duplicates_ignore@.len() == i,
            forall|k: int|
                0 <= k < i ==> (#[trigger] record.duplicates_ignore@[k])
                    == data.duplicates_ignore@[k],
        decreases data.duplicates_ignore@.len() - i,
    {
        let pair = &data.duplicates_ignore[i];
        record.duplicates_ignore.push((pair.0.clone(), pair.1.clone()));
        i += 1;
    }
    record
}

/// Forgets the ignored pairs of an album. Tells whether there were any.
pub fn reset_duplicates(album: &mut AlbumMeta) -> (cleared: bool)
    ensures
        cleared == (old(album).duplicates_ignore@.len() > 0),
        final(album).duplicates_ignore@.len() == 0,
        final(album).files == old(album).files,
{
    if album.duplicates_ignore.len() == 0 {
        return false;
    }
    album.duplicates_ignore = Vec::new();
    true
}

} // verus!
