//! The near-duplicate finder: which files count as hashed, which pairs are
//! set aside, and how a hash is obtained and kept.

use crate::hashbits::{
    base64_decoded, bits_of_decoded, blocks_from_bits, blocks_of,
    decode_hash_bits_base64, encode_base64, hash_to_chunks,
};
use crate::metadata::{
    mark_hash_failed, updated, write_album_file_hash, AlbumMeta, FileMetaEntry,
    FileMetaEntryView,
};
use crate::error::Error;
use crate::graph::Graph;
use crate::grouping::{are_groups, graph_of, group_duplicates, names_of};
use crate::settings::HashConfig;
use crate::util::{media_kind, media_kind_of, MediaKind};
use crate::text::{
    lemma_lex_antisym, lemma_lex_total, lex_le, same_text, str_eq, str_le, string_texts,
};
use vstd::prelude::*;

verus! {

/// A pair of names in canonical order: the smaller first.
pub open spec fn key_of(a: Seq<char>, b: Seq<char>) -> (Seq<char>, Seq<char>) {
    if lex_le(a, b) {
        (a, b)
    } else {
        (b, a)
    }
}

/// The texts of a pair of names.
pub open spec fn pair_text(p: (String, String)) -> (Seq<char>, Seq<char>) {
    (p.0@, p.1@)
}

/// The canonical keys of a list of pairs.
pub open spec fn ignore_keys(list: Seq<(String, String)>) -> Set<(Seq<char>, Seq<char>)> {
    Set::new(
        |k: (Seq<char>, Seq<char>)|
            exists|i: int| 0 <= i < list.len() && #[trigger] key_of(list[i].0@, list[i].1@) == k,
    )
}

/// Whether the pair of `a` and `b`, in either order, is set aside.
pub open spec fn is_ignored(keys: Set<(Seq<char>, Seq<char>)>, a: Seq<char>, b: Seq<char>) -> bool {
    keys.contains(key_of(a, b))
}

/// Every pair of the list is in canonical order, and none stands twice.
pub open spec fn ignore_canonical(list: Seq<(String, String)>) -> bool {
    &&& forall|i: int| 0 <= i < list.len() ==> lex_le((#[trigger] list[i]).0@, list[i].1@)
    &&& forall|i: int, j: int|
        0 <= i < j < list.len() ==> pair_text(#[trigger] list[i]) != pair_text(#[trigger] list[j])
}

/// The canonical key of a pair does not depend on the order of the two.
pub proof fn lemma_key_symmetric(a: Seq<char>, b: Seq<char>)
    ensures
        key_of(a, b) == key_of(b, a),
        lex_le(key_of(a, b).0, key_of(a, b).1),
{
    lemma_lex_total(a, b);
    if lex_le(a, b) && lex_le(b, a) {
        lemma_lex_antisym(a, b);
    }
}

/// Setting pairs aside is symmetric: a pair is set aside in one order
/// exactly when it is in the other.
pub proof fn lemma_ignored_symmetric(keys: Set<(Seq<char>, Seq<char>)>, a: Seq<char>, b: Seq<char>)
    ensures
        is_ignored(keys, a, b) == is_ignored(keys, b, a),
{
    lemma_key_symmetric(a, b);
}

/// The pair of two names in canonical order.
pub fn pair_key(a: &str, b: &str) -> (key: (String, String))
    ensures
        pair_text(key) == key_of(a@, b@),
{
    if str_le(a, b) {
        (a.to_owned(), b.to_owned())
    } else {
        (b.to_owned(), a.to_owned())
    }
}

/// Whether a list of pairs holds `key` as it stands.
fn holds_pair(list: &Vec<(String, String)>, key: &(String, String)) -> (r: bool)
    ensures
        r == exists|i: int| 0 <= i < list@.len() && pair_text(#[trigger] list@[i]) == pair_text(*key),
{
    let mut i: usize = 0;
    while i < list.len()
        invariant
            i <= list.len(),
            forall|j: int| 0 <= j < i ==> pair_text(#[trigger] list@[j]) != pair_text(*key),
        decreases list.len() - i,
    {
        if same_text(&list[i].0, &key.0) && same_text(&list[i].1, &key.1) {
            return true;
        }
        i += 1;
    }
    false
}

/// A pair is set aside exactly when the list holds it in one order or the
/// other.
pub proof fn lemma_lookup_either_order(list: Seq<(String, String)>, a: Seq<char>, b: Seq<char>)
    ensures
        is_ignored(ignore_keys(list), a, b) <==> exists|i: int|
            0 <= i < list.len() && (pair_text(#[trigger] list[i]) == (a, b) || pair_text(list[i]) == (
                b,
                a,
            )),
{
    let k = key_of(a, b);
    lemma_key_symmetric(a, b);
    if is_ignored(ignore_keys(list), a, b) {
        let i = choose|i: int| 0 <= i < list.len() && #[trigger] key_of(list[i].0@, list[i].1@) == k;
        lemma_key_symmetric(list[i].0@, list[i].1@);
        assert(pair_text(list[i]) == (a, b) || pair_text(list[i]) == (b, a));
    }
    if exists|i: int|
        0 <= i < list.len() && (pair_text(#[trigger] list[i]) == (a, b) || pair_text(list[i]) == (
            b,
            a,
        )) {
        let i = choose|i: int|
            0 <= i < list.len() && (pair_text(#[trigger] list[i]) == (a, b) || pair_text(list[i])
                == (b, a));
        lemma_key_symmetric(list[i].0@, list[i].1@);
        assert(key_of(list[i].0@, list[i].1@) == k);
    }
}

/// Whether a list of pairs sets the pair of `a` and `b` aside, in either
/// order.
pub fn sets_aside(list: &Vec<(String, String)>, a: &String, b: &String) -> (r: bool)
    ensures
        r == is_ignored(ignore_keys(list@), a@, b@),
{
    let mut i: usize = 0;
    while i < list.len()
        invariant
            i <= list.len(),
            forall|j: int|
                0 <= j < i ==> pair_text(#[trigger] list@[j]) != (a@, b@) && pair_text(list@[j]) != (
                    b@,
                    a@,
                ),
        decreases list.len() - i,
    {
        let pair = &list[i];
        if (same_text(&pair.0, a) && same_text(&pair.1, b)) || (same_text(&pair.0, b) && same_text(
            &pair.1,
            a,
        )) {
            proof {
                assert(pair_text(list@[i as int]) == (a@, b@) || pair_text(list@[i as int]) == (
                    b@,
                    a@,
                ));
                lemma_lookup_either_order(list@, a@, b@);
            }
            return true;
        }
        i += 1;
    }
    proof {
        lemma_lookup_either_order(list@, a@, b@);
    }
    false
}

/// Adds `key` to a canonical list unless it stands there already.
fn insert_pair(list: &mut Vec<(String, String)>, key: (String, String))
    requires
        ignore_canonical(old(list)@),
        lex_le(key.0@, key.1@),
    ensures
        ignore_canonical(final(list)@),
        ignore_keys(final(list)@) == ignore_keys(old(list)@).insert(pair_text(key)),
{
    let ghost before = list@;
    let ghost k = pair_text(key);
    if holds_pair(list, &key) {
        proof {
            let i = choose|i: int| 0 <= i < before.len() && pair_text(#[trigger] before[i]) == k;
            assert(key_of(before[i].0@, before[i].1@) == k);
            assert(ignore_keys(before).contains(k));
            assert(ignore_keys(before) =~= ignore_keys(before).insert(k));
        }
        return ;
    }
    list.push(key);
    proof {
        let after = list@;
        assert forall|i: int, j: int| 0 <= i < j < after.len() implies pair_text(
            #[trigger] after[i],
        ) != pair_text(#[trigger] after[j]) by {
            assert(after[i] == before[i]);
            if j < before.len() {
                assert(after[j] == before[j]);
            }
        }
        assert forall|x: (Seq<char>, Seq<char>)|
            ignore_keys(after).contains(x) <==> ignore_keys(before).insert(k).contains(x) by {
            if ignore_keys(after).contains(x) {
                let i = choose|i: int|
                    0 <= i < after.len() && #[trigger] key_of(after[i].0@, after[i].1@) == x;
                if i < before.len() {
                    assert(after[i] == before[i]);
                    assert(key_of(before[i].0@, before[i].1@) == x);
                }
            }
            if ignore_keys(before).contains(x) {
                let i = choose|i: int|
                    0 <= i < before.len() && #[trigger] key_of(before[i].0@, before[i].1@) == x;
                assert(after[i] == before[i]);
                assert(key_of(after[i].0@, after[i].1@) == x);
            }
            if x == k {
                let last = before.len() as int;
                assert(key_of(after[last].0@, after[last].1@) == x);
            }
        }
        assert(ignore_keys(after) =~= ignore_keys(before).insert(k));
    }
}

/// The pairs that an album sets aside, each in canonical order and once.
pub fn load_ignore_set(album: &AlbumMeta) -> (set: Vec<(String, String)>)
    ensures
        ignore_canonical(set@),
        ignore_keys(set@) == ignore_keys(album.duplicates_ignore@),
{
    let mut set: Vec<(String, String)> = Vec::new();
    let mut i: usize = 0;
    assert(ignore_keys(set@) =~= ignore_keys(album.duplicates_ignore@.take(0)));
    while i < album.duplicates_ignore.len()
        invariant
            i <= album.duplicates_ignore.len(),
            ignore_canonical(set@),
            ignore_keys(set@) == ignore_keys(album.duplicates_ignore@.take(i as int)),
        decreases album.duplicates_ignore.len() - i,
    {
        let pair = &album.duplicates_ignore[i];
        let key = pair_key(pair.0.as_str(), pair.1.as_str());
        proof {
            lemma_key_symmetric(pair.0@, pair.1@);
            lemma_take_keys(album.duplicates_ignore@, i as int);
        }
        insert_pair(&mut set, key);
        i += 1;
    }
    assert(album.duplicates_ignore@.take(i as int) =~= album.duplicates_ignore@);
    set
}

/// The keys of a beginning that is one pair longer.
proof fn lemma_take_keys(list: Seq<(String, String)>, i: int)
    requires
        0 <= i < list.len(),
    ensures
        ignore_keys(list.take(i + 1)) == ignore_keys(list.take(i)).insert(
            key_of(list[i].0@, list[i].1@),
        ),
{
    let a = list.take(i);
    let b = list.take(i + 1);
    let k = key_of(list[i].0@, list[i].1@);
    assert forall|x: (Seq<char>, Seq<char>)|
        ignore_keys(b).contains(x) <==> ignore_keys(a).insert(k).contains(x) by {
        if ignore_keys(b).contains(x) {
            let j = choose|j: int| 0 <= j < b.len() && #[trigger] key_of(b[j].0@, b[j].1@) == x;
            if j < i {
                assert(a[j] == b[j]);
                assert(key_of(a[j].0@, a[j].1@) == x);
            }
        }
        if ignore_keys(a).contains(x) {
            let j = choose|j: int| 0 <= j < a.len() && #[trigger] key_of(a[j].0@, a[j].1@) == x;
            assert(a[j] == b[j]);
            assert(key_of(b[j].0@, b[j].1@) == x);
        }
        if x == k {
            assert(key_of(b[i].0@, b[i].1@) == x);
        }
    }
    assert(ignore_keys(b) =~= ignore_keys(a).insert(k));
}

/// Makes `set` the pairs that the album sets aside.
pub fn save_ignore_set(album: &mut AlbumMeta, set: Vec<(String, String)>)
    ensures
        final(album).duplicates_ignore == set,
        final(album).files == old(album).files,
{
    album.duplicates_ignore = set;
}

/// The keys of all pairs of two different positions of `files`.
pub open spec fn cross_keys(files: Seq<String>) -> Set<(Seq<char>, Seq<char>)> {
    Set::new(
        |k: (Seq<char>, Seq<char>)|
            exists|i: int, j: int|
                0 <= i < j < files.len() && #[trigger] key_of(files[i]@, files[j]@) == k,
    )
}

/// The keys of the pairs `(i, j)` of `files` that a scan has passed when it
/// stands at `(row, col)`: those of the rows before `row`, and in `row`
/// those before `col`.
pub open spec fn passed_keys(files: Seq<String>, row: int, col: int) -> Set<
    (Seq<char>, Seq<char>),
> {
    Set::new(
        |k: (Seq<char>, Seq<char>)|
            exists|i: int, j: int|
                0 <= i < j < files.len() && (i < row || (i == row && j < col)) && #[trigger] key_of(
                    files[i]@,
                    files[j]@,
                ) == k,
    )
}

/// Sets aside every pair among `files`. The album afterwards sets aside
/// what it did before and each pair of two of the files, and keeps these
/// pairs in canonical order, each once: with fewer than two files it sets
/// aside the same pairs as before, tidied.
pub fn mark_non_duplicates(album: &mut AlbumMeta, files: &Vec<String>)
    ensures
        final(album).files == old(album).files,
        ignore_canonical(final(album).duplicates_ignore@),
        ignore_keys(final(album).duplicates_ignore@) == ignore_keys(
            old(album).duplicates_ignore@,
        ).union(
            cross_keys(files@),
        ),
{
    let ghost start = ignore_keys(album.duplicates_ignore@);
    let mut set = load_ignore_set(album);
    let mut i: usize = 0;
    assert(passed_keys(files@, 0, 0) =~= Set::<(Seq<char>, Seq<char>)>::empty());
    assert(start.union(passed_keys(files@, 0, 0)) =~= start);
    while i < files.len()
        invariant
            i <= files.len(),
            ignore_canonical(set@),
            ignore_keys(set@) == start.union(passed_keys(files@, i as int, 0)),
        decreases files.len() - i,
    {
        let mut j: usize = i + 1;
        assert(passed_keys(files@, i as int, i + 1) =~= passed_keys(files@, i as int, 0));
        while j < files.len()
            invariant
                i < j <= files.len(),
                ignore_canonical(set@),
                ignore_keys(set@) == start.union(passed_keys(files@, i as int, j as int)),
            decreases files.len() - j,
        {
            let key = pair_key(files[i].as_str(), files[j].as_str());
            proof {
                lemma_key_symmetric(files@[i as int]@, files@[j as int]@);
                let k = key_of(files@[i as int]@, files@[j as int]@);
                assert(passed_keys(files@, i as int, j + 1) =~= passed_keys(
                    files@,
                    i as int,
                    j as int,
                ).insert(k));
                assert(start.union(passed_keys(files@, i as int, j as int)).insert(k)
                    =~= start.union(passed_keys(files@, i as int, j + 1)));
            }
            insert_pair(&mut set, key);
            j += 1;
        }
        assert(passed_keys(files@, i + 1, 0) =~= passed_keys(files@, i as int, files@.len() as int));
        i += 1;
    }
    assert(passed_keys(files@, files@.len() as int, 0) =~= cross_keys(files@));
    save_ignore_set(album, set);
}

/// The words of the hash that a record caches for the configuration `cfg`:
/// its version and its bit count are those of `cfg`, and its text decodes
/// to exactly that many bits.
pub open spec fn cached_bits(e: Option<FileMetaEntryView>, cfg: HashConfig) -> Option<Seq<u64>> {
    match e {
        Some(e) => if e.hash_version != Some(cfg.hash_version@) {
            None
        } else if e.hash_bits != Some(cfg.bits) {
            None
        } else {
            match e.hash {
                Some(h) => bits_of_decoded(base64_decoded(h), cfg.bits),
                None => None,
            }
        },
        None => None,
    }
}

/// The words of the hash that a record caches under `cfg`.
pub fn cached_words(entry: &FileMetaEntry, cfg: &HashConfig) -> (r: Option<Vec<u64>>)
    ensures
        match r {
            Some(words) => cached_bits(Some(entry@), *cfg) == Some(words@),
            None => cached_bits(Some(entry@), *cfg) is None,
        },
{
    match &entry.hash_version {
        Some(v) => {
            if !str_eq(v.as_str(), cfg.hash_version.as_str()) {
                return None;
            }
        },
        None => {
            return None;
        },
    }
    match entry.hash_bits {
        Some(bits) => {
            if bits != cfg.bits {
                return None;
            }
        },
        None => {
            return None;
        },
    }
    match &entry.hash {
        Some(h) => decode_hash_bits_base64(h.as_str(), cfg.bits),
        None => None,
    }
}

/// The words of the hash that the sidecar caches for `name` under `cfg`.
pub fn load_cached_bits_from_meta(meta: &AlbumMeta, name: &str, cfg: &HashConfig) -> (r: Option<
    Vec<u64>,
>)
    requires
        meta.wf(),
    ensures
        match r {
            Some(words) => cached_bits(meta.entry(name@), *cfg) == Some(words@),
            None => cached_bits(meta.entry(name@), *cfg) is None,
        },
{
    match meta.get(name) {
        Some(e) => cached_words(e, cfg),
        None => None,
    }
}

/// Whether hashing `name` is known to have failed.
pub fn is_hash_failed_in_meta(meta: &AlbumMeta, name: &str) -> (r: bool)
    requires
        meta.wf(),
    ensures
        r == meta.entry_or_blank(name@).hash_failed,
{
    match meta.get(name) {
        Some(e) => e.hash_failed,
        None => false,
    }
}

/// A hashed file as the duplicate scan sees it.
#[derive(Debug, PartialEq, Eq)]
pub struct Entry {
    pub name: String,
    /// The words of the hash.
    pub bits: Vec<u64>,
    /// The 16-bit blocks of the hash, by which candidates are found.
    pub blocks: Vec<u16>,
}

/// A hashed file with its name as text and its hash as sequences.
pub struct EntryView {
    pub name: Seq<char>,
    pub bits: Seq<u64>,
    pub blocks: Seq<u16>,
}

impl View for Entry {
    type V = EntryView;

    open spec fn view(&self) -> EntryView {
        EntryView { name: self.name@, bits: self.bits@, blocks: self.blocks@ }
    }
}

/// The views of a list of entries.
pub open spec fn entry_views(entries: Seq<Entry>) -> Seq<EntryView> {
    Seq::new(entries.len(), |i: int| entries[i]@)
}

impl Entry {
    /// A hashed file, with the blocks of its hash.
    pub fn new(name: String, bits: Vec<u64>) -> (e: Entry)
        ensures
            e.name == name,
            e.bits == bits,
            e.blocks@ == blocks_of(bits@),
    {
        let blocks = blocks_from_bits(&bits);
        Entry { name, bits, blocks }
    }
}

/// The hash with which `name` takes part in a scan: the cached one, unless
/// hashing the file is marked as failed.
pub open spec fn usable_bits(album: AlbumMeta, name: Seq<char>, cfg: HashConfig) -> Option<
    Seq<u64>,
> {
    if album.entry_or_blank(name).hash_failed {
        None
    } else {
        cached_bits(album.entry(name), cfg)
    }
}

/// Name and hash of each of the first `n` of `names` that takes part in a
/// scan, in the order of `names`.
pub open spec fn hashed_upto(album: AlbumMeta, names: Seq<String>, cfg: HashConfig, n: int) -> Seq<
    (Seq<char>, Seq<u64>),
>
    decreases n,
{
    if n <= 0 {
        Seq::empty()
    } else {
        let before = hashed_upto(album, names, cfg, n - 1);
        match usable_bits(album, names[n - 1]@, cfg) {
            Some(bits) => before.push((names[n - 1]@, bits)),
            None => before,
        }
    }
}

/// Name and hash of each entry.
pub open spec fn entry_hashes(entries: Seq<Entry>) -> Seq<(Seq<char>, Seq<u64>)> {
    Seq::new(entries.len(), |i: int| (entries[i].name@, entries[i].bits@))
}

/// The files among `names` that take part in a duplicate scan, each with
/// its cached hash and the blocks of that hash.
pub fn hashed_entries(album: &AlbumMeta, names: &Vec<String>, cfg: &HashConfig) -> (entries: Vec<
    Entry,
>)
    requires
        album.wf(),
    ensures
        entry_hashes(entries@) == hashed_upto(*album, names@, *cfg, names@.len() as int),
        forall|i: int|
            0 <= i < entries@.len() ==> (#[trigger] entries@[i]).blocks@ == blocks_of(
                entries@[i].bits@,
            ),
{
    let mut entries: Vec<Entry> = Vec::new();
    let mut i: usize = 0;
    assert(entry_hashes(entries@) =~= hashed_upto(*album, names@, *cfg, 0));
    while i < names.len()
        invariant
            i <= names.len(),
            album.wf(),
            entry_hashes(entries@) == hashed_upto(*album, names@, *cfg, i as int),
            forall|k: int|
                0 <= k < entries@.len() ==> (#[trigger] entries@[k]).blocks@ == blocks_of(
                    entries@[k].bits@,
                ),
        decreases names.len() - i,
    {
        let name = &names[i];
        let ghost before = entries@;
        if !is_hash_failed_in_meta(album, name.as_str()) {
            match load_cached_bits_from_meta(album, name.as_str(), cfg) {
                Some(bits) => {
                    entries.push(Entry::new(name.clone(), bits));
                    assert(entry_hashes(entries@) =~= entry_hashes(before).push(
                        (name@, entries@[before.len() as int].bits@),
                    ));
                },
                None => {},
            }
        }
        i += 1;
    }
    entries
}

/// Where the image that is hashed comes from.
#[derive(Clone, Copy, Debug, PartialEq, Eq)]
pub enum HashSource {
    /// The thumbnail of the file.
    Thumbnail,
    /// The file itself.
    Original,
}

/// The source that is tried first.
pub open spec fn first_source(cfg: HashConfig) -> HashSource {
    if cfg.use_thumbnails_first {
        HashSource::Thumbnail
    } else {
        HashSource::Original
    }
}

/// The source that is tried second.
pub open spec fn second_source(cfg: HashConfig) -> HashSource {
    if cfg.use_thumbnails_first {
        HashSource::Original
    } else {
        HashSource::Thumbnail
    }
}

/// How a request for the hash of a file begins.
#[derive(Debug, PartialEq, Eq)]
pub enum HashStep {
    /// The sidecar holds a hash for the configuration: these are its words.
    Cached(Vec<u64>),
    /// An image has to be hashed, from this source first.
    Hash(HashSource),
}

/// How an attempt to hash a file ended.
#[derive(Debug, PartialEq, Eq)]
pub enum HashOutcome {
    /// The hash was accepted and is kept in the sidecar: these are its words.
    Hashed(Vec<u64>),
    /// The attempt failed; the other source is to be tried.
    Retry(HashSource),
    /// Both sources failed; the file is marked in the sidecar.
    Failed,
}

/// The words of freshly made hash bytes, where they are a hash of the
/// configured size.
pub open spec fn accepted_bits(bytes: Option<Seq<u8>>, cfg: HashConfig) -> Option<Seq<u64>> {
    bits_of_decoded(bytes, cfg.bits)
}

/// Begins a request for the hash of `name`: the cached words where the
/// sidecar has them for `cfg`, else the source to hash first.
pub fn compute_hash_for_path(album: &AlbumMeta, name: &str, cfg: &HashConfig) -> (step: HashStep)
    requires
        album.wf(),
    ensures
        match cached_bits(album.entry(name@), *cfg) {
            Some(words) => step matches HashStep::Cached(w) && w@ == words,
            None => step == HashStep::Hash(first_source(*cfg)),
        },
{
    match load_cached_bits_from_meta(album, name, cfg) {
        Some(words) => HashStep::Cached(words),
        None => HashStep::Hash(
            if cfg.use_thumbnails_first {
                HashSource::Thumbnail
            } else {
                HashSource::Original
            },
        ),
    }
}

/// Keeps freshly made hash bytes for `name`: in base64, with the version
/// and the bit count of `cfg`. What is kept is what a later lookup under
/// `cfg` finds.
fn save_hash(album: &mut AlbumMeta, name: &str, bytes: &Vec<u8>, cfg: &HashConfig) -> (words:
    Vec<u64>)
    requires
        old(album).wf(),
        accepted_bits(Some(bytes@), *cfg) is Some,
    ensures
        accepted_bits(Some(bytes@), *cfg) == Some(words@),
        cached_bits(final(album).entry(name@), *cfg) == Some(words@),
        final(album).entry(name@) matches Some(e) && e.hash is Some && base64_decoded(e.hash->0)
            == Some(bytes@) && bytes@.len() * 8 == e.hash_bits->0,
        updated(
            *old(album),
            *final(album),
            name@,
            FileMetaEntryView {
                hash: final(album).entry(name@)->0.hash,
                hash_version: Some(cfg.hash_version@),
                hash_bits: Some(cfg.bits),
                hash_failed: false,
                ..old(album).entry_or_blank(name@)
            },
        ),
        old(album).hashes_agree() ==> final(album).hashes_agree(),
{
    let text = encode_base64(bytes);
    let words = match hash_to_chunks(bytes) {
        Some(w) => w,
        None => Vec::new(),
    };
    write_album_file_hash(album, name, text, cfg.hash_version.clone(), cfg.bits);
    words
}

/// Takes the result of one attempt to hash `name` from `source`: the hash
/// bytes, or nothing where the attempt failed. Bytes that are a hash of the
/// configured size are kept and their words returned. Otherwise the other
/// source is tried if this was the first, and the file is marked as failed
/// if it was the second.
pub fn hash_attempted(
    album: &mut AlbumMeta,
    name: &str,
    cfg: &HashConfig,
    source: HashSource,
    bytes: Option<&Vec<u8>>,
) -> (outcome: HashOutcome)
    requires
        old(album).wf(),
    ensures
        final(album).wf(),
        old(album).hashes_agree() ==> final(album).hashes_agree(),
        match accepted_bits(
            match bytes {
                Some(b) => Some(b@),
                None => None,
            },
            *cfg,
        ) {
            Some(words) => {
                &&& outcome matches HashOutcome::Hashed(w) && w@ == words
                &&& cached_bits(final(album).entry(name@), *cfg) == Some(words)
                &&& final(album).entry(name@) matches Some(e) && e.hash is Some && base64_decoded(
                    e.hash->0,
                ) == Some(bytes->0@)
                &&& updated(
                    *old(album),
                    *final(album),
                    name@,
                    FileMetaEntryView {
                        hash: final(album).entry(name@)->0.hash,
                        hash_version: Some(cfg.hash_version@),
                        hash_bits: Some(cfg.bits),
                        hash_failed: false,
                        ..old(album).entry_or_blank(name@)
                    },
                )
            },
            None => if source == first_source(*cfg) {
                outcome == HashOutcome::Retry(second_source(*cfg)) && *final(album) == *old(album)
            } else {
                &&& outcome == HashOutcome::Failed
                &&& updated(
                    *old(album),
                    *final(album),
                    name@,
                    FileMetaEntryView {
                        hash: None,
                        hash_version: None,
                        hash_bits: None,
                        hash_failed: true,
                        ..old(album).entry_or_blank(name@)
                    },
                )
            },
        },
{
    let usable: bool = match bytes {
        Some(b) => b.len() % 8 == 0 && b.len() / 8 == (cfg.bits / 64) as usize && cfg.bits % 64
            == 0,
        None => false,
    };
    if usable {
        let words = save_hash(album, name, bytes.unwrap(), cfg);
        return HashOutcome::Hashed(words);
    }
    let is_first: bool = match source {
        HashSource::Thumbnail => cfg.use_thumbnails_first,
        HashSource::Original => !cfg.use_thumbnails_first,
    };
    if is_first {
        HashOutcome::Retry(
            if cfg.use_thumbnails_first {
                HashSource::Original
            } else {
                HashSource::Thumbnail
            },
        )
    } else {
        mark_hash_failed(album, name);
        HashOutcome::Failed
    }
}

/// The first `n` of `names` that name images, in order.
pub open spec fn images_upto(names: Seq<String>, n: int) -> Seq<Seq<char>>
    decreases n,
{
    if n <= 0 {
        Seq::empty()
    } else if media_kind_of(names[n - 1]@) == MediaKind::Image {
        images_upto(names, n - 1).push(names[n - 1]@)
    } else {
        images_upto(names, n - 1)
    }
}

/// The files of an album that a duplicate scan looks at: the images among
/// `names`. The scan is refused where there are more images than
/// `max_files`, whatever that limit is.
pub fn duplicate_scan_files(names: &Vec<String>, max_files: u32) -> (r: Result<Vec<String>, Error>)
    ensures
        ({
            let images = images_upto(names@, names@.len() as int);
            if images.len() > max_files {
                r == Err::<Vec<String>, Error>(
                    Error::AlbumTooLarge { files: images.len() as usize, max: max_files },
                )
            } else {
                r is Ok && string_texts(r->Ok_0@) == images
            }
        }),
{
    let mut files: Vec<String> = Vec::new();
    let mut i: usize = 0;
    assert(string_texts(files@) =~= images_upto(names@, 0));
    while i < names.len()
        invariant
            i <= names.len(),
            string_texts(files@) == images_upto(names@, i as int),
        decreases names.len() - i,
    {
        let ghost before = files@;
        match media_kind(names[i].as_str()) {
            MediaKind::Image => {
                files.push(names[i].clone());
                assert(string_texts(files@) =~= string_texts(before).push(names@[i as int]@));
            },
            _ => {},
        }
        i += 1;
    }
    assert(string_texts(files@).len() == files@.len());
    if files.len() > max_files as usize {
        return Err(Error::AlbumTooLarge { files: files.len(), max: max_files });
    }
    Ok(files)
}

/// The scan that `find_duplicates` makes of an album: the files among
/// `files` that have a usable cached hash, the pairs that the album sets
/// aside, and the threshold of the configuration.
pub open spec fn album_scan(album: AlbumMeta, files: Seq<String>, cfg: HashConfig) -> Graph {
    let hashed = hashed_upto(album, files, cfg, files.len() as int);
    Graph {
        entries: Seq::new(
            hashed.len(),
            |i: int|
                EntryView { name: hashed[i].0, bits: hashed[i].1, blocks: blocks_of(hashed[i].1) },
        ),
        ignored: ignore_keys(album.duplicates_ignore@),
        threshold: cfg.effective_threshold,
    }
}

/// The groups of near-duplicates among `files`, from the hashes that the
/// sidecar caches. Files without a usable hash take no part.
pub fn find_duplicates(album: &AlbumMeta, files: &Vec<String>, cfg: &HashConfig) -> (groups: Vec<
    Vec<String>,
>)
    requires
        album.wf(),
    ensures
        exists|members: Seq<Seq<int>>|
            are_groups(album_scan(*album, files@, *cfg), members) && #[trigger] names_of(
                album_scan(*album, files@, *cfg),
                members,
                groups@,
            ),
{
    let ignored = load_ignore_set(album);
    let entries = hashed_entries(album, files, cfg);
    let groups = group_duplicates(&entries, &ignored, cfg.effective_threshold);
    proof {
        let g = graph_of(entries@, ignored@, cfg.effective_threshold);
        let scan = album_scan(*album, files@, *cfg);
        let hashed = hashed_upto(*album, files@, *cfg, files@.len() as int);
        assert(entry_hashes(entries@) == hashed);
        assert forall|i: int| 0 <= i < entries@.len() implies g.entries[i] == scan.entries[i] by {
            assert(entry_hashes(entries@)[i] == hashed[i]);
        }
        assert(g.entries =~= scan.entries);
        assert(g == scan);
    }
    groups
}

} // verus!
