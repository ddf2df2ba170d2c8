//! The album catalog: names for new files, the albums under a root, the
//! listing of an album, and the plans for moving media and renaming albums.

use crate::decimal::{decimal, decimal_chars, lemma_decimal_injective, parse_bounded, parse_decimal};
use crate::error::Error;
use crate::metadata::{
    favorite_mark, pack_text, AlbumMeta, DetachedAlbum, DetachedFileMeta, DetachedMediaEntry,
};
use crate::order::{sort_with_keys, stably_sorted, texts, Duplicate};
use crate::paths::{
    extension_chars, extension_of, file_name, file_name_of, is_under, join, joined, last_index,
    last_index_of, lemma_last_index_of, parent, parent_of, relative_of, starts_with, stem_chars,
    stem_of, strip_prefix,
};
use crate::queue::holds;
use crate::text::{
    append_chars, append_str, chars_eq, chars_of, has_prefix, lowered, slice_of, str_eq, string_of,
    string_texts, to_lowered, trim, trimmed,
};
use crate::util::{media_kind, media_kind_of, MediaKind};
use vstd::prelude::*;

verus! {

/// The name made of `base`, an underscore, the number `k`, and `suffix`.
pub open spec fn numbered(base: Seq<char>, k: nat, suffix: Seq<char>) -> Seq<char> {
    base + seq!['_'] + decimal(k) + suffix
}

/// `k` is the first number from `first` on whose name is free.
pub open spec fn first_free(
    existing: Seq<String>,
    base: Seq<char>,
    suffix: Seq<char>,
    first: nat,
    k: nat,
) -> bool {
    &&& first <= k
    &&& !holds(existing, numbered(base, k, suffix))
    &&& forall|j: nat| first <= j < k ==> holds(existing, #[trigger] numbered(base, j, suffix))
}

/// Two numbers give two names.
pub proof fn lemma_numbered_injective(base: Seq<char>, suffix: Seq<char>, a: nat, b: nat)
    requires
        numbered(base, a, suffix) == numbered(base, b, suffix),
    ensures
        a == b,
{
    let x = numbered(base, a, suffix);
    let y = numbered(base, b, suffix);
    let from = base.len() as int + 1;
    assert(x.len() == base.len() + 1 + decimal(a).len() + suffix.len());
    assert(y.len() == base.len() + 1 + decimal(b).len() + suffix.len());
    assert(x.subrange(from, from + decimal(a).len()) =~= decimal(a));
    assert(y.subrange(from, from + decimal(b).len()) =~= decimal(b));
    lemma_decimal_injective(a, b);
}

/// The name made of `base`, an underscore, the number `k`, and `suffix`.
fn numbered_chars(base: &Vec<char>, k: u128, suffix: &Vec<char>) -> (out: Vec<char>)
    ensures
        out@ == numbered(base@, k as nat, suffix@),
{
    let mut out: Vec<char> = Vec::new();
    append_chars(&mut out, base);
    out.push('_');
    append_chars(&mut out, &decimal_chars(k));
    append_chars(&mut out, suffix);
    assert(out@ =~= numbered(base@, k as nat, suffix@));
    out
}

/// Whether a list of names holds `name`.
fn is_taken(existing: &Vec<String>, name: &Vec<char>) -> (r: bool)
    ensures
        r == holds(existing@, name@),
{
    let mut i: usize = 0;
    while i < existing.len()
        invariant
            i <= existing.len(),
            forall|j: int| 0 <= j < i ==> (#[trigger] existing@[j])@ != name@,
        decreases existing.len() - i,
    {
        let other = chars_of(existing[i].as_str());
        if chars_eq(&other, name) {
            return true;
        }
        i += 1;
    }
    false
}

/// Whether a list of texts holds `name`.
spec fn among(working: Seq<Vec<char>>, name: Seq<char>) -> bool {
    exists|i: int| 0 <= i < working.len() && (#[trigger] working[i])@ == name
}

/// The first name `base_k` with `suffix`, `k` counting up from `first`,
/// that `existing` does not hold.
fn first_free_numbered(existing: &Vec<String>, base: &Vec<char>, suffix: &Vec<char>, first: u128) -> (r:
    (Vec<char>, Ghost<nat>))
    requires
        first <= 0x1_0000_0000_0000_0000,
    ensures
        first_free(existing@, base@, suffix@, first as nat, r.1@),
        r.0@ == numbered(base@, r.1@, suffix@),
{
    let mut working: Vec<Vec<char>> = Vec::new();
    let mut i: usize = 0;
    while i < existing.len()
        invariant
            i <= existing.len(),
            working@.len() == i,
            forall|j: int| 0 <= j < i ==> (#[trigger] working@[j])@ == existing@[j]@,
        decreases existing.len() - i,
    {
        working.push(chars_of(existing[i].as_str()));
        i += 1;
    }
    proof {
        assert forall|name: Seq<char>| holds(existing@, name) implies among(working@, name) by {
            let j = choose|j: int| 0 <= j < existing@.len() && (#[trigger] existing@[j])@ == name;
            assert(working@[j]@ == name);
        }
        assert forall|j: int| 0 <= j < working@.len() implies holds(
            existing@,
            (#[trigger] working@[j])@,
        ) by {
            assert(existing@[j]@ == working@[j]@);
        }
    }
    let mut k: u128 = first;
    loop
        invariant
            first <= 0x1_0000_0000_0000_0000,
            first <= k,
            existing@.len() <= usize::MAX,
            k - first + working@.len() == existing@.len(),
            forall|name: Seq<char>|
                holds(existing@, name) ==> among(working@, name) || exists|j: nat|
                    first <= j < k && name == #[trigger] numbered(base@, j, suffix@),
            forall|j: int| 0 <= j < working@.len() ==> holds(existing@, (#[trigger] working@[j])@),
            forall|j: nat| first <= j < k ==> holds(existing@, #[trigger] numbered(base@, j, suffix@)),
        decreases working@.len(),
    {
        let candidate = numbered_chars(base, k, suffix);
        let mut at: usize = 0;
        while at < working.len() && !chars_eq(&working[at], &candidate)
            invariant
                at <= working@.len(),
                forall|j: int| 0 <= j < at ==> (#[trigger] working@[j])@ != candidate@,
            decreases working@.len() - at,
        {
            at += 1;
        }
        let found: bool = at < working.len();
        if !found {
            proof {
                if holds(existing@, candidate@) {
                    let j = choose|j: nat|
                        first <= j < k && candidate@ == #[trigger] numbered(base@, j, suffix@);
                    lemma_numbered_injective(base@, suffix@, j, k as nat);
                }
            }
            return (candidate, Ghost(k as nat));
        }
        let ghost before = working@;
        working.swap_remove(at);
        proof {
            let after = working@;
            assert(holds(existing@, candidate@));
            assert forall|j: int| 0 <= j < after.len() implies holds(
                existing@,
                (#[trigger] after[j])@,
            ) by {
                if j == at {
                    assert(after[j] == before[before.len() - 1]);
                } else {
                    assert(after[j] == before[j]);
                }
            }
            assert forall|name: Seq<char>| holds(existing@, name) implies among(after, name)
                || exists|j: nat|
                first <= j < k + 1 && name == #[trigger] numbered(base@, j, suffix@) by {
                if name == candidate@ {
                    assert(name == numbered(base@, k as nat, suffix@));
                } else if among(before, name) {
                    let w = choose|w: int| 0 <= w < before.len() && (#[trigger] before[w])@ == name;
                    if w == before.len() - 1 {
                        assert(after[at as int] == before[w]);
                    } else {
                        assert(after[w] == before[w]);
                    }
                    assert(among(after, name));
                } else {
                    let j = choose|j: nat|
                        first <= j < k && name == #[trigger] numbered(base@, j, suffix@);
                    assert(first <= j < k + 1);
                }
            }
        }
        k = k + 1;
    }
}

/// A stem split into its base and the counter it ends in: the number after
/// its last underscore, or zero where there is none.
pub open spec fn counter_split(stem: Seq<char>) -> (Seq<char>, nat) {
    let at = last_index_of(stem, '_');
    if at < 0 {
        (stem, 0)
    } else {
        match parse_decimal(stem.subrange(at + 1, stem.len() as int), usize::MAX as nat) {
            Some(n) => (stem.subrange(0, at), n),
            None => (stem, 0),
        }
    }
}

/// A stem split into its base and the counter it ends in.
fn split_counter(stem: &Vec<char>) -> (r: (Vec<char>, u128))
    ensures
        (r.0@, r.1 as nat) == counter_split(stem@),
        r.1 <= usize::MAX,
{
    proof {
        lemma_last_index_of(stem@, '_');
    }
    match last_index(stem, '_') {
        Some(at) => {
            let digits = slice_of(stem, at + 1, stem.len());
            match parse_bounded(&digits, usize::MAX as u128) {
                Some(n) => (slice_of(stem, 0, at), n),
                None => {
                    let whole = slice_of(stem, 0, stem.len());
                    assert(whole@ =~= stem@);
                    (whole, 0)
                },
            }
        },
        None => {
            let whole = slice_of(stem, 0, stem.len());
            assert(whole@ =~= stem@);
            (whole, 0)
        },
    }
}

/// The extension of a name with the dot before it, or nothing.
pub open spec fn dotted_extension(name: Seq<char>) -> Seq<char> {
    match extension_of(name) {
        Some(e) => seq!['.'] + e,
        None => Seq::empty(),
    }
}

/// `r` is the name under which `name` goes into a directory that holds
/// `existing`: `name` itself where that is free and its stem ends in no
/// counter; else the stem's base with the first free counter after the one
/// it ends in, counting from 1.
pub open spec fn is_unique_name(existing: Seq<String>, name: Seq<char>, r: Seq<char>) -> bool {
    let (base, start) = counter_split(stem_of(name));
    if start == 0 && !holds(existing, name) {
        r == name
    } else {
        exists|k: nat|
            first_free(existing, base, dotted_extension(name), start + 1, k) && r == numbered(
                base,
                k,
                dotted_extension(name),
            )
    }
}

/// A name for the file `file_name` that no entry of a directory has yet,
/// `existing` being the names of its entries.
pub fn unique_filename(existing: &Vec<String>, file_name: &str) -> (r: String)
    ensures
        is_unique_name(existing@, file_name@, r@),
        !holds(existing@, r@),
{
    let name = chars_of(file_name);
    let stem = stem_chars(&name);
    let suffix: Vec<char> = match extension_chars(&name) {
        Some(e) => {
            let mut s: Vec<char> = Vec::new();
            s.push('.');
            append_chars(&mut s, &e);
            assert(s@ =~= seq!['.'] + e@);
            s
        },
        None => Vec::new(),
    };
    assert(suffix@ =~= dotted_extension(name@));
    let (base, start) = split_counter(&stem);
    if start == 0 && !is_taken(existing, &name) {
        return string_of(&name);
    }
    let (found, Ghost(k)) = first_free_numbered(existing, &base, &suffix, start + 1);
    let r = string_of(&found);
    proof {
        let split = counter_split(stem_of(file_name@));
        assert(split.0 == base@ && split.1 == start as nat);
        assert(first_free(existing@, split.0, dotted_extension(file_name@), split.1 + 1, k));
        assert(r@ == numbered(split.0, k, dotted_extension(file_name@)));
    }
    r
}

/// The stem that a name is filed under: that of the name, or `file` for an
/// empty name.
pub open spec fn filing_stem(name: Seq<char>) -> Seq<char> {
    if name.len() == 0 {
        "file"@
    } else {
        stem_of(name)
    }
}

/// The extension of a name with the dot before it, or nothing where the
/// name has no extension or an empty one.
pub open spec fn filing_suffix(name: Seq<char>) -> Seq<char> {
    match extension_of(name) {
        Some(e) => if e.len() == 0 {
            Seq::empty()
        } else {
            seq!['.'] + e
        },
        None => Seq::empty(),
    }
}

/// `r` is the next name that is free for a new file called `name`: with
/// the counter that the stem ends in, or without a counter where it ends in
/// none, if that is free; else with the first free counter after it.
pub open spec fn is_next_name(existing: Seq<String>, name: Seq<char>, r: Seq<char>) -> bool {
    let (base, start) = counter_split(filing_stem(name));
    let suffix = filing_suffix(name);
    if start == 0 && !holds(existing, base + suffix) {
        r == base + suffix
    } else {
        exists|k: nat|
            first_free(existing, base, suffix, if start == 0 {
                1
            } else {
                start
            }, k) && r == numbered(base, k, suffix)
    }
}

/// The next name that is free for a new file called `name`, `existing`
/// being the names of the entries of its directory.
pub fn next_available_name(existing: &Vec<String>, name: &str) -> (r: String)
    ensures
        is_next_name(existing@, name@, r@),
        !holds(existing@, r@),
{
    let chars = chars_of(name);
    let stem: Vec<char> = if chars.len() == 0 {
        chars_of("file")
    } else {
        stem_chars(&chars)
    };
    let suffix: Vec<char> = match extension_chars(&chars) {
        Some(e) => {
            if e.len() == 0 {
                Vec::new()
            } else {
                let mut s: Vec<char> = Vec::new();
                s.push('.');
                append_chars(&mut s, &e);
                assert(s@ =~= seq!['.'] + e@);
                s
            }
        },
        None => Vec::new(),
    };
    assert(suffix@ =~= filing_suffix(chars@));
    assert(stem@ == filing_stem(chars@));
    let (base, start) = split_counter(&stem);
    if start == 0 {
        let mut plain: Vec<char> = Vec::new();
        append_chars(&mut plain, &base);
        append_chars(&mut plain, &suffix);
        assert(plain@ =~= base@ + suffix@);
        if !is_taken(existing, &plain) {
            return string_of(&plain);
        }
    }
    let first: u128 = if start == 0 {
        1
    } else {
        start
    };
    let (found, Ghost(k)) = first_free_numbered(existing, &base, &suffix, first);
    let r = string_of(&found);
    proof {
        let split = counter_split(filing_stem(name@));
        assert(split.0 == base@ && split.1 == start as nat);
        assert(first_free(existing@, split.0, filing_suffix(name@), first as nat, k));
        assert(r@ == numbered(split.0, k, filing_suffix(name@)));
    }
    r
}

/// Whether a directory is an album: its name does not begin with the
/// prefix that is reserved for artifacts.
pub open spec fn is_album_name(path: Seq<char>) -> bool {
    match file_name_of(path) {
        Some(name) => !".room237-"@.is_prefix_of(name),
        None => false,
    }
}

/// Whether the entry at `path` is an album: a directory whose name does not
/// begin with the reserved prefix.
pub fn is_album_dir(path: &str, is_dir: bool) -> (r: bool)
    ensures
        r == (is_dir && is_album_name(path@)),
{
    if !is_dir {
        return false;
    }
    match file_name(path) {
        Some(name) => {
            let chars = chars_of(name.as_str());
            let reserved = chars_of(".room237-");
            !has_prefix(&chars, &reserved)
        },
        None => false,
    }
}

/// A path with every backslash turned into a slash.
pub open spec fn forward_slashes(path: Seq<char>) -> Seq<char> {
    Seq::new(
        path.len(),
        |i: int|
            if path[i] == '\\' {
                '/'
            } else {
                path[i]
            },
    )
}

/// A relative path with `/` between its components.
pub fn normalized_relative_path(path: &str) -> (r: String)
    ensures
        r@ == forward_slashes(path@),
{
    let chars = chars_of(path);
    let mut out: Vec<char> = Vec::new();
    let mut i: usize = 0;
    while i < chars.len()
        invariant
            i <= chars.len(),
            out@.len() == i,
            forall|k: int| 0 <= k < i ==> out@[k] == forward_slashes(chars@)[k],
        decreases chars.len() - i,
    {
        let c: char = chars[i];
        out.push(
            if c == '\\' {
                '/'
            } else {
                c
            },
        );
        i += 1;
    }
    assert(out@ =~= forward_slashes(chars@));
    string_of(&out)
}

/// An album as it was found under the root.
#[derive(Debug, PartialEq, Eq)]
pub struct AlbumDirEntry {
    pub path: String,
    pub name: String,
    /// The path below the root, `/`-separated.
    pub relative_path: String,
    /// The relative path of the album that holds this one, if any.
    pub parent: Option<String>,
}

/// An album entry with its texts as sequences.
pub struct AlbumDirEntryView {
    pub path: Seq<char>,
    pub name: Seq<char>,
    pub relative_path: Seq<char>,
    pub parent: Option<Seq<char>>,
}

impl View for AlbumDirEntry {
    type V = AlbumDirEntryView;

    open spec fn view(&self) -> AlbumDirEntryView {
        AlbumDirEntryView {
            path: self.path@,
            name: self.name@,
            relative_path: self.relative_path@,
            parent: crate::metadata::opt_text(self.parent),
        }
    }
}

impl Duplicate for AlbumDirEntry {
    fn duplicate(&self) -> (copy: AlbumDirEntry) {
        AlbumDirEntry {
            path: self.path.clone(),
            name: self.name.clone(),
            relative_path: self.relative_path.clone(),
            parent: match &self.parent {
                Some(p) => Some(p.clone()),
                None => None,
            },
        }
    }
}

/// The relative path of the album that holds the album at `relative`.
pub open spec fn relative_parent(relative: Seq<char>) -> Option<Seq<char>> {
    match parent_of(relative) {
        Some(p) => if p.len() == 0 {
            None
        } else {
            Some(forward_slashes(p))
        },
        None => None,
    }
}

/// The entry of the album at `path` under `root`.
pub open spec fn album_entry(
    path: Seq<char>,
    name: Seq<char>,
    relative: Seq<char>,
) -> AlbumDirEntryView {
    AlbumDirEntryView {
        path,
        name,
        relative_path: forward_slashes(relative),
        parent: relative_parent(relative),
    }
}

/// The entries of the first `n` of `albums`; a path without a name is left
/// out. None where one of them does not lie under `root`.
pub open spec fn entries_upto(root: Seq<char>, albums: Seq<String>, n: int) -> Option<
    Seq<AlbumDirEntryView>,
>
    decreases n,
{
    if n <= 0 {
        Some(Seq::empty())
    } else {
        match entries_upto(root, albums, n - 1) {
            Some(before) => match file_name_of(albums[n - 1]@) {
                Some(name) => match relative_of(albums[n - 1]@, root) {
                    Some(relative) => Some(before.push(album_entry(albums[n - 1]@, name, relative))),
                    None => None,
                },
                None => Some(before),
            },
            None => None,
        }
    }
}

/// The first of the first `n` of `albums` that has a name and does not lie
/// under `root`.
pub open spec fn outsider_upto(root: Seq<char>, albums: Seq<String>, n: int) -> Option<Seq<char>>
    decreases n,
{
    if n <= 0 {
        None
    } else {
        match outsider_upto(root, albums, n - 1) {
            Some(path) => Some(path),
            None => if file_name_of(albums[n - 1]@) is Some && relative_of(albums[n - 1]@, root)
                is None {
                Some(albums[n - 1]@)
            } else {
                None
            },
        }
    }
}

/// The views of a list of album entries.
pub open spec fn entry_views(entries: Seq<AlbumDirEntry>) -> Seq<AlbumDirEntryView> {
    Seq::new(entries.len(), |i: int| entries[i]@)
}

/// The relative paths of a list of album entries.
pub open spec fn relative_paths(entries: Seq<AlbumDirEntryView>) -> Seq<Seq<char>> {
    Seq::new(entries.len(), |i: int| entries[i].relative_path)
}

/// The albums found under `root`, ascending by relative path. `albums` are
/// their paths in the order in which the walk met them.
pub fn walk_album_entries(root: &str, albums: &Vec<String>) -> (r: Result<Vec<AlbumDirEntry>, Error>)
    ensures
        match entries_upto(root@, albums@, albums@.len() as int) {
            Some(found) => r is Ok && stably_sorted(
                found,
                relative_paths(found),
                entry_views(r->Ok_0@),
            ),
            None => r matches Err(Error::NotUnderRoot { path, root: given }) && given@ == root@
                && Some(path@) == outsider_upto(root@, albums@, albums@.len() as int),
        },
{
    let mut found: Vec<AlbumDirEntry> = Vec::new();
    let mut keys: Vec<Vec<char>> = Vec::new();
    let mut i: usize = 0;
    assert(entry_views(found@) =~= Seq::<AlbumDirEntryView>::empty());
    while i < albums.len()
        invariant
            i <= albums.len(),
            entries_upto(root@, albums@, i as int) == Some(entry_views(found@)),
            outsider_upto(root@, albums@, i as int) is None,
            keys@.len() == found@.len(),
            forall|k: int| 0 <= k < keys@.len() ==> (#[trigger] keys@[k])@ == found@[k].relative_path@,
        decreases albums.len() - i,
    {
        let ghost before = entry_views(found@);
        let path = &albums[i];
        match file_name(path.as_str()) {
            Some(name) => {
                match strip_prefix(path.as_str(), root) {
                    Some(relative) => {
                        let relative_path = normalized_relative_path(relative.as_str());
                        let parent = match parent(relative.as_str()) {
                            Some(p) => {
                                let normalized = normalized_relative_path(p.as_str());
                                if normalized.as_str().is_empty() {
                                    None
                                } else {
                                    Some(normalized)
                                }
                            },
                            None => None,
                        };
                        keys.push(chars_of(relative_path.as_str()));
                        found.push(
                            AlbumDirEntry { path: path.clone(), name, relative_path, parent },
                        );
                        assert(entry_views(found@) =~= before.push(
                            album_entry(path@, found@[before.len() as int].name@, relative@),
                        ));
                    },
                    None => {
                        proof {
                            lemma_entries_stay_none(root@, albums@, i + 1, albums@.len() as int);
                            lemma_outsider_stays(root@, albums@, i + 1, albums@.len() as int);
                        }
                        return Err(
                            Error::NotUnderRoot { path: path.clone(), root: root.to_owned() },
                        );
                    },
                }
            },
            None => {},
        }
        i += 1;
    }
    let sorted = sort_with_keys(&found, &keys);
    proof {
        let given = entry_views(found@);
        let out = entry_views(sorted@);
        assert(texts(keys@) =~= relative_paths(given));
        let order = choose|order: Seq<usize>|
            #![trigger crate::order::is_stable_order(texts(keys@), order)]
            texts(keys@).len() == found@.len() && crate::order::is_stable_order(texts(keys@), order)
                && sorted@.len() == found@.len() && forall|k: int|
                0 <= k < sorted@.len() ==> #[trigger] sorted@[k] == found@[order[k] as int];
        assert forall|k: int| 0 <= k < out.len() implies #[trigger] out[k] == given[order[k] as int] by {
            assert(sorted@[k] == found@[order[k] as int]);
        }
        assert(stably_sorted(given, relative_paths(given), out));
    }
    Ok(sorted)
}

/// The first path outside the root stays the first.
proof fn lemma_outsider_stays(root: Seq<char>, albums: Seq<String>, n: int, m: int)
    requires
        0 <= n <= m,
        outsider_upto(root, albums, n) is Some,
    ensures
        outsider_upto(root, albums, m) == outsider_upto(root, albums, n),
    decreases m - n,
{
    if n < m {
        lemma_outsider_stays(root, albums, n, m - 1);
    }
}

/// Once a path outside the root was met, no later path mends that.
proof fn lemma_entries_stay_none(root: Seq<char>, albums: Seq<String>, n: int, m: int)
    requires
        0 <= n <= m,
        entries_upto(root, albums, n) is None,
    ensures
        entries_upto(root, albums, m) is None,
    decreases m - n,
{
    if n < m {
        lemma_entries_stay_none(root, albums, n, m - 1);
    }
}

/// A media file as a directory listing shows it.
#[derive(Debug, PartialEq, Eq)]
pub struct MediaFile {
    pub name: String,
    /// The file's creation time, in seconds since the epoch.
    pub added: Option<u64>,
}

/// A listing entry with its texts as sequences.
pub struct MediaEntryView {
    pub meta: Seq<char>,
    pub name: Seq<char>,
    pub favorite: Option<bool>,
}

impl View for DetachedMediaEntry {
    type V = MediaEntryView;

    open spec fn view(&self) -> MediaEntryView {
        MediaEntryView { meta: self.meta@, name: self.name@, favorite: self.favorite }
    }
}

impl Duplicate for DetachedMediaEntry {
    fn duplicate(&self) -> (copy: DetachedMediaEntry) {
        DetachedMediaEntry {
            meta: self.meta.clone(),
            name: self.name.clone(),
            favorite: self.favorite,
        }
    }
}

/// Whether a listing shows a file: it is an image or a video, not one that
/// waits to be converted.
pub open spec fn is_listed(name: Seq<char>) -> bool {
    media_kind_of(name) == MediaKind::Image || media_kind_of(name) == MediaKind::Video
}

/// The metadata that stands in for a file the sidecar holds none for: its
/// creation time and its class, nothing else.
pub open spec fn stand_in_meta(name: Seq<char>, added: Option<u64>) -> DetachedFileMeta {
    DetachedFileMeta {
        a: added,
        s: None,
        i: media_kind_of(name) == MediaKind::Image,
        v: media_kind_of(name) == MediaKind::Video,
        w: None,
        h: None,
    }
}

/// The listing entry of a file: the metadata of the sidecar, or what stands
/// in for it, and the favorite mark.
pub open spec fn listing_entry(album: AlbumMeta, name: Seq<char>, added: Option<u64>) -> MediaEntryView {
    MediaEntryView {
        meta: match album.entry_or_blank(name).meta {
            Some(m) => m,
            None => pack_text(stand_in_meta(name, added)),
        },
        name,
        favorite: favorite_mark(album.entry_or_blank(name).favorite),
    }
}

/// The listing entries of the first `n` of `files`, those that a listing
/// shows, in order.
pub open spec fn listing_upto(album: AlbumMeta, files: Seq<MediaFile>, n: int) -> Seq<MediaEntryView>
    decreases n,
{
    if n <= 0 {
        Seq::empty()
    } else if is_listed(files[n - 1].name@) {
        listing_upto(album, files, n - 1).push(
            listing_entry(album, files[n - 1].name@, files[n - 1].added),
        )
    } else {
        listing_upto(album, files, n - 1)
    }
}

/// The views of a list of listing entries.
pub open spec fn media_views(entries: Seq<DetachedMediaEntry>) -> Seq<MediaEntryView> {
    Seq::new(entries.len(), |i: int| entries[i]@)
}

/// The names of a list of listing entries.
pub open spec fn entry_names(entries: Seq<MediaEntryView>) -> Seq<Seq<char>> {
    Seq::new(entries.len(), |i: int| entries[i].name)
}

/// The listing of an album: an entry for each image and video among
/// `files`, ascending by name.
pub fn get_album_media(album: &AlbumMeta, files: &Vec<MediaFile>) -> (entries: Vec<
    DetachedMediaEntry,
>)
    requires
        album.wf(),
    ensures
        stably_sorted(
            listing_upto(*album, files@, files@.len() as int),
            entry_names(listing_upto(*album, files@, files@.len() as int)),
            media_views(entries@),
        ),
{
    let mut found: Vec<DetachedMediaEntry> = Vec::new();
    let mut keys: Vec<Vec<char>> = Vec::new();
    let mut i: usize = 0;
    assert(media_views(found@) =~= listing_upto(*album, files@, 0));
    while i < files.len()
        invariant
            i <= files.len(),
            album.wf(),
            media_views(found@) == listing_upto(*album, files@, i as int),
            keys@.len() == found@.len(),
            forall|k: int| 0 <= k < keys@.len() ==> (#[trigger] keys@[k])@ == found@[k].name@,
        decreases files.len() - i,
    {
        let ghost before = media_views(found@);
        let file = &files[i];
        let kind = media_kind(file.name.as_str());
        let is_image: bool = match kind {
            MediaKind::Image => true,
            _ => false,
        };
        let is_video: bool = match kind {
            MediaKind::Video => true,
            _ => false,
        };
        if is_image || is_video {
            let (cached, favorite): (Option<String>, bool) = match album.get(file.name.as_str()) {
                Some(e) => (
                    match &e.meta {
                        Some(m) => Some(m.clone()),
                        None => None,
                    },
                    e.favorite,
                ),
                None => (None, false),
            };
            let meta: String = match cached {
                Some(m) => m,
                None => (DetachedFileMeta {
                    a: file.added,
                    s: None,
                    i: is_image,
                    v: is_video,
                    w: None,
                    h: None,
                }).pack(),
            };
            keys.push(chars_of(file.name.as_str()));
            found.push(
                DetachedMediaEntry {
                    meta,
                    name: file.name.clone(),
                    favorite: if favorite {
                        Some(true)
                    } else {
                        None
                    },
                },
            );
            assert(media_views(found@) =~= before.push(
                listing_entry(*album, file.name@, file.added),
            ));
        }
        i += 1;
    }
    let sorted = sort_with_keys(&found, &keys);
    proof {
        let given = media_views(found@);
        let out = media_views(sorted@);
        assert(texts(keys@) =~= entry_names(given));
        let order = choose|order: Seq<usize>|
            #![trigger crate::order::is_stable_order(texts(keys@), order)]
            texts(keys@).len() == found@.len() && crate::order::is_stable_order(texts(keys@), order)
                && sorted@.len() == found@.len() && forall|k: int|
                0 <= k < sorted@.len() ==> #[trigger] sorted@[k] == found@[order[k] as int];
        assert forall|k: int| 0 <= k < out.len() implies #[trigger] out[k] == given[order[k] as int] by {
            assert(sorted@[k] == found@[order[k] as int]);
        }
        assert(stably_sorted(given, entry_names(given), out));
    }
    sorted
}

/// The sum of the sizes of the first `n` files that are images or videos,
/// as far as a `u64` counts.
pub open spec fn size_upto(files: Seq<(String, u64)>, n: int) -> u64
    decreases n,
{
    if n <= 0 {
        0
    } else if is_listed(files[n - 1].0@) {
        size_upto(files, n - 1).saturating_add(files[n - 1].1)
    } else {
        size_upto(files, n - 1)
    }
}

/// The size of an album in bytes: the sizes of its images and videos
/// together. `files` are the regular files of the album with their sizes.
pub fn get_album_size(files: &Vec<(String, u64)>) -> (total: u64)
    ensures
        total == size_upto(files@, files@.len() as int),
{
    let mut total: u64 = 0;
    let mut i: usize = 0;
    while i < files.len()
        invariant
            i <= files.len(),
            total == size_upto(files@, i as int),
        decreases files.len() - i,
    {
        match media_kind(files[i].0.as_str()) {
            MediaKind::Image => {
                total = total.saturating_add(files[i].1);
            },
            MediaKind::Video => {
                total = total.saturating_add(files[i].1);
            },
            _ => {},
        }
        i += 1;
    }
    total
}

/// Where the thumbnail that stands for an album comes from.
#[derive(Debug, PartialEq, Eq)]
pub enum ThumbSource {
    /// A thumbnail file that is there already.
    Existing(String),
    /// The thumbnail of this media file of the album at this index, which
    /// may have to be made first.
    Media { album: usize, name: String },
    /// The album and the albums below it hold no media.
    Missing,
}

/// The first album after `from` that lies below the album at `idx` and
/// holds media, as far as the albums below it stand in one run; none where
/// the run ends before.
pub open spec fn first_below_with_media(
    entries: Seq<AlbumDirEntry>,
    media: Seq<Vec<String>>,
    idx: int,
    from: int,
) -> Option<int>
    decreases entries.len() - from,
{
    if from < 0 || from >= entries.len() || from >= media.len() {
        None
    } else if !(entries[idx].relative_path@ + seq!['/']).is_prefix_of(entries[from].relative_path@) {
        None
    } else if media[from]@.len() > 0 {
        Some(from)
    } else {
        first_below_with_media(entries, media, idx, from + 1)
    }
}

/// Decides where the thumbnail that stands for the album at `idx` comes
/// from: a thumbnail file of the album, else the first media file of the
/// album, else the first media file of the first album below it that has
/// any. `entries` ascend by relative path; `media` holds the names of the
/// media files of each, `thumbs` the thumbnail files of the album.
pub fn album_thumb_source(
    entries: &Vec<AlbumDirEntry>,
    media: &Vec<Vec<String>>,
    thumbs: &Vec<String>,
    idx: usize,
) -> (source: ThumbSource)
    requires
        idx < entries@.len(),
        media@.len() == entries@.len(),
    ensures
        thumbs@.len() > 0 ==> (source matches ThumbSource::Existing(t) && t == thumbs@[0]),
        thumbs@.len() == 0 && media@[idx as int]@.len() > 0 ==> (source matches ThumbSource::Media {
            album,
            name,
        } && album == idx && name == media@[idx as int]@[0]),
        thumbs@.len() == 0 && media@[idx as int]@.len() == 0 ==> match first_below_with_media(
            entries@,
            media@,
            idx as int,
            idx + 1,
        ) {
            Some(k) => source matches ThumbSource::Media { album, name } && album == k && name
                == media@[k]@[0],
            None => source == ThumbSource::Missing,
        },
{
    if thumbs.len() > 0 {
        return ThumbSource::Existing(thumbs[0].clone());
    }
    if media[idx].len() > 0 {
        return ThumbSource::Media { album: idx, name: media[idx][0].clone() };
    }
    let mut prefix = chars_of(entries[idx].relative_path.as_str());
    prefix.push('/');
    assert(prefix@ =~= entries@[idx as int].relative_path@ + seq!['/']);
    let count: usize = entries.len();
    let mut k: usize = idx + 1;
    while k < count
        invariant
            idx < k <= entries@.len(),
            count == entries@.len(),
            thumbs@.len() == 0,
            media@[idx as int]@.len() == 0,
            media@.len() == entries@.len(),
            prefix@ == entries@[idx as int].relative_path@ + seq!['/'],
            first_below_with_media(entries@, media@, idx as int, idx + 1) == first_below_with_media(
                entries@,
                media@,
                idx as int,
                k as int,
            ),
        decreases entries@.len() - k,
    {
        let path = chars_of(entries[k].relative_path.as_str());
        if !has_prefix(&path, &prefix) {
            return ThumbSource::Missing;
        }
        if media[k].len() > 0 {
            return ThumbSource::Media { album: k, name: media[k][0].clone() };
        }
        k += 1;
    }
    ThumbSource::Missing
}

impl Duplicate for DetachedAlbum {
    fn duplicate(&self) -> (copy: DetachedAlbum) {
        DetachedAlbum {
            path: self.path.clone(),
            name: self.name.clone(),
            size: self.size,
            thumb_path: match &self.thumb_path {
                Some(p) => Some(p.clone()),
                None => None,
            },
            relative_path: self.relative_path.clone(),
            parent: match &self.parent {
                Some(p) => Some(p.clone()),
                None => None,
            },
        }
    }
}

/// The record of an album for a listing.
pub fn detached_album(entry: &AlbumDirEntry, size: usize, thumb_path: Option<String>) -> (album:
    DetachedAlbum)
    ensures
        album == (DetachedAlbum {
            path: entry.path,
            name: entry.name,
            size,
            thumb_path,
            relative_path: entry.relative_path,
            parent: entry.parent,
        }),
{
    DetachedAlbum {
        path: entry.path.clone(),
        name: entry.name.clone(),
        size,
        thumb_path,
        relative_path: entry.relative_path.clone(),
        parent: match &entry.parent {
            Some(p) => Some(p.clone()),
            None => None,
        },
    }
}

/// The relative paths of a list of album records.
pub open spec fn album_keys(albums: Seq<DetachedAlbum>) -> Seq<Seq<char>> {
    Seq::new(albums.len(), |i: int| albums[i].relative_path@)
}

/// The albums of a listing, ascending by relative path.
pub fn get_albums_detached(albums: &Vec<DetachedAlbum>) -> (sorted: Vec<DetachedAlbum>)
    ensures
        stably_sorted(albums@, album_keys(albums@), sorted@),
{
    let mut keys: Vec<Vec<char>> = Vec::new();
    let mut i: usize = 0;
    while i < albums.len()
        invariant
            i <= albums.len(),
            keys@.len() == i,
            forall|k: int| 0 <= k < i ==> (#[trigger] keys@[k])@ == albums@[k].relative_path@,
        decreases albums.len() - i,
    {
        keys.push(chars_of(albums[i].relative_path.as_str()));
        i += 1;
    }
    assert(texts(keys@) =~= album_keys(albums@));
    sort_with_keys(albums, &keys)
}

/// What a rename of an album comes to.
#[derive(Debug, PartialEq, Eq)]
pub struct RenamedAlbumResult {
    pub old_path: String,
    pub new_path: String,
    pub old_relative_path: String,
    pub new_relative_path: String,
    pub parent: Option<String>,
    pub name: String,
}

/// A favorite of some album.
#[derive(Debug, PartialEq, Eq)]
pub struct FavoriteDetachedMediaEntry {
    pub meta: String,
    pub name: String,
    pub album_path: String,
    pub album_name: String,
    pub album_id: String,
    pub favorite: bool,
}

/// A file that is to be added to an album.
#[derive(Debug, PartialEq, Eq)]
pub struct IncomingFile {
    pub name: String,
    /// Where the file lies now, if it is a file on disk.
    pub source_path: Option<String>,
    /// The content of the file, if it comes as bytes.
    pub data: Option<Vec<u8>>,
}

/// A name with `/`, `\` and `:` each replaced by an underscore.
pub open spec fn sanitized(name: Seq<char>) -> Seq<char> {
    Seq::new(
        name.len(),
        |i: int|
            if name[i] == '/' || name[i] == '\\' || name[i] == ':' {
                '_'
            } else {
                name[i]
            },
    )
}

/// The name that an album gets from a request to rename it: the new name
/// trimmed and made safe, unless the request is refused.
pub open spec fn requested_name(album_id: Seq<char>, new_name: Seq<char>) -> Result<Seq<char>, Error> {
    if trimmed(album_id).len() == 0 {
        Err(Error::EmptyAlbumId)
    } else if lowered(album_id) == lowered("favorites"@) {
        Err(Error::ReservedAlbumName)
    } else if trimmed(new_name).len() == 0 {
        Err(Error::EmptyAlbumName)
    } else {
        Ok(sanitized(trimmed(new_name)))
    }
}

/// Checks a request to rename the album `album_id` to `new_name` and
/// gives the name that the album is to get. The request is refused for a
/// blank album, for the alias of the favorites, and for a blank name.
pub fn sanitize_album_name(album_id: &str, new_name: &str) -> (r: Result<String, Error>)
    ensures
        match requested_name(album_id@, new_name@) {
            Ok(name) => r is Ok && r->Ok_0@ == name,
            Err(e) => r == Err::<String, Error>(e),
        },
{
    let id = chars_of(album_id);
    if trim(&id).len() == 0 {
        return Err(Error::EmptyAlbumId);
    }
    let alias = chars_of("favorites");
    if chars_eq(&to_lowered(&id), &to_lowered(&alias)) {
        return Err(Error::ReservedAlbumName);
    }
    let wanted = trim(&chars_of(new_name));
    if wanted.len() == 0 {
        return Err(Error::EmptyAlbumName);
    }
    let mut safe: Vec<char> = Vec::new();
    let mut i: usize = 0;
    while i < wanted.len()
        invariant
            i <= wanted.len(),
            safe@.len() == i,
            forall|k: int| 0 <= k < i ==> safe@[k] == sanitized(wanted@)[k],
        decreases wanted.len() - i,
    {
        let c: char = wanted[i];
        safe.push(
            if c == '/' || c == '\\' || c == ':' {
                '_'
            } else {
                c
            },
        );
        i += 1;
    }
    assert(safe@ =~= sanitized(wanted@));
    Ok(string_of(&safe))
}

/// The path that an album is renamed to: its directory with the new name.
pub open spec fn destination_of(target: Seq<char>, name: Seq<char>) -> Option<Seq<char>> {
    match parent_of(target) {
        Some(dir) => Some(joined(dir, name)),
        None => None,
    }
}

/// The path that the album at `target` is renamed to.
pub fn rename_destination(target: &str, safe_name: &str) -> (r: Option<String>)
    ensures
        match destination_of(target@, safe_name@) {
            Some(p) => r is Some && r->0@ == p,
            None => r is None,
        },
{
    match parent(target) {
        Some(dir) => Some(join(dir.as_str(), safe_name)),
        None => None,
    }
}

/// How a rename goes on once the paths are known.
#[derive(Debug, PartialEq, Eq)]
pub enum RenamePlan {
    /// The album has the wanted name already: nothing is renamed.
    Unchanged(RenamedAlbumResult),
    /// The directory `from` is renamed to `to`.
    Rename { from: String, to: String, result: RenamedAlbumResult },
}

/// The relative path of `path` below `root`, `/`-separated.
pub open spec fn relative_text(path: Seq<char>, root: Seq<char>) -> Seq<char> {
    match relative_of(path, root) {
        Some(r) => forward_slashes(r),
        None => Seq::empty(),
    }
}

/// The relative path of the directory of an album, none for the root.
pub open spec fn parent_text(dir: Seq<char>, root: Seq<char>) -> Option<Seq<char>> {
    if dir == root {
        None
    } else {
        match relative_of(dir, root) {
            Some(r) => Some(forward_slashes(r)),
            None => None,
        }
    }
}

/// The ways in which a request to rename an album can go.
pub enum RenameCase {
    /// The album is the root, or it or its new path lies outside the root.
    Escapes,
    /// The album has no directory that holds it.
    NoParent,
    /// The album has the wanted name already.
    Unchanged,
    /// Something exists at the new path.
    Taken,
    /// The album is renamed.
    Renamed,
}

/// How a request to rename the album at `target` under `root` goes.
pub open spec fn rename_case(
    root: Seq<char>,
    target: Seq<char>,
    name: Seq<char>,
    destination_taken: bool,
) -> RenameCase {
    if !is_under(target, root) || target == root {
        RenameCase::Escapes
    } else {
        match parent_of(target) {
            None => RenameCase::NoParent,
            Some(dir) => if file_name_of(target) == Some(name) {
                RenameCase::Unchanged
            } else if !is_under(joined(dir, name), root) {
                RenameCase::Escapes
            } else if destination_taken {
                RenameCase::Taken
            } else {
                RenameCase::Renamed
            },
        }
    }
}

/// `result` tells of the renaming of the album at `target` to `new_path`.
pub open spec fn tells_rename(
    result: RenamedAlbumResult,
    root: Seq<char>,
    target: Seq<char>,
    new_path: Seq<char>,
    name: Seq<char>,
) -> bool {
    &&& result.old_path@ == target
    &&& result.new_path@ == new_path
    &&& result.old_relative_path@ == relative_text(target, root)
    &&& result.new_relative_path@ == relative_text(new_path, root)
    &&& crate::metadata::opt_text(result.parent) == parent_text(parent_of(target)->0, root)
    &&& result.name@ == name
}

/// Plans the renaming of the album at `target`, which lies under `root`,
/// to `safe_name`; both paths are canonical. `destination_taken` tells
/// whether something exists at the path that `rename_destination` gives.
/// The rename is refused where the album is the root or lies outside it,
/// where the new path would, and where the new path is taken. An album that
/// has the name already stays as it is.
pub fn rename_album(root: &str, target: &str, safe_name: &str, destination_taken: bool) -> (r: Result<
    RenamePlan,
    Error,
>)
    ensures
        match rename_case(root@, target@, safe_name@, destination_taken) {
            RenameCase::Escapes => r == Err::<RenamePlan, Error>(Error::PathEscapesRoot),
            RenameCase::NoParent => r == Err::<RenamePlan, Error>(Error::RenameRoot),
            RenameCase::Taken => r matches Err(Error::AlbumExists { name, parent }) && name@
                == safe_name@ && Some(parent@) == parent_of(target@),
            RenameCase::Unchanged => r matches Ok(RenamePlan::Unchanged(result)) && tells_rename(
                result,
                root@,
                target@,
                target@,
                safe_name@,
            ),
            RenameCase::Renamed => {
                &&& r matches Ok(RenamePlan::Rename { from, to, result })
                &&& from@ == target@
                &&& Some(to@) == destination_of(target@, safe_name@)
                &&& tells_rename(result, root@, target@, to@, safe_name@)
            },
        },
{
    if !starts_with(target, root) || str_eq(target, root) {
        return Err(Error::PathEscapesRoot);
    }
    let dir = match parent(target) {
        Some(d) => d,
        None => {
            return Err(Error::RenameRoot);
        },
    };
    let same: bool = match file_name(target) {
        Some(current) => str_eq(current.as_str(), safe_name),
        None => false,
    };
    let old_relative: String = match strip_prefix(target, root) {
        Some(r) => normalized_relative_path(r.as_str()),
        None => "".to_owned(),
    };
    let parent_relative: Option<String> = if str_eq(dir.as_str(), root) {
        None
    } else {
        match strip_prefix(dir.as_str(), root) {
            Some(r) => Some(normalized_relative_path(r.as_str())),
            None => None,
        }
    };
    proof {
        reveal_strlit("");
        assert(forward_slashes(Seq::<char>::empty()) =~= Seq::<char>::empty());
    }
    if same {
        return Ok(
            RenamePlan::Unchanged(
                RenamedAlbumResult {
                    old_path: target.to_owned(),
                    new_path: target.to_owned(),
                    old_relative_path: old_relative.clone(),
                    new_relative_path: old_relative,
                    parent: parent_relative,
                    name: safe_name.to_owned(),
                },
            ),
        );
    }
    let new_path = join(dir.as_str(), safe_name);
    if !starts_with(new_path.as_str(), root) {
        return Err(Error::PathEscapesRoot);
    }
    if destination_taken {
        return Err(Error::AlbumExists { name: safe_name.to_owned(), parent: dir });
    }
    let new_relative: String = match strip_prefix(new_path.as_str(), root) {
        Some(r) => normalized_relative_path(r.as_str()),
        None => "".to_owned(),
    };
    Ok(
        RenamePlan::Rename {
            from: target.to_owned(),
            to: new_path.clone(),
            result: RenamedAlbumResult {
                old_path: target.to_owned(),
                new_path,
                old_relative_path: old_relative,
                new_relative_path: new_relative,
                parent: parent_relative,
                name: safe_name.to_owned(),
            },
        },
    )
}

/// How a media file is moved to another album.
#[derive(Debug, PartialEq, Eq)]
pub struct MovePlan {
    /// The name of the file in the album it came from.
    pub source_name: String,
    /// The name of the file in the album it goes to.
    pub target_name: String,
    /// The names of the thumbnail before and after, where artifacts move
    /// with the file.
    pub thumb: Option<(String, String)>,
    /// The names of the sidecar record before and after, where artifacts
    /// move with the file.
    pub meta: Option<(String, String)>,
}

/// The name under which a moved file is looked up: the final component of
/// what was given, or `file` where that names nothing.
pub open spec fn moved_name(media: Seq<char>) -> Seq<char> {
    match file_name_of(media) {
        Some(n) => n,
        None => "file"@,
    }
}

/// Plans the move of the media file `media` from one album to another.
/// The move is refused where one of the two is no directory, and where the
/// file is not there. In the target the file gets a name that none of
/// `target_entries` has. With `move_artifacts` its thumbnail and its
/// sidecar record go with it, named after the new name.
pub fn move_media(
    source_is_dir: bool,
    target_is_dir: bool,
    media: &str,
    source_is_file: bool,
    target_entries: &Vec<String>,
    move_artifacts: bool,
) -> (r: Result<MovePlan, Error>)
    ensures
        !(source_is_dir && target_is_dir) ==> r == Err::<MovePlan, Error>(Error::BadDirs),
        source_is_dir && target_is_dir && !source_is_file ==> r == Err::<MovePlan, Error>(
            Error::MissingSource,
        ),
        source_is_dir && target_is_dir && source_is_file ==> {
            &&& r is Ok
            &&& r->Ok_0.source_name@ == moved_name(media@)
            &&& is_unique_name(target_entries@, moved_name(media@), r->Ok_0.target_name@)
            &&& !holds(target_entries@, r->Ok_0.target_name@)
            &&& r->Ok_0.thumb is Some <==> move_artifacts
            &&& r->Ok_0.meta is Some <==> move_artifacts
            &&& move_artifacts ==> {
                &&& (r->Ok_0.thumb->0).0@ == moved_name(media@) + ".webp"@
                &&& (r->Ok_0.thumb->0).1@ == r->Ok_0.target_name@ + ".webp"@
                &&& (r->Ok_0.meta->0).0@ == moved_name(media@) + ".meta"@
                &&& (r->Ok_0.meta->0).1@ == r->Ok_0.target_name@ + ".meta"@
            }
        },
{
    if !(source_is_dir && target_is_dir) {
        return Err(Error::BadDirs);
    }
    let source_name: String = match file_name(media) {
        Some(n) => n,
        None => "file".to_owned(),
    };
    let target_name = unique_filename(target_entries, source_name.as_str());
    if !source_is_file {
        return Err(Error::MissingSource);
    }
    let (thumb, meta) = if move_artifacts {
        (
            Some(
                (
                    with_suffix(source_name.as_str(), ".webp"),
                    with_suffix(target_name.as_str(), ".webp"),
                ),
            ),
            Some(
                (
                    with_suffix(source_name.as_str(), ".meta"),
                    with_suffix(target_name.as_str(), ".meta"),
                ),
            ),
        )
    } else {
        (None, None)
    };
    Ok(MovePlan { source_name, target_name, thumb, meta })
}

/// `name` with `suffix` added.
fn with_suffix(name: &str, suffix: &str) -> (r: String)
    ensures
        r@ == name@ + suffix@,
{
    let mut chars = chars_of(name);
    append_str(&mut chars, suffix);
    string_of(&chars)
}

/// What is done with a file that comes in.
#[derive(Debug, PartialEq, Eq)]
pub enum Incoming {
    /// Nothing: the file has no name, or neither a source nor content.
    Skip,
    /// The file lies in the album already and is registered under `name`.
    /// With `verify`, only if a file of that name is there.
    Register { name: String, verify: bool },
    /// The file at `from` is copied into the album as `name`.
    Copy { name: String, from: String },
    /// The content is written into the album as `name`.
    Write { name: String },
}

/// Decides what is done with a file that comes in for the album at
/// `album_path`, whose entries are `existing`. A file that lies in the
/// album already is registered in place. A file from elsewhere is copied,
/// and content is written, under the next name that is free.
pub fn add_media_files(album_path: &str, file: &IncomingFile, existing: &Vec<String>) -> (plan:
    Incoming)
    ensures
        trimmed(file.name@).len() == 0 ==> plan == Incoming::Skip,
        trimmed(file.name@).len() > 0 ==> match file.source_path {
            Some(src) => if parent_of(src@) == Some(album_path@) {
                match file_name_of(src@) {
                    Some(n) => plan matches Incoming::Register { name, verify } && name@ == n
                        && !verify,
                    None => plan matches Incoming::Register { name, verify } && name@ == trimmed(
                        file.name@,
                    ) && verify,
                }
            } else {
                plan matches Incoming::Copy { name, from } && from == src && is_next_name(
                    existing@,
                    trimmed(file.name@),
                    name@,
                ) && !holds(existing@, name@)
            },
            None => if file.data is Some {
                plan matches Incoming::Write { name } && is_next_name(
                    existing@,
                    trimmed(file.name@),
                    name@,
                ) && !holds(existing@, name@)
            } else {
                plan == Incoming::Skip
            },
        },
{
    let wanted = trim(&chars_of(file.name.as_str()));
    if wanted.len() == 0 {
        return Incoming::Skip;
    }
    let name = string_of(&wanted);
    match &file.source_path {
        Some(src) => {
            let in_album: bool = match parent(src.as_str()) {
                Some(dir) => str_eq(dir.as_str(), album_path),
                None => false,
            };
            if in_album {
                match file_name(src.as_str()) {
                    Some(found) => Incoming::Register { name: found, verify: false },
                    None => Incoming::Register { name, verify: true },
                }
            } else {
                Incoming::Copy {
                    name: next_available_name(existing, name.as_str()),
                    from: src.clone(),
                }
            }
        },
        None => {
            if file.data.is_some() {
                Incoming::Write { name: next_available_name(existing, name.as_str()) }
            } else {
                Incoming::Skip
            }
        },
    }
}

/// The name under which a file that came in is to be registered, once what
/// was decided for it has been carried out. `stored` tells whether the copy
/// or the write went through, `is_file` whether a file of the decided name
/// lies in the album now. A file whose copy or write failed is passed over,
/// and so is one that is not there afterwards: neither ends the call, and
/// the files after it are still taken in.
pub fn incoming_stored(plan: &Incoming, stored: bool, is_file: bool) -> (r: Option<String>)
    ensures
        match *plan {
            Incoming::Skip => r is None,
            Incoming::Register { name, verify } => if verify && !is_file {
                r is None
            } else {
                r matches Some(n) && n@ == name@
            },
            Incoming::Copy { name, from } => if stored && is_file {
                r matches Some(n) && n@ == name@
            } else {
                r is None
            },
            Incoming::Write { name } => if stored && is_file {
                r matches Some(n) && n@ == name@
            } else {
                r is None
            },
        },
{
    match plan {
        Incoming::Skip => None,
        Incoming::Register { name, verify } => {
            if *verify && !is_file {
                None
            } else {
                Some(name.clone())
            }
        },
        Incoming::Copy { name, from } => {
            if stored && is_file {
                Some(name.clone())
            } else {
                None
            }
        },
        Incoming::Write { name } => {
            if stored && is_file {
                Some(name.clone())
            } else {
                None
            }
        },
    }
}

/// Adds the entry of a file to those that a call returns, where the file
/// was registered; a file that could not be registered adds nothing.
pub fn keep_registered(added: &mut Vec<DetachedMediaEntry>, registered: Option<DetachedMediaEntry>)
    ensures
        final(added)@ == (match registered {
            Some(e) => old(added)@.push(e),
            None => old(added)@,
        }),
{
    match registered {
        Some(e) => {
            added.push(e);
        },
        None => {},
    }
}

/// The entry that is returned for a file that was just registered.
pub fn registered_entry(album: &AlbumMeta, name: &str, meta: String) -> (entry: DetachedMediaEntry)
    requires
        album.wf(),
    ensures
        entry.meta == meta,
        entry.name@ == name@,
        entry.favorite == favorite_mark(album.entry_or_blank(name@).favorite),
{
    let favorite: bool = match album.get(name) {
        Some(e) => e.favorite,
        None => false,
    };
    DetachedMediaEntry {
        meta,
        name: name.to_owned(),
        favorite: if favorite {
            Some(true)
        } else {
            None
        },
    }
}

/// The entry of the one file that a registration was for: the last that
/// was registered, or an error where none was.
pub fn register_new_media(entries: Vec<DetachedMediaEntry>) -> (r: Result<DetachedMediaEntry, Error>)
    ensures
        entries@.len() == 0 ==> r == Err::<DetachedMediaEntry, Error>(Error::NothingRegistered),
        entries@.len() > 0 ==> r == Ok::<DetachedMediaEntry, Error>(entries@.last()),
{
    let mut entries = entries;
    match entries.pop() {
        Some(e) => Ok(e),
        None => Err(Error::NothingRegistered),
    }
}

/// The names of the first `n` records of a sidecar that are favorites, in
/// order.
pub open spec fn favorites_upto(album: AlbumMeta, n: int) -> Seq<Seq<char>>
    decreases n,
{
    if n <= 0 {
        Seq::empty()
    } else if album.files@[n - 1].entry.favorite {
        favorites_upto(album, n - 1).push(album.files@[n - 1].name@)
    } else {
        favorites_upto(album, n - 1)
    }
}

/// The names of the files that an album's sidecar marks as favorites.
pub fn favorite_names(album: &AlbumMeta) -> (names: Vec<String>)
    ensures
        string_texts(names@) == favorites_upto(*album, album.files@.len() as int),
{
    let mut names: Vec<String> = Vec::new();
    let mut i: usize = 0;
    assert(string_texts(names@) =~= favorites_upto(*album, 0));
    while i < album.files.len()
        invariant
            i <= album.files@.len(),
            string_texts(names@) == favorites_upto(*album, i as int),
        decreases album.files@.len() - i,
    {
        let ghost before = names@;
        if album.files[i].entry.favorite {
            names.push(album.files[i].name.clone());
            assert(string_texts(names@) =~= string_texts(before).push(album.files@[i as int].name@));
        }
        i += 1;
    }
    names
}

impl Duplicate for FavoriteDetachedMediaEntry {
    fn duplicate(&self) -> (copy: FavoriteDetachedMediaEntry) {
        FavoriteDetachedMediaEntry {
            meta: self.meta.clone(),
            name: self.name.clone(),
            album_path: self.album_path.clone(),
            album_name: self.album_name.clone(),
            album_id: self.album_id.clone(),
            favorite: self.favorite,
        }
    }
}

/// The entry of a favorite of the album `album`.
pub fn favorite_entry(album: &AlbumDirEntry, name: &str, meta: String) -> (entry:
    FavoriteDetachedMediaEntry)
    ensures
        entry.meta == meta,
        entry.name@ == name@,
        entry.album_path == album.path,
        entry.album_name == album.relative_path,
        entry.album_id == album.relative_path,
        entry.favorite,
{
    FavoriteDetachedMediaEntry {
        meta,
        name: name.to_owned(),
        album_path: album.path.clone(),
        album_name: album.relative_path.clone(),
        album_id: album.relative_path.clone(),
        favorite: true,
    }
}

/// The names of a list of favorites.
pub open spec fn favorite_keys(entries: Seq<FavoriteDetachedMediaEntry>) -> Seq<Seq<char>> {
    Seq::new(entries.len(), |i: int| entries[i].name@)
}

/// The album names of a list of favorites.
pub open spec fn favorite_albums(entries: Seq<FavoriteDetachedMediaEntry>) -> Seq<Seq<char>> {
    Seq::new(entries.len(), |i: int| entries[i].album_name@)
}

/// The favorites of all albums, ascending by album and, within an album,
/// by name: ordered by name first, then, keeping that order among equals,
/// by album.
pub fn list_favorites(entries: &Vec<FavoriteDetachedMediaEntry>) -> (sorted: Vec<
    FavoriteDetachedMediaEntry,
>)
    ensures
        exists|by_name: Seq<FavoriteDetachedMediaEntry>|
            #![trigger favorite_albums(by_name)]
            stably_sorted(entries@, favorite_keys(entries@), by_name) && stably_sorted(
                by_name,
                favorite_albums(by_name),
                sorted@,
            ),
{
    let mut keys: Vec<Vec<char>> = Vec::new();
    let mut i: usize = 0;
    while i < entries.len()
        invariant
            i <= entries.len(),
            keys@.len() == i,
            forall|k: int| 0 <= k < i ==> (#[trigger] keys@[k])@ == entries@[k].name@,
        decreases entries.len() - i,
    {
        keys.push(chars_of(entries[i].name.as_str()));
        i += 1;
    }
    assert(texts(keys@) =~= favorite_keys(entries@));
    let by_name = sort_with_keys(entries, &keys);
    let mut albums: Vec<Vec<char>> = Vec::new();
    let mut j: usize = 0;
    while j < by_name.len()
        invariant
            j <= by_name.len(),
            albums@.len() == j,
            forall|k: int| 0 <= k < j ==> (#[trigger] albums@[k])@ == by_name@[k].album_name@,
        decreases by_name.len() - j,
    {
        albums.push(chars_of(by_name[j].album_name.as_str()));
        j += 1;
    }
    assert(texts(albums@) =~= favorite_albums(by_name@));
    sort_with_keys(&by_name, &albums)
}

} // verus!
