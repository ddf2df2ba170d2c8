use room237::duplicates::{
    compute_hash_for_path, duplicate_scan_files, find_duplicates, hash_attempted, hashed_entries,
    load_cached_bits_from_meta, load_ignore_set, mark_non_duplicates, pair_key, save_ignore_set,
    Entry, HashOutcome, HashSource, HashStep,
};
use room237::error::Error;
use room237::grouping::group_duplicates;
use room237::hashbits::{blocks_from_bits, decode_hash_bits_base64, within_threshold};
use room237::metadata::{
    is_meta_failed, is_thumb_failed, mark_hash_failed, mark_meta_failed, set_favorite,
    write_album_file_hash, write_thumb_version, AlbumMeta,
};
use room237::settings::HashConfig;

fn cfg() -> HashConfig {
    HashConfig {
        bits: 64,
        hash_version: "v1".to_string(),
        effective_threshold: 5,
        use_thumbnails_first: true,
    }
}

fn album_with(hashes: &[(&str, u64)]) -> AlbumMeta {
    let mut album = AlbumMeta::new();
    for (name, word) in hashes {
        let bytes = word.to_le_bytes().to_vec();
        let out = hash_attempted(&mut album, name, &cfg(), HashSource::Thumbnail, Some(&bytes));
        assert_eq!(out, HashOutcome::Hashed(vec![*word]));
    }
    album
}

#[test]
fn hash_round_trips_through_sidecar() {
    let album = album_with(&[("a.jpg", 0x0123_4567_89ab_cdef)]);
    assert_eq!(
        load_cached_bits_from_meta(&album, "a.jpg", &cfg()),
        Some(vec![0x0123_4567_89ab_cdef])
    );
    assert_eq!(decode_hash_bits_base64("AAAAAAAAAAA=", 64), Some(vec![0]));
    assert_eq!(decode_hash_bits_base64("AAAAAAAAAAA=", 32), None);
    assert_eq!(decode_hash_bits_base64("not base64!", 64), None);
}

#[test]
fn blocks_and_distance() {
    assert_eq!(
        blocks_from_bits(&vec![0x4444_3333_2222_1111]),
        vec![0x1111, 0x2222, 0x3333, 0x4444]
    );
    assert!(within_threshold(&vec![0b1011], &vec![0b0000], 3));
    assert!(!within_threshold(&vec![0b1011], &vec![0b0000], 2));
}

#[test]
fn duplicate_detection_with_ignore() {
    let base: u64 = 0xffff_0000_ffff_0000;
    let mut album = album_with(&[
        ("n2.jpg", base ^ 0b11),
        ("n1.jpg", base),
        ("far.jpg", !base),
    ]);
    let files = vec!["n2.jpg".to_string(), "n1.jpg".to_string(), "far.jpg".to_string()];
    let groups = find_duplicates(&album, &files, &cfg());
    assert_eq!(groups, vec![vec!["n1.jpg".to_string(), "n2.jpg".to_string()]]);
    mark_non_duplicates(&mut album, &vec!["n2.jpg".to_string(), "n1.jpg".to_string()]);
    assert_eq!(album.duplicates_ignore, vec![("n1.jpg".to_string(), "n2.jpg".to_string())]);
    let groups = find_duplicates(&album, &files, &cfg());
    assert_eq!(groups, Vec::<Vec<String>>::new());
}

#[test]
fn chains_join_and_groups_are_sorted() {
    let entries = vec![
        Entry::new("z".to_string(), vec![0x0000_0000_0000_00ff]),
        Entry::new("m".to_string(), vec![0x0000_0000_0000_000f]),
        Entry::new("b".to_string(), vec![0x0000_0000_0000_0000]),
        Entry::new("q".to_string(), vec![0xaaaa_5555_aaaa_5555]),
        Entry::new("a".to_string(), vec![0xaaaa_5555_aaaa_5554]),
    ];
    // z-m differ in 4 bits, m-b in 4, z-b in 8: a threshold of 4 joins all three
    let groups = group_duplicates(&entries, &Vec::new(), 4);
    assert_eq!(
        groups,
        vec![
            vec!["a".to_string(), "q".to_string()],
            vec!["b".to_string(), "m".to_string(), "z".to_string()],
        ]
    );
}

#[test]
fn pair_key_is_ordered() {
    assert_eq!(pair_key("b", "a"), ("a".to_string(), "b".to_string()));
    assert_eq!(pair_key("a", "b"), ("a".to_string(), "b".to_string()));
    assert_eq!(pair_key("a", "a"), ("a".to_string(), "a".to_string()));
    let mut album = AlbumMeta::new();
    save_ignore_set(
        &mut album,
        vec![
            ("b".to_string(), "a".to_string()),
            ("a".to_string(), "b".to_string()),
            ("c".to_string(), "a".to_string()),
        ],
    );
    assert_eq!(
        load_ignore_set(&album),
        vec![("a".to_string(), "b".to_string()), ("a".to_string(), "c".to_string())]
    );
}

#[test]
fn ignore_list_stays_canonical() {
    let mut album = AlbumMeta::new();
    let files = |l: &[&str]| l.iter().map(|s| s.to_string()).collect::<Vec<_>>();
    mark_non_duplicates(&mut album, &files(&["c", "a", "b"]));
    mark_non_duplicates(&mut album, &files(&["b", "a"]));
    mark_non_duplicates(&mut album, &files(&["a"]));
    mark_non_duplicates(&mut album, &files(&[]));
    let p = |a: &str, b: &str| (a.to_string(), b.to_string());
    assert_eq!(album.duplicates_ignore, vec![p("a", "c"), p("b", "c"), p("a", "b")]);
    for (a, b) in &album.duplicates_ignore {
        assert!(a <= b);
    }
}

#[test]
fn files_without_a_usable_hash_take_no_part() {
    let mut album = album_with(&[("a.jpg", 1), ("b.jpg", 1), ("c.jpg", 1)]);
    mark_hash_failed(&mut album, "b.jpg");
    write_album_file_hash(&mut album, "c.jpg", "AAAAAAAAAAA=".into(), "old".into(), 64);
    write_album_file_hash(&mut album, "d.jpg", "AAAA".into(), "v1".into(), 64);
    let files: Vec<String> =
        ["a.jpg", "b.jpg", "c.jpg", "d.jpg", "e.jpg"].iter().map(|s| s.to_string()).collect();
    let entries = hashed_entries(&album, &files, &cfg());
    assert_eq!(entries, vec![Entry::new("a.jpg".to_string(), vec![1])]);
    assert_eq!(find_duplicates(&album, &files, &cfg()), Vec::<Vec<String>>::new());
}

#[test]
fn hashing_tries_the_other_source_then_fails() {
    let mut album = AlbumMeta::new();
    assert_eq!(compute_hash_for_path(&album, "x.jpg", &cfg()), HashStep::Hash(HashSource::Thumbnail));
    let original_first = HashConfig { use_thumbnails_first: false, ..cfg() };
    assert_eq!(
        compute_hash_for_path(&album, "x.jpg", &original_first),
        HashStep::Hash(HashSource::Original)
    );
    assert_eq!(
        hash_attempted(&mut album, "x.jpg", &cfg(), HashSource::Thumbnail, None),
        HashOutcome::Retry(HashSource::Original)
    );
    assert!(album.get("x.jpg").is_none());
    // a hash of the wrong size is no hash
    assert_eq!(
        hash_attempted(&mut album, "x.jpg", &cfg(), HashSource::Original, Some(&vec![0u8; 4])),
        HashOutcome::Failed
    );
    assert!(album.get("x.jpg").unwrap().hash_failed);
    assert!(!is_thumb_failed(&album, "x.jpg"));
    assert_eq!(
        hash_attempted(&mut album, "x.jpg", &cfg(), HashSource::Original, Some(&vec![7u8; 8])),
        HashOutcome::Hashed(vec![0x0707_0707_0707_0707])
    );
    let e = album.get("x.jpg").unwrap();
    assert!(!e.hash_failed);
    assert_eq!(e.hash.as_deref(), Some("BwcHBwcHBwc="));
    assert_eq!(e.hash_version.as_deref(), Some("v1"));
    assert_eq!(e.hash_bits, Some(64));
    assert_eq!(
        compute_hash_for_path(&album, "x.jpg", &cfg()),
        HashStep::Cached(vec![0x0707_0707_0707_0707])
    );
}

#[test]
fn scan_is_refused_for_an_album_that_is_too_large() {
    let names: Vec<String> =
        ["a.jpg", "b.txt", "c.png", "d.mp4", "e.gif"].iter().map(|s| s.to_string()).collect();
    let images: Vec<String> = ["a.jpg", "c.png", "e.gif"].iter().map(|s| s.to_string()).collect();
    assert_eq!(duplicate_scan_files(&names, 3), Ok(images.clone()));
    assert_eq!(duplicate_scan_files(&names, 4), Ok(images));
    assert_eq!(duplicate_scan_files(&names, 2), Err(Error::AlbumTooLarge { files: 3, max: 2 }));
    assert_eq!(duplicate_scan_files(&names, 0), Err(Error::AlbumTooLarge { files: 3, max: 0 }));
    assert_eq!(duplicate_scan_files(&Vec::new(), 1), Ok(vec![]));
    assert_eq!(duplicate_scan_files(&Vec::new(), 0), Ok(vec![]));
    let others: Vec<String> = ["b.txt", "d.mp4"].iter().map(|s| s.to_string()).collect();
    assert_eq!(duplicate_scan_files(&others, 0), Ok(vec![]));
}

#[test]
fn candidates_need_a_common_block() {
    // one bit differs in each of the four blocks: no block in common, so
    // the two are never compared, however close they are
    let entries = vec![
        Entry::new("a".to_string(), vec![0x0000_0000_0000_0000]),
        Entry::new("b".to_string(), vec![0x0001_0001_0001_0001]),
    ];
    assert_eq!(group_duplicates(&entries, &Vec::new(), 64), Vec::<Vec<String>>::new());
    let entries = vec![
        Entry::new("a".to_string(), vec![0x0000_0000_0000_0000]),
        Entry::new("b".to_string(), vec![0x0001_0001_0001_0000]),
    ];
    assert_eq!(
        group_duplicates(&entries, &Vec::new(), 3),
        vec![vec!["a".to_string(), "b".to_string()]]
    );
    assert_eq!(group_duplicates(&entries, &Vec::new(), 2), Vec::<Vec<String>>::new());
}

#[test]
fn more_ignored_pairs_never_make_a_new_group() {
    let entries = vec![
        Entry::new("a".to_string(), vec![0]),
        Entry::new("b".to_string(), vec![1]),
        Entry::new("c".to_string(), vec![3]),
        Entry::new("d".to_string(), vec![7]),
    ];
    let p = |a: &str, b: &str| (a.to_string(), b.to_string());
    let all = group_duplicates(&entries, &Vec::new(), 1);
    assert_eq!(all, vec![vec!["a", "b", "c", "d"]]);
    let split = group_duplicates(&entries, &vec![p("b", "c")], 1);
    assert_eq!(split, vec![vec!["a", "b"], vec!["c", "d"]]);
    let fewer = group_duplicates(&entries, &vec![p("b", "c"), p("a", "b")], 1);
    assert_eq!(fewer, vec![vec!["c", "d"]]);
}

#[test]
fn many_files_are_grouped() {
    let mut entries = Vec::new();
    for i in 0..300u64 {
        // pairs (2k, 2k+1) differ in one bit; different pairs differ in many
        let base = (i / 2).wrapping_mul(0x9e37_79b9_7f4a_7c15);
        entries.push(Entry::new(format!("f{i:03}"), vec![base ^ (i % 2)]));
    }
    let groups = group_duplicates(&entries, &Vec::new(), 1);
    assert_eq!(groups.len(), 150);
    for (k, g) in groups.iter().enumerate() {
        assert_eq!(g, &vec![format!("f{:03}", 2 * k), format!("f{:03}", 2 * k + 1)]);
    }
}

#[test]
fn ignored_pairs_count_in_either_order() {
    let entries = vec![Entry::new("a".to_string(), vec![0]), Entry::new("b".to_string(), vec![1])];
    let stored = vec![("b".to_string(), "a".to_string())];
    assert_eq!(group_duplicates(&entries, &stored, 1), Vec::<Vec<String>>::new());
    let other = vec![("a".to_string(), "c".to_string())];
    assert_eq!(
        group_duplicates(&entries, &other, 1),
        vec![vec!["a".to_string(), "b".to_string()]]
    );
}

#[test]
fn marking_tidies_a_list_that_was_not_canonical() {
    let p = |a: &str, b: &str| (a.to_string(), b.to_string());
    let mut album = AlbumMeta::new();
    album.duplicates_ignore = vec![p("b", "a"), p("a", "b"), p("c", "a"), p("a", "b")];
    mark_non_duplicates(&mut album, &vec!["x".to_string()]);
    let mut kept = album.duplicates_ignore.clone();
    kept.sort();
    assert_eq!(kept, vec![p("a", "b"), p("a", "c")]);
    mark_non_duplicates(&mut album, &Vec::new());
    let mut again = album.duplicates_ignore.clone();
    again.sort();
    assert_eq!(again, kept);
}

#[test]
fn a_hash_without_its_bit_count_is_not_used() {
    let mut album = album_with(&[("a.jpg", 7)]);
    assert_eq!(load_cached_bits_from_meta(&album, "a.jpg", &cfg()), Some(vec![7]));
    let mut entry = album.get_or_default("a.jpg");
    entry.hash_bits = None;
    album.put("a.jpg", entry);
    assert_eq!(load_cached_bits_from_meta(&album, "a.jpg", &cfg()), None);
    assert!(hashed_entries(&album, &vec!["a.jpg".to_string()], &cfg()).is_empty());
}

#[test]
fn a_kept_hash_leaves_the_rest_of_the_record() {
    let mut album = AlbumMeta::new();
    mark_meta_failed(&mut album, "a.jpg");
    set_favorite(&mut album, "a.jpg", true);
    write_thumb_version(&mut album, "a.jpg", "t1");
    mark_hash_failed(&mut album, "a.jpg");
    let bytes = 9u64.to_le_bytes().to_vec();
    let out = hash_attempted(&mut album, "a.jpg", &cfg(), HashSource::Thumbnail, Some(&bytes));
    assert_eq!(out, HashOutcome::Hashed(vec![9]));
    let e = album.get("a.jpg").unwrap();
    assert!(!e.hash_failed);
    assert!(e.meta_failed && e.favorite && !e.thumb_failed);
    assert_eq!(e.thumb_version.as_deref(), Some("t1"));
    assert_eq!(e.meta, None);
    assert!(is_meta_failed(&album, "a.jpg"));
}
