use room237::error::Error;
use room237::metadata::{
    album_meta_path, clear_thumb_failed, file_meta_path, get_file_metadata,
    get_file_metadata_cached, get_metadata_with_favorite, is_meta_failed, is_thumb_failed,
    load_album_file_hash, load_thumb_version, mark_hash_failed, mark_meta_failed,
    mark_thumb_failed, meta_dir, needs_probe, needs_tag_time, read_album_meta, reset_duplicates, set_favorite,
    set_media_favorite, set_media_timestamp, unpack_file_meta, write_album_file_hash,
    write_album_meta, write_file_meta, write_thumb_version, AlbumMeta, CachedHash,
    DetachedFileMeta, FileFacts, FileMetaEntry, FileRecord, ProbeInfo, StoredMetadata,
};

fn facts() -> FileFacts {
    FileFacts {
        added: Some(100),
        embedded_shoot: None,
        probe: Some(ProbeInfo { shoot: Some(200), width: Some(640), height: Some(480) }),
        exif_shoot: Some(300),
    }
}

#[test]
fn pack_layout_is_exact() {
    let m = DetachedFileMeta {
        a: Some(0x12_3456_789a),
        s: Some(0x0f_edcb_a987),
        i: true,
        v: false,
        w: Some(0x12345),
        h: Some(0x54321),
    };
    let expected: u128 = 0x12_3456_789a
        | (0x0f_edcb_a987u128 << 40)
        | (0x12345u128 << 80)
        | (0x54321u128 << 100)
        | (1u128 << 120)
        | (0b1111u128 << 122);
    assert_eq!(m.packed(), expected);
    assert_eq!(m.pack(), expected.to_string());
    assert_eq!(DetachedFileMeta::from_packed(expected), m);
}

#[test]
fn pack_cuts_fields_to_their_width() {
    let m = DetachedFileMeta {
        a: Some(u64::MAX),
        s: None,
        i: false,
        v: true,
        w: Some(u32::MAX),
        h: None,
    };
    let packed = m.pack();
    let back = unpack_file_meta(&packed).unwrap();
    assert_eq!(back.a, Some((1u64 << 40) - 1));
    assert_eq!(back.w, Some((1u32 << 20) - 1));
    assert_eq!(back.s, None);
    assert_eq!(back.h, None);
    assert!(back.v && !back.i);
    assert_eq!(back.pack(), packed);
}

#[test]
fn pack_of_nothing_is_zero() {
    let m = DetachedFileMeta { a: None, s: None, i: false, v: false, w: None, h: None };
    assert_eq!(m.pack(), "0");
    assert_eq!(unpack_file_meta("0"), Ok(m));
}

#[test]
fn unpack_rejects_what_is_no_number() {
    for s in ["", "abc", "-1", "1.5", "340282366920938463463374607431768211456"] {
        assert_eq!(unpack_file_meta(s), Err(Error::InvalidPackedMeta), "{s}");
    }
}

#[test]
fn blank_entry_has_nothing_set() {
    let e = FileMetaEntry::new();
    assert_eq!(e, FileMetaEntry::default());
    assert!(e.meta.is_none() && e.hash.is_none() && e.thumb_version.is_none());
    assert!(!e.favorite && !e.hash_failed && !e.thumb_failed && !e.meta_failed);
}

#[test]
fn mutators_touch_one_field_of_one_record() {
    let mut album = AlbumMeta::new();
    write_file_meta(&mut album, "a.jpg", "123");
    set_favorite(&mut album, "a.jpg", true);
    write_file_meta(&mut album, "b.jpg", "456");
    mark_thumb_failed(&mut album, "a.jpg");
    assert!(is_thumb_failed(&album, "a.jpg"));
    assert!(!is_thumb_failed(&album, "b.jpg"));
    assert!(!is_thumb_failed(&album, "missing.jpg"));
    let a = album.get("a.jpg").unwrap();
    assert_eq!(a.meta.as_deref(), Some("123"));
    assert!(a.favorite);
    clear_thumb_failed(&mut album, "a.jpg");
    assert!(!is_thumb_failed(&album, "a.jpg"));
    mark_meta_failed(&mut album, "b.jpg");
    assert!(is_meta_failed(&album, "b.jpg"));
    assert!(!is_meta_failed(&album, "a.jpg"));
    assert_eq!(album.get("b.jpg").unwrap().meta.as_deref(), Some("456"));
    assert_eq!(album.files.len(), 2);
}

#[test]
fn hash_fields_stay_consistent() {
    let mut album = AlbumMeta::new();
    write_album_file_hash(&mut album, "a.jpg", "AAAAAAAAAAA=".to_string(), "v1".to_string(), 64);
    let e = album.get("a.jpg").unwrap();
    assert!(e.hash.is_some() && e.hash_version.is_some() && e.hash_bits == Some(64));
    assert!(!e.hash_failed);
    assert_eq!(
        load_album_file_hash(&album, "a.jpg"),
        Some(CachedHash {
            hash: "AAAAAAAAAAA=".to_string(),
            version: Some("v1".to_string()),
            bits: Some(64)
        })
    );
    mark_hash_failed(&mut album, "a.jpg");
    let e = album.get("a.jpg").unwrap();
    assert!(e.hash.is_none() && e.hash_version.is_none() && e.hash_bits.is_none());
    assert!(e.hash_failed);
    assert_eq!(load_album_file_hash(&album, "a.jpg"), None);
    write_album_file_hash(&mut album, "a.jpg", "AAAAAAAAAAA=".to_string(), "v1".to_string(), 64);
    assert!(!album.get("a.jpg").unwrap().hash_failed);
}

#[test]
fn writing_a_hash_leaves_the_metadata_failure() {
    let mut album = AlbumMeta::new();
    mark_meta_failed(&mut album, "a.jpg");
    mark_hash_failed(&mut album, "a.jpg");
    write_album_file_hash(&mut album, "a.jpg", "AA==".to_string(), "v".to_string(), 8);
    assert!(is_meta_failed(&album, "a.jpg"));
    let e = album.get("a.jpg").unwrap();
    assert!(!e.hash_failed);
    assert_eq!(e.hash.as_deref(), Some("AA=="));
    assert_eq!(e.hash_version.as_deref(), Some("v"));
    assert_eq!(e.hash_bits, Some(8));
    // and where metadata had not failed, it has not failed afterwards
    write_album_file_hash(&mut album, "b.jpg", "AA==".to_string(), "v".to_string(), 8);
    assert!(!is_meta_failed(&album, "b.jpg"));
}

#[test]
fn thumb_version_clears_the_failure() {
    let mut album = AlbumMeta::new();
    mark_thumb_failed(&mut album, "a.jpg");
    assert_eq!(load_thumb_version(&album, "a.jpg"), None);
    write_thumb_version(&mut album, "a.jpg", "t2");
    assert_eq!(load_thumb_version(&album, "a.jpg"), Some("t2".to_string()));
    assert!(!is_thumb_failed(&album, "a.jpg"));
}

#[test]
fn cached_metadata_is_found_only_where_it_is() {
    let mut album = AlbumMeta::new();
    assert_eq!(get_metadata_with_favorite(&album, "a.jpg"), None);
    set_favorite(&mut album, "a.jpg", true);
    assert_eq!(get_metadata_with_favorite(&album, "a.jpg"), None);
    assert_eq!(get_file_metadata_cached(&album, "a.jpg"), None);
    write_file_meta(&mut album, "a.jpg", "77");
    assert_eq!(
        get_metadata_with_favorite(&album, "a.jpg"),
        Some(StoredMetadata { meta: "77".to_string(), favorite: true })
    );
    assert_eq!(get_file_metadata_cached(&album, "a.jpg"), Some("77".to_string()));
}

#[test]
fn extraction_prefers_embedded_then_probe_then_tags() {
    let mut album = AlbumMeta::new();
    mark_meta_failed(&mut album, "x.jpg");
    let packed = get_file_metadata(&mut album, "x.jpg", &facts());
    let m = unpack_file_meta(&packed).unwrap();
    assert_eq!(
        m,
        DetachedFileMeta { a: Some(100), s: Some(200), i: true, v: false, w: Some(640), h: Some(480) }
    );
    assert_eq!(get_file_metadata_cached(&album, "x.jpg"), Some(packed));
    assert!(!is_meta_failed(&album, "x.jpg"));

    let embedded = FileFacts { embedded_shoot: Some(50), ..facts() };
    let m = unpack_file_meta(&get_file_metadata(&mut album, "x.jpg", &embedded)).unwrap();
    assert_eq!(m.s, Some(50));

    let no_probe_time = FileFacts {
        probe: Some(ProbeInfo { shoot: None, width: None, height: None }),
        ..facts()
    };
    let m = unpack_file_meta(&get_file_metadata(&mut album, "x.jpg", &no_probe_time)).unwrap();
    assert_eq!(m.s, Some(300));
    let m = unpack_file_meta(&get_file_metadata(&mut album, "x.mp4", &no_probe_time)).unwrap();
    assert_eq!(m.s, None);
    assert!(m.v && !m.i);
}

#[test]
fn extraction_ignores_the_probe_of_what_is_no_media() {
    let mut album = AlbumMeta::new();
    let m = unpack_file_meta(&get_file_metadata(&mut album, "notes.txt", &facts())).unwrap();
    assert_eq!(
        m,
        DetachedFileMeta { a: Some(100), s: None, i: false, v: false, w: None, h: None }
    );
}

#[test]
fn favorite_keeps_the_metadata_that_was_there() {
    let mut album = AlbumMeta::new();
    write_file_meta(&mut album, "x.jpg", "5");
    let entry = set_media_favorite(&mut album, "x.jpg", true, &facts());
    assert_eq!(entry.name, "x.jpg");
    assert_eq!(entry.favorite, Some(true));
    assert_eq!(Some(entry.meta.clone()), get_file_metadata_cached(&album, "x.jpg"));
    assert!(album.get("x.jpg").unwrap().favorite);
    let entry = set_media_favorite(&mut album, "x.jpg", false, &facts());
    assert_eq!(entry.favorite, None);
    assert!(!album.get("x.jpg").unwrap().favorite);
}

#[test]
fn timestamp_replaces_the_shoot_time_only() {
    let mut album = AlbumMeta::new();
    set_favorite(&mut album, "x.jpg", true);
    let before = DetachedFileMeta { a: Some(1), s: None, i: true, v: false, w: Some(2), h: Some(3) };
    let entry = set_media_timestamp(&mut album, "x.jpg", &before.pack(), 999).unwrap();
    let after = unpack_file_meta(&entry.meta).unwrap();
    assert_eq!(after, DetachedFileMeta { s: Some(999), ..before });
    assert_eq!(entry.favorite, Some(true));
    assert_eq!(get_file_metadata_cached(&album, "x.jpg"), Some(entry.meta));
    assert_eq!(
        set_media_timestamp(&mut album, "x.jpg", "oops", 1),
        Err(Error::InvalidPackedMeta)
    );
}

#[test]
fn sidecar_paths() {
    assert_eq!(meta_dir("/root/a"), "/root/a/.room237-metadata");
    assert_eq!(album_meta_path("/root/a"), "/root/a/.room237-metadata/album.json");
    assert_eq!(file_meta_path("/root/a", "x.jpg"), "/root/a/.room237-metadata/x.jpg.meta");
}

#[test]
fn album_is_read_from_its_record_files() {
    let mut fav = FileMetaEntry::new();
    fav.favorite = true;
    let records = vec![
        FileRecord { name: "x.jpg.meta".to_string(), entry: fav },
        FileRecord { name: "album.json".to_string(), entry: FileMetaEntry::new() },
        FileRecord { name: ".meta".to_string(), entry: FileMetaEntry::new() },
    ];
    let ignore = vec![("a".to_string(), "b".to_string())];
    let album = read_album_meta(ignore.clone(), &records);
    assert_eq!(album.duplicates_ignore, ignore);
    assert!(album.get("x.jpg").unwrap().favorite);
    assert!(album.get("album.json").is_none());
    assert!(album.get("").is_some());
    assert_eq!(album.files.len(), 2);
    let empty = read_album_meta(Vec::new(), &Vec::new());
    assert_eq!(empty, AlbumMeta::new());
}

#[test]
fn album_record_holds_the_ignored_pairs_only() {
    let mut album = AlbumMeta::new();
    write_file_meta(&mut album, "x.jpg", "1");
    album.duplicates_ignore.push(("a".to_string(), "b".to_string()));
    let record = write_album_meta(&album);
    assert!(record.files.is_empty());
    assert_eq!(record.duplicates_ignore, album.duplicates_ignore);
    assert!(reset_duplicates(&mut album));
    assert!(album.duplicates_ignore.is_empty());
    assert!(!reset_duplicates(&mut album));
    assert_eq!(album.files.len(), 1);
}

#[test]
fn tags_are_read_only_where_they_count() {
    let probe = |shoot| Some(ProbeInfo { shoot, width: None, height: None });
    assert!(needs_tag_time("x.jpg", None, None));
    assert!(needs_tag_time("x.jpg", None, probe(None)));
    assert!(!needs_tag_time("x.jpg", None, probe(Some(1))));
    assert!(!needs_tag_time("x.jpg", Some(1), None));
    assert!(!needs_tag_time("x.mp4", None, None));
    assert!(needs_probe("x.MP4"));
    assert!(needs_probe("x.png"));
    assert!(!needs_probe("x.heic"));
    assert!(!needs_probe("x.txt"));
}
