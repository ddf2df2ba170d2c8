use room237::album::{
    add_media_files, album_thumb_source, detached_album, favorite_entry, favorite_names,
    get_album_media, get_album_size, get_albums_detached, incoming_stored, is_album_dir,
    keep_registered, list_favorites, move_media, next_available_name,
    normalized_relative_path, register_new_media,
    registered_entry, rename_album, rename_destination, sanitize_album_name, unique_filename,
    walk_album_entries, AlbumDirEntry, Incoming, IncomingFile, MediaFile, MovePlan, RenamePlan,
    ThumbSource,
};
use room237::error::Error;
use room237::metadata::{
    set_favorite, unpack_file_meta, write_file_meta, AlbumMeta, DetachedFileMeta,
    DetachedMediaEntry,
};

fn names(list: &[&str]) -> Vec<String> {
    list.iter().map(|s| s.to_string()).collect()
}

#[test]
fn free_name_is_kept() {
    assert_eq!(unique_filename(&names(&[]), "x.jpg"), "x.jpg");
    assert_eq!(unique_filename(&names(&["y.jpg"]), "x.jpg"), "x.jpg");
}

#[test]
fn name_collision_on_move() {
    assert_eq!(unique_filename(&names(&["x.jpg"]), "x.jpg"), "x_1.jpg");
    assert_eq!(unique_filename(&names(&["x.jpg", "x_1.jpg", "x_2.jpg"]), "x.jpg"), "x_3.jpg");
    assert_eq!(unique_filename(&names(&["x.jpg", "x_2.jpg"]), "x.jpg"), "x_1.jpg");
}

#[test]
fn counter_in_the_stem_is_continued() {
    assert_eq!(unique_filename(&names(&[]), "img_5.jpg"), "img_6.jpg");
    assert_eq!(unique_filename(&names(&["img_6.jpg", "img_7.jpg"]), "img_5.jpg"), "img_8.jpg");
    assert_eq!(unique_filename(&names(&[]), "img_0.jpg"), "img_0.jpg");
    assert_eq!(unique_filename(&names(&["img_0.jpg"]), "img_0.jpg"), "img_1.jpg");
    assert_eq!(unique_filename(&names(&["a_b.jpg"]), "a_b.jpg"), "a_b_1.jpg");
    assert_eq!(unique_filename(&names(&["noext"]), "noext"), "noext_1");
    assert_eq!(unique_filename(&names(&[".hidden"]), ".hidden"), ".hidden_1");
    assert_eq!(unique_filename(&names(&["a."]), "a."), "a_1.");
}

#[test]
fn next_name_tries_the_counter_it_was_given() {
    assert_eq!(next_available_name(&names(&[]), "x.jpg"), "x.jpg");
    assert_eq!(next_available_name(&names(&["x.jpg"]), "x.jpg"), "x_1.jpg");
    assert_eq!(next_available_name(&names(&[]), "img_5.jpg"), "img_5.jpg");
    assert_eq!(next_available_name(&names(&["img_5.jpg"]), "img_5.jpg"), "img_6.jpg");
    assert_eq!(next_available_name(&names(&["file"]), ""), "file_1");
    assert_eq!(next_available_name(&names(&[]), "a."), "a");
    assert_eq!(next_available_name(&names(&["a"]), "a."), "a_1");
}

#[test]
fn albums_are_directories_outside_the_reserved_prefix() {
    assert!(is_album_dir("/root/a", true));
    assert!(!is_album_dir("/root/a", false));
    assert!(!is_album_dir("/root/.room237-thumb", true));
    assert!(!is_album_dir("/root/.room237-metadata", true));
    assert!(is_album_dir("/root/.room237", true));
    assert!(!is_album_dir("/root/..", true));
    assert_eq!(normalized_relative_path("a\\b/c"), "a/b/c");
}

#[test]
fn empty_root_has_no_albums() {
    assert_eq!(walk_album_entries("/root", &names(&[])), Ok(vec![]));
    assert_eq!(get_albums_detached(&vec![]), vec![]);
}

#[test]
fn albums_are_listed_by_relative_path() {
    let found = walk_album_entries("/root", &names(&["/root/b", "/root/a", "/root/a/z", "/root/a/c"]))
        .unwrap();
    let rel: Vec<&str> = found.iter().map(|e| e.relative_path.as_str()).collect();
    assert_eq!(rel, vec!["a", "a/c", "a/z", "b"]);
    assert_eq!(
        found[1],
        AlbumDirEntry {
            path: "/root/a/c".to_string(),
            name: "c".to_string(),
            relative_path: "a/c".to_string(),
            parent: Some("a".to_string()),
        }
    );
    assert_eq!(found[0].parent, None);
}

#[test]
fn album_outside_the_root_is_an_error() {
    assert_eq!(
        walk_album_entries("/root", &names(&["/root/a", "/elsewhere/b"])),
        Err(Error::NotUnderRoot { path: "/elsewhere/b".to_string(), root: "/root".to_string() })
    );
}

#[test]
fn single_album_one_image_cold_cache() {
    let album = AlbumMeta::new();
    let files = vec![
        MediaFile { name: "x.jpg".to_string(), added: Some(42) },
        MediaFile { name: "notes.txt".to_string(), added: Some(1) },
        MediaFile { name: "raw.heic".to_string(), added: Some(1) },
    ];
    let entries = get_album_media(&album, &files);
    assert_eq!(entries.len(), 1);
    assert_eq!(entries[0].name, "x.jpg");
    assert_eq!(entries[0].favorite, None);
    assert_eq!(
        unpack_file_meta(&entries[0].meta),
        Ok(DetachedFileMeta { a: Some(42), s: None, i: true, v: false, w: None, h: None })
    );
}

#[test]
fn listing_uses_the_sidecar_and_sorts_by_name() {
    let mut album = AlbumMeta::new();
    write_file_meta(&mut album, "b.mp4", "12345");
    set_favorite(&mut album, "b.mp4", true);
    set_favorite(&mut album, "a.png", true);
    let files = vec![
        MediaFile { name: "c.gif".to_string(), added: None },
        MediaFile { name: "b.mp4".to_string(), added: Some(7) },
        MediaFile { name: "a.png".to_string(), added: None },
    ];
    let entries = get_album_media(&album, &files);
    let listed: Vec<&str> = entries.iter().map(|e| e.name.as_str()).collect();
    assert_eq!(listed, vec!["a.png", "b.mp4", "c.gif"]);
    assert_eq!(entries[1].meta, "12345");
    assert_eq!(entries[1].favorite, Some(true));
    assert_eq!(entries[0].favorite, Some(true));
    assert_eq!(entries[2].favorite, None);
    assert_eq!(
        entries[0].meta,
        DetachedFileMeta { a: None, s: None, i: true, v: false, w: None, h: None }.pack()
    );
}

#[test]
fn album_size_counts_images_and_videos() {
    let files = vec![
        ("a.jpg".to_string(), 10u64),
        ("b.mp4".to_string(), 20),
        ("c.txt".to_string(), 40),
        ("d.heic".to_string(), 80),
    ];
    assert_eq!(get_album_size(&files), 30);
    assert_eq!(get_album_size(&vec![("a.jpg".to_string(), u64::MAX), ("b.jpg".to_string(), 1)]), u64::MAX);
    assert_eq!(get_album_size(&vec![]), 0);
}

fn entry(rel: &str) -> AlbumDirEntry {
    AlbumDirEntry {
        path: format!("/root/{rel}"),
        name: rel.rsplit('/').next().unwrap().to_string(),
        relative_path: rel.to_string(),
        parent: None,
    }
}

#[test]
fn album_thumbnail_is_found_in_order() {
    let entries = vec![entry("a"), entry("a/b"), entry("a/b/c"), entry("ab"), entry("z")];
    let media = vec![names(&[]), names(&[]), names(&["m.jpg", "n.jpg"]), names(&["q.jpg"]), names(&[])];
    assert_eq!(
        album_thumb_source(&entries, &media, &names(&["/t/1.webp", "/t/2.webp"]), 0),
        ThumbSource::Existing("/t/1.webp".to_string())
    );
    assert_eq!(
        album_thumb_source(&entries, &media, &names(&[]), 2),
        ThumbSource::Media { album: 2, name: "m.jpg".to_string() }
    );
    assert_eq!(
        album_thumb_source(&entries, &media, &names(&[]), 0),
        ThumbSource::Media { album: 2, name: "m.jpg".to_string() }
    );
    assert_eq!(album_thumb_source(&entries, &media, &names(&[]), 4), ThumbSource::Missing);
    // `ab` lies beside `a`, not below it
    let media = vec![names(&[]), names(&[]), names(&[]), names(&["q.jpg"]), names(&[])];
    assert_eq!(album_thumb_source(&entries, &media, &names(&[]), 0), ThumbSource::Missing);
}

#[test]
fn album_records_are_sorted_by_relative_path() {
    let a = detached_album(&entry("b"), 3, Some("/t/x.webp".to_string()));
    assert_eq!(a.size, 3);
    assert_eq!(a.thumb_path.as_deref(), Some("/t/x.webp"));
    assert_eq!(a.relative_path, "b");
    let sorted = get_albums_detached(&vec![a, detached_album(&entry("a"), 0, None)]);
    let rel: Vec<&str> = sorted.iter().map(|e| e.relative_path.as_str()).collect();
    assert_eq!(rel, vec!["a", "b"]);
}

#[test]
fn rename_album_safety() {
    assert_eq!(sanitize_album_name("a", "/etc"), Ok("_etc".to_string()));
    assert_eq!(sanitize_album_name("a", "  my:al\\bum/2 "), Ok("my_al_bum_2".to_string()));
    assert_eq!(sanitize_album_name("  ", "x"), Err(Error::EmptyAlbumId));
    assert_eq!(sanitize_album_name("Favorites", "x"), Err(Error::ReservedAlbumName));
    assert_eq!(sanitize_album_name("favorites ", "x"), Ok("x".to_string()));
    assert_eq!(sanitize_album_name("a", " \t"), Err(Error::EmptyAlbumName));

    assert_eq!(rename_destination("/root/a", "_etc"), Some("/root/_etc".to_string()));
    assert_eq!(rename_destination("/", "x"), None);

    match rename_album("/root", "/root/a", "a", true).unwrap() {
        RenamePlan::Unchanged(r) => {
            assert_eq!(r.old_path, "/root/a");
            assert_eq!(r.new_path, "/root/a");
            assert_eq!(r.old_relative_path, "a");
            assert_eq!(r.new_relative_path, "a");
            assert_eq!(r.parent, None);
            assert_eq!(r.name, "a");
        }
        other => panic!("{other:?}"),
    }
    assert_eq!(
        rename_album("/root", "/root/a", "b", true),
        Err(Error::AlbumExists { name: "b".to_string(), parent: "/root".to_string() })
    );
}

#[test]
fn rename_plans_the_new_paths() {
    match rename_album("/root", "/root/x/a", "_etc", false).unwrap() {
        RenamePlan::Rename { from, to, result } => {
            assert_eq!(from, "/root/x/a");
            assert_eq!(to, "/root/x/_etc");
            assert_eq!(result.old_relative_path, "x/a");
            assert_eq!(result.new_relative_path, "x/_etc");
            assert_eq!(result.parent, Some("x".to_string()));
            assert_eq!(result.name, "_etc");
            assert_eq!(result.new_path, "/root/x/_etc");
        }
        other => panic!("{other:?}"),
    }
}

#[test]
fn rename_refuses_to_leave_the_root() {
    assert_eq!(rename_album("/root", "/etc/a", "b", false), Err(Error::PathEscapesRoot));
    assert_eq!(rename_album("/root", "/root", "b", false), Err(Error::PathEscapesRoot));
    assert_eq!(rename_album("/", "/", "b", false), Err(Error::PathEscapesRoot));
    assert_eq!(rename_album("", "/", "b", false), Err(Error::RenameRoot));
}

#[test]
fn move_preserves_artifacts() {
    let plan = move_media(true, true, "x.jpg", true, &names(&[]), true).unwrap();
    assert_eq!(
        plan,
        MovePlan {
            source_name: "x.jpg".to_string(),
            target_name: "x.jpg".to_string(),
            thumb: Some(("x.jpg.webp".to_string(), "x.jpg.webp".to_string())),
            meta: Some(("x.jpg.meta".to_string(), "x.jpg.meta".to_string())),
        }
    );
    let plan = move_media(true, true, "x.jpg", true, &names(&["x.jpg"]), true).unwrap();
    assert_eq!(plan.target_name, "x_1.jpg");
    assert_eq!(plan.thumb, Some(("x.jpg.webp".to_string(), "x_1.jpg.webp".to_string())));
    assert_eq!(plan.meta, Some(("x.jpg.meta".to_string(), "x_1.jpg.meta".to_string())));
    let plan = move_media(true, true, "sub/x.jpg", true, &names(&[]), false).unwrap();
    assert_eq!(plan.source_name, "x.jpg");
    assert_eq!((plan.thumb, plan.meta), (None, None));
}

#[test]
fn move_is_refused_without_directories_or_file() {
    assert_eq!(move_media(false, true, "x.jpg", true, &names(&[]), true), Err(Error::BadDirs));
    assert_eq!(move_media(true, false, "x.jpg", true, &names(&[]), true), Err(Error::BadDirs));
    assert_eq!(move_media(true, true, "x.jpg", false, &names(&[]), true), Err(Error::MissingSource));
}

#[test]
fn incoming_files_are_placed() {
    let incoming = |name: &str, src: Option<&str>, data: Option<Vec<u8>>| IncomingFile {
        name: name.to_string(),
        source_path: src.map(|s| s.to_string()),
        data,
    };
    let existing = names(&["x.jpg"]);
    assert_eq!(add_media_files("/root/a", &incoming("  ", Some("/b/x.jpg"), None), &existing), Incoming::Skip);
    assert_eq!(add_media_files("/root/a", &incoming("x.jpg", None, None), &existing), Incoming::Skip);
    assert_eq!(
        add_media_files("/root/a", &incoming("renamed.jpg", Some("/root/a/x.jpg"), None), &existing),
        Incoming::Register { name: "x.jpg".to_string(), verify: false }
    );
    assert_eq!(
        add_media_files("/root/a", &incoming("n.jpg", Some("/root/a/.."), None), &existing),
        Incoming::Register { name: "n.jpg".to_string(), verify: true }
    );
    assert_eq!(
        add_media_files("/root/a", &incoming(" x.jpg ", Some("/elsewhere/y.jpg"), None), &existing),
        Incoming::Copy { name: "x_1.jpg".to_string(), from: "/elsewhere/y.jpg".to_string() }
    );
    assert_eq!(
        add_media_files("/root/a", &incoming("new.jpg", None, Some(vec![1, 2])), &existing),
        Incoming::Write { name: "new.jpg".to_string() }
    );
}

#[test]
fn registration_returns_the_last_entry() {
    let mut album = AlbumMeta::new();
    set_favorite(&mut album, "x.jpg", true);
    let e = registered_entry(&album, "x.jpg", "9".to_string());
    assert_eq!(
        e,
        DetachedMediaEntry { meta: "9".to_string(), name: "x.jpg".to_string(), favorite: Some(true) }
    );
    let other = registered_entry(&album, "y.jpg", "8".to_string());
    assert_eq!(other.favorite, None);
    assert_eq!(register_new_media(vec![other, e]).unwrap().name, "x.jpg");
    assert_eq!(register_new_media(vec![]), Err(Error::NothingRegistered));
}

#[test]
fn favorites_are_listed_by_album_then_name() {
    let mut album = AlbumMeta::new();
    set_favorite(&mut album, "b.jpg", true);
    set_favorite(&mut album, "a.jpg", false);
    set_favorite(&mut album, "c.jpg", true);
    assert_eq!(favorite_names(&album), names(&["b.jpg", "c.jpg"]));

    let z = entry("z");
    let a = entry("a");
    let listed = list_favorites(&vec![
        favorite_entry(&z, "1.jpg", "m".to_string()),
        favorite_entry(&a, "9.jpg", "m".to_string()),
        favorite_entry(&z, "0.jpg", "m".to_string()),
        favorite_entry(&a, "2.jpg", "m".to_string()),
    ]);
    let order: Vec<(&str, &str)> =
        listed.iter().map(|f| (f.album_name.as_str(), f.name.as_str())).collect();
    assert_eq!(order, vec![("a", "2.jpg"), ("a", "9.jpg"), ("z", "0.jpg"), ("z", "1.jpg")]);
    assert!(listed[0].favorite);
    assert_eq!(listed[0].album_path, "/root/a");
    assert_eq!(listed[0].album_id, "a");
}

#[test]
fn a_file_that_could_not_be_stored_is_passed_over() {
    let copy = Incoming::Copy { name: "x.jpg".to_string(), from: "/e/x.jpg".to_string() };
    let write = Incoming::Write { name: "y.jpg".to_string() };
    assert_eq!(incoming_stored(&copy, true, true), Some("x.jpg".to_string()));
    assert_eq!(incoming_stored(&copy, false, true), None);
    assert_eq!(incoming_stored(&copy, false, false), None);
    assert_eq!(incoming_stored(&copy, true, false), None);
    assert_eq!(incoming_stored(&write, true, true), Some("y.jpg".to_string()));
    assert_eq!(incoming_stored(&write, false, false), None);
    assert_eq!(incoming_stored(&write, true, false), None);
    assert_eq!(incoming_stored(&Incoming::Skip, true, true), None);
    let there = Incoming::Register { name: "z.jpg".to_string(), verify: false };
    assert_eq!(incoming_stored(&there, false, false), Some("z.jpg".to_string()));
    let maybe = Incoming::Register { name: "z.jpg".to_string(), verify: true };
    assert_eq!(incoming_stored(&maybe, false, false), None);
    assert_eq!(incoming_stored(&maybe, false, true), Some("z.jpg".to_string()));
}

#[test]
fn a_failing_file_does_not_end_the_call() {
    // three files come in; the copy of the second fails
    let existing = names(&[]);
    let files: Vec<IncomingFile> = ["a.jpg", "b.jpg", "c.jpg"]
        .iter()
        .map(|n| IncomingFile {
            name: n.to_string(),
            source_path: Some(format!("/elsewhere/{n}")),
            data: None,
        })
        .collect();
    let album = AlbumMeta::new();
    let mut added: Vec<DetachedMediaEntry> = Vec::new();
    for (i, file) in files.iter().enumerate() {
        let plan = add_media_files("/root/a", file, &existing);
        let stored = i != 1;
        let entry = incoming_stored(&plan, stored, stored)
            .map(|name| registered_entry(&album, &name, "m".to_string()));
        keep_registered(&mut added, entry);
    }
    let got: Vec<&str> = added.iter().map(|e| e.name.as_str()).collect();
    assert_eq!(got, vec!["a.jpg", "c.jpg"]);
}
