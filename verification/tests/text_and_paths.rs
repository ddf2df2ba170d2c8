use room237::decimal::{format_u128, parse_u128, parse_u32, parse_u64};
use room237::order::sorted_order;
use room237::paths::{file_name, join, parent, starts_with, strip_prefix};
use room237::text::{chars_of, is_whitespace, skip_space, str_le, trim};
use room237::util::{
    converted_path, has_extension, heic_to_jpeg, is_listed_media, media_kind, meta_path,
    needs_conversion, newer_than, MediaKind,
};

fn chars(s: &str) -> Vec<char> {
    s.chars().collect()
}

#[test]
fn decimal_text_matches_std() {
    for n in [0u128, 7, 10, 99, 100, 12345678901234567890, u128::MAX] {
        assert_eq!(format_u128(n), n.to_string());
        assert_eq!(parse_u128(&n.to_string()), Some(n));
    }
}

#[test]
fn parse_follows_std_rules() {
    for s in ["", "+", "-1", "+5", "007", " 1", "1 ", "12a", "340282366920938463463374607431768211455",
        "340282366920938463463374607431768211456", "99999999999999999999999999999999999999999"] {
        assert_eq!(parse_u128(s), s.parse::<u128>().ok(), "{s}");
    }
    assert_eq!(parse_u64(&chars("18446744073709551615")), Some(u64::MAX));
    assert_eq!(parse_u64(&chars("18446744073709551616")), None);
    assert_eq!(parse_u32(&chars("4294967295")), Some(u32::MAX));
    assert_eq!(parse_u32(&chars("4294967296")), None);
}

#[test]
fn trim_drops_unicode_whitespace() {
    assert_eq!(trim(&chars(" \t a b\u{3000}\n")), chars("a b"));
    assert_eq!(trim(&chars("   ")), chars(""));
    assert_eq!(chars_of("héllo"), chars("héllo"));
}

#[test]
fn string_order_is_that_of_str() {
    let words = ["", "a", "A", "ab", "b", "a_1", "a.jpg", "é", "z", "aa"];
    for a in words {
        for b in words {
            assert_eq!(str_le(a, b), a <= b, "{a} {b}");
        }
    }
}

#[test]
fn sorted_order_is_stable() {
    let keys = vec![chars("b"), chars("a"), chars("b"), chars("a"), chars("")];
    assert_eq!(sorted_order(&keys), vec![4, 1, 3, 0, 2]);
    assert_eq!(sorted_order(&Vec::new()), Vec::<usize>::new());
}

#[test]
fn path_parts() {
    assert_eq!(file_name("/root/a/x.jpg"), Some("x.jpg".to_string()));
    assert_eq!(file_name("x.jpg"), Some("x.jpg".to_string()));
    assert_eq!(file_name("/root/a/.."), None);
    assert_eq!(file_name("/root/a/"), None);
    assert_eq!(file_name(""), None);
    assert_eq!(parent("/root/a/x.jpg"), Some("/root/a".to_string()));
    assert_eq!(parent("/x"), Some("/".to_string()));
    assert_eq!(parent("x"), Some("".to_string()));
    assert_eq!(parent("/"), None);
    assert_eq!(parent(""), None);
    assert_eq!(join("/root/a", "x.jpg"), "/root/a/x.jpg");
    assert_eq!(join("/root/a/", "x.jpg"), "/root/a/x.jpg");
    assert_eq!(join("", "x.jpg"), "x.jpg");
    assert_eq!(join("/root", "/etc"), "/etc");
}

#[test]
fn paths_below_a_root() {
    assert!(starts_with("/root/a", "/root"));
    assert!(starts_with("/root", "/root"));
    assert!(!starts_with("/rooted", "/root"));
    assert!(!starts_with("/other/a", "/root"));
    assert!(starts_with("a/b", ""));
    assert_eq!(strip_prefix("/root/a/b", "/root"), Some("a/b".to_string()));
    assert_eq!(strip_prefix("/root", "/root"), Some("".to_string()));
    assert_eq!(strip_prefix("/rooted", "/root"), None);
}

#[test]
fn extension_classes() {
    for name in ["a.jpg", "a.JPEG", "a.png", "a.webp", "a.avif", "a.gif", "/x/y.BMP"] {
        assert_eq!(media_kind(name), MediaKind::Image, "{name}");
    }
    for name in ["a.mp4", "a.MOV", "a.mkv", "a.webm", "a.avi", "a.flv", "a.m4v"] {
        assert_eq!(media_kind(name), MediaKind::Video, "{name}");
    }
    assert_eq!(media_kind("a.HEIC"), MediaKind::Heic);
    for name in ["a.txt", "jpg", ".jpg", "a.jpg/", "a.", ""] {
        assert_eq!(media_kind(name), MediaKind::Other, "{name}");
    }
    assert!(is_listed_media("x.Mp4"));
    assert!(!is_listed_media("x.heic"));
}

#[test]
fn has_extension_ignores_case_of_the_path_only() {
    assert!(has_extension("/a/b/Photo.JPG", &["jpg", "png"]));
    assert!(!has_extension("/a/b/Photo.JPG", &["JPG"]));
    assert!(!has_extension("/a/b/Photo", &["jpg"]));
    assert!(!has_extension("/a/b/.jpg", &["jpg"]));
    assert!(!has_extension("/a/b/photo.jpg", &[]));
}

#[test]
fn sidecar_path_of_a_file() {
    assert_eq!(meta_path("/root/a/.room237-metadata", "x.jpg"), "/root/a/.room237-metadata/x.jpg.meta");
}

#[test]
fn newer_than_needs_both_times() {
    assert_eq!(newer_than(Some(5), Some(5)), Some(true));
    assert_eq!(newer_than(Some(4), Some(5)), Some(false));
    assert_eq!(newer_than(None, Some(5)), None);
    assert_eq!(newer_than(Some(5), None), None);
}

#[test]
fn conversion_of_heic() {
    assert!(needs_conversion(None, Some(1)));
    assert!(needs_conversion(Some(1), Some(2)));
    assert!(!needs_conversion(Some(2), Some(2)));
    assert_eq!(converted_path("/root/a/img.heic"), "/root/a/img.jpeg");
    assert_eq!(converted_path("/root/a.b/img"), "/root/a.b/img.jpeg");
    assert_eq!(converted_path("/root/a/.hidden"), "/root/a/.hidden.jpeg");
    assert_eq!(
        heic_to_jpeg("/a/i.heic", "/a/i.jpeg"),
        vec!["-i", "/a/i.heic", "-y", "-map_metadata", "0", "/a/i.jpeg"]
    );
}

#[test]
fn whitespace_is_what_the_standard_library_takes_for_it() {
    let mut seen: u32 = 0;
    for n in 0..=0x10ffffu32 {
        if let Some(c) = char::from_u32(n) {
            assert_eq!(is_whitespace(c), c.is_whitespace(), "U+{n:04X}");
            if is_whitespace(c) {
                seen += 1;
            }
        }
    }
    assert_eq!(seen, 25);
    assert!(is_whitespace(' ') && is_whitespace('\t') && is_whitespace('\u{3000}'));
    assert!(!is_whitespace('a') && !is_whitespace('\u{200b}') && !is_whitespace('\0'));
}

#[test]
fn leading_whitespace_is_passed_over() {
    let text: Vec<char> = " \t x y ".chars().collect();
    assert_eq!(skip_space(&text, 0), 3);
    assert_eq!(skip_space(&text, 3), 3);
    assert_eq!(skip_space(&text, 4), 5);
    assert_eq!(skip_space(&text, 6), 7);
    assert_eq!(skip_space(&text, 7), 7);
}
