use room237::metadata::{unpack_file_meta, DetachedFileMeta};

#[test]
fn pack_sets_presence_bits() {
    let m = DetachedFileMeta { a: Some(1), s: None, i: true, v: false, w: None, h: None };
    let expected: u128 = 1 | (1u128 << 120) | (1u128 << 122);
    assert_eq!(m.pack(), expected.to_string());
}

#[test]
fn pack_unpack_round_trip() {
    let m = DetachedFileMeta {
        a: Some(1_700_000_000),
        s: Some(1_600_000_000),
        i: false,
        v: true,
        w: Some(1920),
        h: Some(1080),
    };
    let packed = m.pack();
    assert_eq!(unpack_file_meta(&packed), Ok(m));
    assert_eq!(unpack_file_meta(&packed).unwrap().pack(), packed);
}
