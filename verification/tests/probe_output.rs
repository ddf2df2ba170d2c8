use room237::metadata::ProbeInfo;
use room237::probe::{
    datetime_original, probe, read_embedded_timestamp, shoot_from_seconds, with_creation_time,
    write_embedded_timestamp,
};

const NONE: ProbeInfo = ProbeInfo { shoot: None, width: None, height: None };

#[test]
fn tag_time_is_read_as_utc() {
    assert_eq!(datetime_original(Some("2020:01:02 03:04:05"), None), Some(1577934245));
    assert_eq!(datetime_original(Some("  2020:01:02 03:04:05\0\0"), None), Some(1577934245));
    assert_eq!(datetime_original(None, Some("1970:01:01 00:00:10")), Some(10));
    assert_eq!(datetime_original(Some("garbage"), Some("1970:01:01 00:00:10")), None);
    assert_eq!(datetime_original(None, None), None);
    assert_eq!(datetime_original(Some("2020-01-02 03:04:05"), None), None);
}

#[test]
fn seconds_before_the_epoch_wrap() {
    assert_eq!(shoot_from_seconds(Some(5)), Some(5));
    assert_eq!(shoot_from_seconds(Some(-1)), Some(u64::MAX));
    assert_eq!(shoot_from_seconds(None), None);
    assert_eq!(datetime_original(Some("1969:12:31 23:59:59"), None), Some(u64::MAX));
}

#[test]
fn embedded_timestamp_is_plain_decimal() {
    assert_eq!(read_embedded_timestamp("1700000000"), Some(1700000000));
    assert_eq!(read_embedded_timestamp(" 1700000000"), None);
    assert_eq!(read_embedded_timestamp("1700000000\n"), None);
    assert_eq!(read_embedded_timestamp(""), None);
    assert_eq!(read_embedded_timestamp("18446744073709551616"), None);
    assert_eq!(write_embedded_timestamp(1700000000), "1700000000");
    assert_eq!(read_embedded_timestamp(&write_embedded_timestamp(u64::MAX)), Some(u64::MAX));
}

#[test]
fn dimensions_come_from_the_video_stream_line() {
    let info = probe("Input #0\n  Stream #0:0: Video: mjpeg, 640x480 [SAR 1:1]\n", false);
    assert_eq!(info, ProbeInfo { shoot: None, width: Some(640), height: Some(480) });
}

#[test]
fn width_is_the_run_of_digits_that_ends_at_the_x() {
    // the digits of the pixel format are no part of the width
    let info = probe("  Stream #0:0: Video: h264 (High), yuv420p, 1920x1080, 30 fps", false);
    assert_eq!(info, ProbeInfo { shoot: None, width: Some(1920), height: Some(1080) });
    let info = probe("  Stream #0:0: Video: h264 (High), yuv420p, 1920x1080, 25 fps\r\n", false);
    assert_eq!(info, ProbeInfo { shoot: None, width: Some(1920), height: Some(1080) });
    // nor is the tag of the codec a size
    let line = "  Stream #0:0(und): Video: h264 (High) (avc1 / 0x31637661), yuv420p(tv, bt709), \
                1280x720 [SAR 1:1 DAR 16:9], 2000 kb/s\n";
    let info = probe(line, false);
    assert_eq!(info, ProbeInfo { shoot: None, width: Some(1280), height: Some(720) });
}

#[test]
fn height_is_the_run_of_digits_after_the_x() {
    let info = probe("Stream #0:0: Video: png, 12x34", false);
    assert_eq!(info, ProbeInfo { shoot: None, width: Some(12), height: Some(34) });
    let info = probe("Stream #0:0: Video: png, 12x34\nStream #0:1: Video: png, 5x6 ", false);
    assert_eq!(info, ProbeInfo { shoot: None, width: Some(5), height: Some(6) });
}

#[test]
fn a_size_needs_digits_on_both_sides_of_the_x() {
    assert_eq!(probe("Stream #0:0: Video: png, 12x", false), NONE);
    assert_eq!(probe("Stream #0:0: Video: png, x34", false), NONE);
    assert_eq!(probe("Stream #0:0: Video: png, 12 x 34", false), NONE);
    assert_eq!(probe("Stream #0:0: Video: png,12x34", false), NONE);
    // the first place that is a size counts
    let info = probe("Stream #0:0: Video: png, 12x, 7x8, 9x10", false);
    assert_eq!(info, ProbeInfo { shoot: None, width: Some(7), height: Some(8) });
    // a line without a size leaves what an earlier line gave
    let info = probe("Stream #0:0: Video: png, 7x8\nStream #0:1: Video: none\n", false);
    assert_eq!(info, ProbeInfo { shoot: None, width: Some(7), height: Some(8) });
}

#[test]
fn a_number_too_large_counts_as_unknown() {
    let info = probe("Stream #0:0: Video: png, 4294967295x4294967296", false);
    assert_eq!(info, ProbeInfo { shoot: None, width: Some(4294967295), height: None });
    // and replaces what an earlier line gave
    let info = probe("Stream Video: , 7x8\nStream Video: , 99999999999x5\n", false);
    assert_eq!(info, ProbeInfo { shoot: None, width: None, height: Some(5) });
}

#[test]
fn lines_that_name_no_video_stream_do_not_count() {
    assert_eq!(probe("Stream #0:1: Audio: aac, 44100 Hz, 2x2 \n", false), NONE);
    assert_eq!(probe("Video: mjpeg, 640x480 \n", false), NONE);
    assert_eq!(probe("", false), NONE);
    assert_eq!(probe("Stream Video: nothing here\n", false), NONE);
}

#[test]
fn creation_time_is_read_on_request() {
    let text = "    creation_time=2021-03-04T05:06:07.000000Z\n";
    assert_eq!(probe(text, false), NONE);
    assert_eq!(probe(text, true), ProbeInfo { shoot: Some(1614834367), width: None, height: None });
    let offset = "creation_time  2021-03-04T05:06:07+01:00 \r\n";
    assert_eq!(probe(offset, true).shoot, Some(1614834367 - 3600));
    // as the media tool writes it: the key, padding, a colon, the time
    let spaced = "    creation_time   : 2021-03-04T05:06:07.000000Z\n";
    assert_eq!(probe(spaced, true).shoot, Some(1614834367));
    assert_eq!(probe(spaced, false), NONE);
}

#[test]
fn creation_time_is_an_rfc_3339_time_or_nothing() {
    assert_eq!(probe("creation_time:2021-03-04T05:06:07Z", true).shoot, Some(1614834367));
    assert_eq!(probe("creation_time:2021-03-04T05:06:07Z ", true).shoot, Some(1614834367));
    assert_eq!(probe("creation_time", true), NONE);
    assert_eq!(probe("creation_time:", true), NONE);
    assert_eq!(probe("creation_time: not a time at all, really", true), NONE);
    // one separator is passed over, not two
    assert_eq!(probe("creation_time :: 2021-03-04T05:06:07Z", true), NONE);
    assert_eq!(probe("creation_time: 2021-03-04 05:06", true), NONE);
}

#[test]
fn creation_time_and_size_come_from_their_lines() {
    let text = "Input #0, mov,mp4, from 'a.mp4':\n  Metadata:\n    creation_time   : \
                2021-03-04T05:06:07.000000Z\n  Stream #0:0(und): Video: h264 (High) (avc1 / \
                0x31637661), yuv420p, 1920x1080, 30 fps\n    Metadata:\n      creation_time   : \
                2021-03-04T05:06:08.000000Z\n";
    assert_eq!(
        probe(text, true),
        ProbeInfo { shoot: Some(1614834368), width: Some(1920), height: Some(1080) }
    );
    assert_eq!(probe(text, false), ProbeInfo { shoot: None, width: Some(1920), height: Some(1080) });
}

#[test]
fn creation_time_is_kept_or_replaced() {
    let acc = ProbeInfo { shoot: Some(1), width: Some(2), height: Some(3) };
    assert_eq!(with_creation_time(acc, Some(9)), ProbeInfo { shoot: Some(9), ..acc });
    assert_eq!(with_creation_time(acc, Some(-1)), ProbeInfo { shoot: Some(u64::MAX), ..acc });
    assert_eq!(with_creation_time(acc, None), acc);
}
