use snapmaker_timelapse_syncer::models::TimelapseInstance;
use snapmaker_timelapse_syncer::protocol::encode_url_path;
use snapmaker_timelapse_syncer::sync_engine::sanitize_filename;

#[test]
fn sanitizing_twice_changes_nothing() {
    for value in [
        "cube:final?.gcode",
        "CON",
        "  . ",
        "a. .",
        "\tname\n",
        "lpt1",
        "",
        "plain name",
    ] {
        let once = sanitize_filename(value);
        assert_eq!(sanitize_filename(&once), once, "{value:?}");
    }
    assert_eq!(sanitize_filename("lpt1"), "_lpt1");
}

#[test]
fn history_key_follows_size_and_time_only() {
    let a = TimelapseInstance {
        gcode_name: "cube".into(),
        video_path: "camera/cube.mp4".into(),
        video_file_size: 10,
        unix_timestamp_s: 1,
        ..TimelapseInstance::default()
    };
    let renamed = TimelapseInstance {
        gcode_name: "other".into(),
        thumbnail_path: "x.jpg".into(),
        ..a.clone()
    };
    assert_eq!(a.remote_key("SN"), renamed.remote_key("SN"));
    let resized = TimelapseInstance {
        video_file_size: 11,
        ..a.clone()
    };
    assert_ne!(a.remote_key("SN"), resized.remote_key("SN"));
    let recorded_again = TimelapseInstance {
        unix_timestamp_s: -1,
        ..a.clone()
    };
    assert_ne!(a.remote_key("SN"), recorded_again.remote_key("SN"));
}

#[test]
fn encoded_paths_decode_back() {
    for path in [
        "Goku Hair Left/file+name.mp4",
        "café/ü%20#?{}`<>\"",
        "/x//y/",
        "",
        "a\u{7f}\tb",
    ] {
        let encoded = encode_url_path(path);
        assert_eq!(
            percent_encoding::percent_decode_str(&encoded)
                .decode_utf8()
                .unwrap(),
            path
        );
        assert_eq!(encoded.split('/').count(), path.split('/').count());
        assert!(encoded.chars().all(|c| c.is_ascii()
            && !c.is_ascii_control()
            && !" \"#<>?`{}".contains(c)));
    }
}
