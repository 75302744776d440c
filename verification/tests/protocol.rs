use snapmaker_timelapse_syncer::models::PrinterConfig;
use snapmaker_timelapse_syncer::protocol::{
    camera_files_to_instances, camera_list_url, encode_url_path, validate_host, CameraFile,
    HostError,
};

fn printer(host: &str, port: u16) -> PrinterConfig {
    PrinterConfig {
        host: host.into(),
        http_port: port,
        ..PrinterConfig::default()
    }
}

#[test]
fn rejects_url_instead_of_host() {
    assert!(validate_host("http://192.168.1.2").is_err());
    assert!(validate_host("192.168.1.2").is_ok());
    assert!(validate_host("U1-ABC.local").is_ok());
}

#[test]
fn encodes_spaces_as_url_path_not_form_data() {
    assert_eq!(
        encode_url_path("Goku Hair Left/file+name.mp4"),
        "Goku%20Hair%20Left/file+name.mp4"
    );
}

#[test]
fn host_validation_covers_each_rule() {
    assert_eq!(validate_host(""), Err(HostError::InvalidAddress));
    assert_eq!(validate_host("   "), Err(HostError::InvalidAddress));
    assert!(validate_host("  192.168.1.2  ").is_ok());
    assert!(validate_host("a\\b").is_err());
    assert!(validate_host("user@host").is_err());
    assert!(validate_host("two words").is_err());
    assert!(validate_host(&"a".repeat(253)).is_ok());
    assert!(validate_host(&"a".repeat(254)).is_err());
    // 127 two-byte characters take 254 bytes.
    assert!(validate_host(&"é".repeat(127)).is_err());
    assert!(validate_host(&"é".repeat(126)).is_ok());
    assert_eq!(
        HostError::InvalidAddress.message(),
        "invalid printer address"
    );
}

#[test]
fn encodes_reserved_and_non_ascii_bytes() {
    assert_eq!(encode_url_path("a#b?c%d"), "a%23b%3Fc%25d");
    assert_eq!(encode_url_path("café/ü"), "caf%C3%A9/%C3%BC");
    assert_eq!(encode_url_path("/x//y/"), "/x//y/");
    assert_eq!(encode_url_path("{a}<b>`\"c\""), "%7Ba%7D%3Cb%3E%60%22c%22");
}

#[test]
fn list_url_brackets_ipv6_hosts() {
    assert_eq!(
        camera_list_url(&printer("192.168.1.2", 7125)).unwrap(),
        "http://192.168.1.2:7125/server/files/list?root=camera"
    );
    assert_eq!(
        camera_list_url(&printer("fe80::1", 80)).unwrap(),
        "http://[fe80::1]:80/server/files/list?root=camera"
    );
    assert_eq!(
        camera_list_url(&printer("[fe80::1]", 80)).unwrap(),
        "http://[fe80::1]:80/server/files/list?root=camera"
    );
    assert!(camera_list_url(&printer("http://x", 80)).is_err());
}

#[test]
fn camera_listing_keeps_only_videos() {
    let files = vec![
        CameraFile {
            path: "cube.MP4".into(),
            modified_s: 1_700_000_000,
            size: 10,
        },
        CameraFile {
            path: "cube.jpg".into(),
            modified_s: 1,
            size: 1,
        },
        CameraFile {
            path: "sub dir/benchy.mov".into(),
            modified_s: 2,
            size: 20,
        },
        CameraFile {
            path: "noext".into(),
            modified_s: 3,
            size: 30,
        },
    ];
    let instances = camera_files_to_instances(&files);
    assert_eq!(instances.len(), 2);
    assert_eq!(instances[0].gcode_name, "cube");
    assert_eq!(instances[0].thumbnail_path, "cube.jpg");
    assert_eq!(instances[0].timelapse_dir, "camera");
    assert_eq!(instances[0].video_path, "camera/cube.MP4");
    assert_eq!(
        instances[0].video_local_url_suffix,
        "/server/files/camera/cube.MP4"
    );
    assert_eq!(instances[0].video_file_size, 10);
    assert_eq!(instances[0].unix_timestamp_s, 1_700_000_000);
    assert_eq!(instances[1].gcode_name, "benchy");
    assert_eq!(instances[1].thumbnail_path, "sub dir/benchy.jpg");
    assert_eq!(
        instances[1].video_local_url_suffix,
        "/server/files/camera/sub%20dir/benchy.mov"
    );
}
