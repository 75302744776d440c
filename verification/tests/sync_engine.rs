use snapmaker_timelapse_syncer::candidates::{
    download_candidates, thumbnail_source, CandidateError, ThumbnailSource,
};
use snapmaker_timelapse_syncer::models::{
    AppConfig, HistoryEntry, HistoryResult, PrinterConfig, SyncStatus, SyncSummary,
    TimelapseInstance, UtcTimestamp,
};
use snapmaker_timelapse_syncer::sync_engine::{
    all_attempts_failed_message, begin_listing, choose_target, completed_entry,
    conflict_file_name, display_name, download_progress, fail_sync, failed_entry, find_completed,
    finish_sync, local_copy_is_valid, local_filename, local_filename_is_defined,
    local_filename_with_label, progress_percent, sanitize_filename, sanitize_filename_is_defined,
    should_stop_before_next_file, show_counts, sync_printer, validate_download_size,
    video_extension, DownloadSizeError, FileMetadata, FileOutcome, LocalFileProbe, NextFile,
    SyncError, SyncRun, TargetChoice,
};
use std::sync::atomic::{AtomicBool, Ordering};

/// A timelapse as the printer lists it.
fn instance() -> TimelapseInstance {
    TimelapseInstance {
        gcode_name: "cube".into(),
        thumbnail_path: "camera/cube.jpg".into(),
        timelapse_dir: "camera".into(),
        video_path: "camera/cube.mp4".into(),
        video_local_url_suffix: "/server/files/camera/cube.mp4".into(),
        video_file_size: 1000,
        unix_timestamp_s: 1_700_000_000,
        ..TimelapseInstance::default()
    }
}

fn hrefs(host: &str, port: u16, item: &TimelapseInstance) -> Vec<String> {
    download_candidates(host, port, item)
        .unwrap()
        .into_iter()
        .map(|url| url.href)
        .collect()
}

#[test]
fn builds_safe_camera_download_candidates() {
    let candidates = download_candidates("192.168.1.55", 7125, &instance()).unwrap();
    assert_eq!(
        candidates[0].href.as_str(),
        "http://192.168.1.55:7125/server/files/camera/cube.mp4"
    );
}

#[test]
fn rejects_download_redirected_to_another_host() {
    let mut item = instance();
    item.video_local_url_suffix = "http://example.com/video.mp4".into();
    assert!(download_candidates("192.168.1.55", 7125, &item).is_err());
}

#[test]
fn keeps_spaces_percent_encoded_in_download_urls() {
    let mut item = instance();
    item.video_path = "camera/Goku Hair Left.mp4".into();
    item.video_local_url_suffix = "/server/files/camera/Goku%20Hair%20Left.mp4".into();
    let candidates = download_candidates("192.168.1.55", 7125, &item).unwrap();
    assert!(candidates
        .iter()
        .all(|candidate| !candidate.href.as_str().contains('+')));
    assert!(candidates
        .iter()
        .any(|candidate| candidate.href.as_str().contains("Goku%20Hair%20Left.mp4")));
}

#[test]
fn candidates_try_the_fallback_port_and_the_camera_path() {
    assert_eq!(
        hrefs("192.168.1.55", 7125, &instance()),
        vec![
            "http://192.168.1.55:7125/server/files/camera/cube.mp4",
            "http://192.168.1.55:8080/server/files/camera/cube.mp4",
            "http://192.168.1.55:7125/server/files/camera/cube.mp4",
        ]
    );
    // On port 8080 the fallback and the camera path repeat the first URL.
    assert_eq!(
        hrefs("192.168.1.55", 8080, &instance()),
        vec!["http://192.168.1.55:8080/server/files/camera/cube.mp4"]
    );
}

#[test]
fn candidates_accept_urls_on_the_printer_host() {
    let mut item = instance();
    item.video_local_url_suffix = "  HTTP://192.168.1.55:8080/a.mp4 ".into();
    item.video_path = String::new();
    assert_eq!(
        hrefs("192.168.1.55", 7125, &item),
        vec!["http://192.168.1.55:8080/a.mp4"]
    );
    item.video_local_url_suffix = ":8080/v.mp4".into();
    assert_eq!(
        hrefs("192.168.1.55", 7125, &item),
        vec!["http://192.168.1.55:8080/v.mp4"]
    );
    item.video_local_url_suffix = "ftp://192.168.1.55/v.mp4".into();
    assert!(matches!(
        download_candidates("192.168.1.55", 7125, &item),
        Err(CandidateError::UnsupportedProtocol)
    ));
    item.video_local_url_suffix = "http://example.com/v.mp4".into();
    assert!(matches!(
        download_candidates("192.168.1.55", 7125, &item),
        Err(CandidateError::DifferentHost)
    ));
}

#[test]
fn candidates_drop_unsafe_path_segments() {
    let mut item = instance();
    item.video_local_url_suffix = String::new();
    item.video_path = "C:\\data\\camera\\..\\x\\.\\clip 1.mp4".into();
    assert_eq!(
        hrefs("u1.local", 7125, &item),
        vec!["http://u1.local:7125/server/files/camera/x/clip%201.mp4"]
    );
    item.video_path = "other/dir/clip.mp4".into();
    assert_eq!(
        hrefs("u1.local", 7125, &item),
        vec!["http://u1.local:7125/server/files/camera/clip.mp4"]
    );
    item.video_path = String::new();
    let err = download_candidates("u1.local", 7125, &item).unwrap_err();
    assert!(matches!(err, CandidateError::NoVideoSource));
    assert_eq!(
        err.message(),
        "the timelapse does not contain a video URL or path"
    );
}

#[test]
fn sanitizes_windows_file_names() {
    assert_eq!(sanitize_filename("cube:final?.gcode"), "cube_final_.gcode");
    assert_eq!(sanitize_filename("CON"), "_CON");
}

#[test]
fn sanitizing_trims_and_bounds_names() {
    assert_eq!(sanitize_filename("  name. . "), "name");
    assert_eq!(sanitize_filename(" ... "), "timelapse");
    assert_eq!(sanitize_filename("tab\there"), "tab_here");
    assert_eq!(sanitize_filename("lpt1"), "_lpt1");
    assert_eq!(sanitize_filename("COM5"), "COM5");
    let long = "x".repeat(150);
    assert_eq!(sanitize_filename(&long), "x".repeat(100));
    // 99 ASCII bytes then a two-byte character: byte 100 is inside it.
    let split = format!("{}é", "y".repeat(99));
    assert!(!sanitize_filename_is_defined(&(split.clone() + "z")));
    assert!(sanitize_filename_is_defined(&"é".repeat(60)));
    assert_eq!(sanitize_filename(&"é".repeat(60)), "é".repeat(50));
}

#[test]
fn rejects_interrupted_or_truncated_downloads() {
    assert!(validate_download_size(1_000, 1_000, 640).is_err());
    assert!(validate_download_size(0, 1_000, 640).is_err());
    assert!(validate_download_size(1_000, 1_000, 1_000).is_ok());
}

#[test]
fn size_errors_name_the_failed_check() {
    let invalid = validate_download_size(1_000, 0, 640).unwrap_err();
    assert_eq!(
        invalid,
        DownloadSizeError::InvalidSize {
            expected: 1_000,
            received: 640
        }
    );
    assert_eq!(invalid.message(), "invalid size: expected 1000, received 640");
    let incomplete = validate_download_size(0, 900, 640).unwrap_err();
    assert_eq!(
        incomplete.message(),
        "incomplete download: expected 900, received 640"
    );
    assert!(validate_download_size(0, 0, 5).is_ok());
}

#[test]
fn stop_signal_is_observed_before_the_next_file() {
    let signal = AtomicBool::new(false);
    assert!(!should_stop_before_next_file(&signal));
    signal.store(true, Ordering::Release);
    assert!(should_stop_before_next_file(&signal));
}

#[test]
fn local_file_names_use_the_recording_time() {
    let item = instance();
    assert!(local_filename_is_defined(&item));
    assert_eq!(local_filename(&item), "2023-11-14_22-13-20_cube.mp4");
    let named = TimelapseInstance {
        gcode_name: "  a/b  ".into(),
        video_path: "camera/x.MOV?raw=1".into(),
        ..instance()
    };
    assert_eq!(
        local_filename_with_label(&named, "L"),
        "L_a_b.mov"
    );
    let unknown_time = TimelapseInstance {
        unix_timestamp_s: 0,
        ..instance()
    };
    let name = local_filename(&unknown_time);
    assert!(name.ends_with("_cube.mp4"));
    assert_eq!(name.len(), "2023-11-14_22-13-20_cube.mp4".len());
    let far_future = TimelapseInstance {
        unix_timestamp_s: i64::MAX,
        ..instance()
    };
    let name = local_filename(&far_future);
    assert!(name.ends_with("_cube.mp4"));
    assert_eq!(name.len(), "2023-11-14_22-13-20_cube.mp4".len());
    let last_second = TimelapseInstance {
        unix_timestamp_s: 8_210_266_876_799,
        ..instance()
    };
    assert_eq!(local_filename(&last_second), "+262142-12-31_23-59-59_cube.mp4");
}

#[test]
fn video_extensions_fall_back_to_mp4() {
    let mut item = instance();
    assert_eq!(video_extension(&item), "mp4");
    item.video_path = "camera/a.MPEG".into();
    assert_eq!(video_extension(&item), "mpeg");
    item.video_path = "camera/a.avi".into();
    assert_eq!(video_extension(&item), "mp4");
    item.video_path = String::new();
    item.video_local_url_suffix = "/x/y.mpg?token=1.avi".into();
    assert_eq!(video_extension(&item), "mpg");
    item.video_local_url_suffix = ".mov".into();
    assert_eq!(video_extension(&item), "mp4");
}

#[test]
fn display_names_prefer_the_gcode_name() {
    let mut item = instance();
    assert_eq!(display_name(&item), "cube");
    item.gcode_name = String::new();
    assert_eq!(display_name(&item), "cube.mp4");
    item.video_path = String::new();
    assert_eq!(display_name(&item), "timelapse");
}

#[test]
fn conflicting_names_get_a_number() {
    assert_eq!(conflict_file_name("video.mp4", 2), "video (2).mp4");
    assert_eq!(conflict_file_name("a.b.mov", 9999), "a.b (9999).mov");
    assert_eq!(conflict_file_name(".hidden", 3), ".hidden (3).mp4");
    assert_eq!(conflict_file_name("", 4), "timelapse (4).mp4");
    assert_eq!(
        choose_target(None, 3),
        TargetChoice::Preferred {
            already_present: false
        }
    );
    assert_eq!(
        choose_target(Some(3), 3),
        TargetChoice::Preferred {
            already_present: true
        }
    );
    assert_eq!(choose_target(Some(3), 8), TargetChoice::SearchFreeName);
    assert_eq!(choose_target(Some(0), 0), TargetChoice::SearchFreeName);
}

#[test]
fn progress_is_capped_below_complete() {
    assert_eq!(progress_percent(0, 1), 0);
    assert_eq!(progress_percent(1, 3), 33);
    assert_eq!(progress_percent(3, 3), 99);
    assert_eq!(progress_percent(usize::MAX, 1), 99);
    assert_eq!(download_progress(50, 0), None);
    assert_eq!(download_progress(50, 200), Some(25));
    assert_eq!(download_progress(300, 200), Some(99));
    assert_eq!(download_progress(u64::MAX, u64::MAX), Some(1));
}

fn entry(key: &str, result: HistoryResult, local_path: &str, size: u64) -> HistoryEntry {
    HistoryEntry {
        id: "history-1".into(),
        remote_key: key.into(),
        printer_sn: "U1".into(),
        gcode_name: "video".into(),
        remote_path: "camera/video.mp4".into(),
        local_path: local_path.into(),
        size,
        completed_at: UtcTimestamp {
            seconds: 0,
            nanos: 0,
        },
        result,
        remote_deleted: false,
        message: String::new(),
    }
}

#[test]
fn completed_transfers_are_found_by_key() {
    let history = vec![
        entry("remote-1", HistoryResult::Downloaded, "/d/a.mp4", 3),
        entry("remote-2", HistoryResult::Downloaded, "/d/b.mp4", 3),
        entry("remote-1", HistoryResult::AlreadyPresent, "/d/c.mp4", 3),
        entry("remote-1", HistoryResult::Failed, "", 0),
    ];
    assert_eq!(find_completed(&history, "remote-1"), Some(2));
    assert_eq!(find_completed(&history, "remote-2"), Some(1));
    assert_eq!(find_completed(&history, "remote-3"), None);
}

#[test]
fn local_copies_are_checked_before_they_count() {
    let recorded = entry("remote-1", HistoryResult::Downloaded, "/d/video.mp4", 3);
    let present = LocalFileProbe {
        inside_destination: true,
        metadata: Some(FileMetadata {
            is_file: true,
            len: 3,
        }),
    };
    assert!(local_copy_is_valid(&recorded, 3, present));
    let deleted = LocalFileProbe {
        metadata: None,
        ..present
    };
    assert!(!local_copy_is_valid(&recorded, 3, deleted));
    let changed = LocalFileProbe {
        metadata: Some(FileMetadata {
            is_file: true,
            len: 2,
        }),
        ..present
    };
    assert!(!local_copy_is_valid(&recorded, 3, changed));
    assert!(!local_copy_is_valid(&recorded, 0, changed));
    let elsewhere = LocalFileProbe {
        inside_destination: false,
        ..present
    };
    assert!(!local_copy_is_valid(&recorded, 3, elsewhere));
    let blank = entry("remote-1", HistoryResult::Downloaded, "  ", 3);
    assert!(!local_copy_is_valid(&blank, 3, present));
    let size_unknown = entry("remote-1", HistoryResult::Downloaded, "/d/v.mp4", 0);
    assert!(local_copy_is_valid(&size_unknown, 0, changed));
}

#[test]
fn sync_needs_a_paired_printer_and_a_destination() {
    let mut config = AppConfig::default();
    assert_eq!(sync_printer(&config).unwrap_err(), SyncError::NoPairedPrinter);
    config.printer = Some(PrinterConfig {
        sn: "SN".into(),
        ..PrinterConfig::default()
    });
    assert_eq!(sync_printer(&config).unwrap_err(), SyncError::NoPairedPrinter);
    config.printer.as_mut().unwrap().paired = true;
    assert_eq!(sync_printer(&config).unwrap_err(), SyncError::NoDestination);
    assert_eq!(
        SyncError::NoDestination.message(),
        "select a destination folder"
    );
    config.destination = "/backup".into();
    assert_eq!(sync_printer(&config).unwrap().sn, "SN");
}

#[test]
fn counts_add_up_and_stop_is_honoured() {
    let mut run = SyncRun::new(4);
    assert_eq!(run.next_file(false), NextFile::Process(0));
    run.record(FileOutcome::KeptEarlierCopy);
    assert_eq!(run.next_file(false), NextFile::Process(1));
    run.record(FileOutcome::Downloaded);
    assert_eq!(run.next_file(false), NextFile::Process(2));
    run.record(FileOutcome::Failed);
    assert!(!run.done());
    assert_eq!(run.next_file(true), NextFile::Stop);
    assert!(run.done());
    assert_eq!(
        run.summary,
        SyncSummary {
            downloaded: 1,
            skipped: 1,
            failed: 1
        }
    );
    assert_eq!(run.processed, 3);
    assert_eq!(SyncRun::new(0).progress_total(), 1);
}

#[test]
fn status_follows_the_sync() {
    let config = AppConfig::default();
    let now = UtcTimestamp {
        seconds: 1_000,
        nanos: 0,
    };
    let mut status = SyncStatus::default();
    begin_listing(&mut status);
    assert_eq!(status.phase, "listing");
    assert!(status.running);
    let summary = SyncSummary {
        downloaded: 2,
        skipped: 1,
        failed: 0,
    };
    show_counts(&mut status, summary, 1, 2, Some("cube".into()), false);
    assert_eq!(status.phase, "downloading");
    assert_eq!(status.progress_percent, 50);
    assert_eq!(status.downloaded, 2);
    assert_eq!(status.current_file.as_deref(), Some("cube"));
    show_counts(&mut status, summary, 2, 2, None, true);
    assert_eq!(status.phase, "stopping");
    assert_eq!(status.progress_percent, 99);
    finish_sync(&mut status, true, now, &config);
    assert_eq!(status.progress_percent, 99);
    assert_eq!(status.phase, "idle");
    assert!(!status.running);
    assert_eq!(status.last_sync, Some(now));
    assert_eq!(
        status.next_sync,
        Some(UtcTimestamp {
            seconds: 1_000 + 43_200,
            nanos: 0
        })
    );
    finish_sync(&mut status, false, now, &config);
    assert_eq!(status.progress_percent, 100);
    fail_sync(&mut status, "boom".into(), now, &config);
    assert_eq!(status.phase, "error");
    assert_eq!(status.last_error.as_deref(), Some("boom"));
}

#[test]
fn history_entries_record_the_outcome() {
    let now = UtcTimestamp {
        seconds: 7,
        nanos: 0,
    };
    let done = completed_entry(
        "k".into(),
        "SN".into(),
        "cube".into(),
        "camera/cube.mp4".into(),
        "/d/cube.mp4".into(),
        10,
        true,
        now,
    );
    assert_eq!(done.id.len(), 36);
    for (i, c) in done.id.chars().enumerate() {
        match i {
            8 | 13 | 18 | 23 => assert_eq!(c, '-'),
            14 => assert_eq!(c, '4'),
            _ => assert!(c.is_ascii_digit() || ('a'..='f').contains(&c)),
        }
    }
    assert_eq!(done.result, HistoryResult::AlreadyPresent);
    assert_eq!(done.local_path, "/d/cube.mp4");
    let failed = failed_entry(
        "k".into(),
        "SN".into(),
        "cube".into(),
        "camera/cube.mp4".into(),
        "HTTP 404".into(),
        now,
    );
    assert_eq!(failed.result, HistoryResult::Failed);
    assert_eq!(failed.size, 0);
    assert_eq!(failed.message, "HTTP 404");
    assert_ne!(failed.id, done.id);
    assert_eq!(
        all_attempts_failed_message(&vec![
            ("http://a/1".to_string(), "HTTP 404".to_string()),
            ("http://a/2".to_string(), "timeout".to_string()),
        ]),
        "none of the download URLs returned by the U1 could be downloaded: http://a/1: HTTP 404 | http://a/2: timeout"
    );
}

#[test]
fn thumbnails_come_from_base64_or_the_camera_folder() {
    let mut item = instance();
    match thumbnail_source(&item, "192.168.1.55", 7125).unwrap() {
        ThumbnailSource::Fetch(url) => assert_eq!(
            url,
            "http://192.168.1.55:7125/server/files/camera/cube.jpg"
        ),
        _ => panic!("expected a download"),
    }
    item.thumbnail_base64 = "data:image/jpeg;base64, aGVsbG8= ".into();
    match thumbnail_source(&item, "192.168.1.55", 7125).unwrap() {
        ThumbnailSource::Inline(bytes) => assert_eq!(bytes, b"hello".to_vec()),
        _ => panic!("expected inline bytes"),
    }
    item.thumbnail_base64 = "***".into();
    assert!(thumbnail_source(&item, "h", 1).is_err());
    item.thumbnail_base64 = String::new();
    item.thumbnail_path = " ".into();
    assert!(matches!(
        thumbnail_source(&item, "h", 1).unwrap(),
        ThumbnailSource::Nothing
    ));
}
