use chrono::Utc;
use snapmaker_timelapse_syncer::models::{
    AppConfig, PrinterConfig, ScheduleUnit, SyncStatus, TimelapseInstance, UtcTimestamp,
};

fn now() -> UtcTimestamp {
    let now = Utc::now();
    UtcTimestamp {
        seconds: now.timestamp(),
        nanos: now.timestamp_subsec_nanos(),
    }
}

#[test]
fn schedule_converts_hours_and_days() {
    let mut config = AppConfig {
        interval_value: 6,
        interval_unit: ScheduleUnit::Hours,
        ..AppConfig::default()
    };
    assert_eq!(
        config.schedule_duration(),
        chrono::Duration::hours(6).num_seconds()
    );

    config.interval_value = 3;
    config.interval_unit = ScheduleUnit::Days;
    assert_eq!(
        config.schedule_duration(),
        chrono::Duration::days(3).num_seconds()
    );
}

#[test]
fn disabled_schedule_has_no_next_execution() {
    let config = AppConfig {
        schedule_enabled: false,
        ..AppConfig::default()
    };
    assert_eq!(config.next_sync_from(now()), None);
}

#[test]
fn zero_interval_counts_as_one_unit() {
    let config = AppConfig {
        interval_value: 0,
        interval_unit: ScheduleUnit::Days,
        ..AppConfig::default()
    };
    assert_eq!(config.schedule_duration(), 86_400);
}

#[test]
fn huge_interval_wraps_like_a_signed_cast() {
    let config = AppConfig {
        interval_value: u64::MAX,
        interval_unit: ScheduleUnit::Hours,
        ..AppConfig::default()
    };
    assert_eq!(config.schedule_duration(), -3_600);
}

#[test]
fn enabled_schedule_adds_the_interval() {
    let config = AppConfig::default();
    let start = UtcTimestamp {
        seconds: 1_700_000_000,
        nanos: 5,
    };
    assert_eq!(
        config.next_sync_from(start),
        Some(UtcTimestamp {
            seconds: 1_700_000_000 + 12 * 3_600,
            nanos: 5
        })
    );
}

#[test]
fn default_config_matches_the_documented_settings() {
    let config = AppConfig::default();
    assert_eq!(config.version, 1);
    assert!(config.printer.is_none());
    assert_eq!(config.destination, "");
    assert!(config.schedule_enabled);
    assert_eq!(config.interval_value, 12);
    assert_eq!(config.interval_unit, ScheduleUnit::Hours);
    assert!(config.download_thumbnails);
    assert!(!config.autostart);
    assert!(config.run_in_background);
    let printer = PrinterConfig::default();
    assert!(!printer.paired);
    assert_eq!(printer.http_port, 0);
}

#[test]
fn default_status_is_idle() {
    let status = SyncStatus::default();
    assert_eq!(status.phase, "idle");
    assert!(!status.running);
    assert_eq!(status.progress_percent, 0);
    assert!(status.last_error.is_none());
}

#[test]
fn remote_key_joins_serial_path_size_and_time() {
    let instance = TimelapseInstance {
        video_path: "camera/cube.mp4".into(),
        video_file_size: 1234,
        unix_timestamp_s: -5,
        ..TimelapseInstance::default()
    };
    assert_eq!(instance.remote_key("U1SN"), "U1SN|camera/cube.mp4|1234|-5");
    let later = TimelapseInstance {
        unix_timestamp_s: 1_700_000_000,
        video_file_size: 0,
        ..instance.clone()
    };
    assert_eq!(later.remote_key(""), "|camera/cube.mp4|0|1700000000");
    let extreme = TimelapseInstance {
        unix_timestamp_s: i64::MIN,
        video_file_size: u64::MAX,
        ..instance
    };
    assert_eq!(
        extreme.remote_key("A"),
        format!("A|camera/cube.mp4|{}|{}", u64::MAX, i64::MIN)
    );
}

#[test]
fn next_sync_is_defined_where_chrono_can_add_the_interval() {
    let start = UtcTimestamp {
        seconds: 1_700_000_000,
        nanos: 0,
    };
    assert!(AppConfig::default().next_sync_is_defined(start));

    let huge = AppConfig {
        interval_value: 1_000_000_000_000,
        interval_unit: ScheduleUnit::Days,
        ..AppConfig::default()
    };
    assert!(!huge.next_sync_is_defined(start));
    let disabled = AppConfig {
        schedule_enabled: false,
        ..huge.clone()
    };
    assert!(disabled.next_sync_is_defined(start));

    let near_the_end = UtcTimestamp {
        seconds: 8_210_266_876_799 - 3_600,
        nanos: 0,
    };
    let hourly = AppConfig {
        interval_value: 1,
        ..AppConfig::default()
    };
    assert!(hourly.next_sync_is_defined(near_the_end));
    let two_hours = AppConfig {
        interval_value: 2,
        ..AppConfig::default()
    };
    assert!(!two_hours.next_sync_is_defined(near_the_end));
}
