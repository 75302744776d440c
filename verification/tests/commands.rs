use snapmaker_timelapse_syncer::commands::{
    autostart_change, configured_printer, normalize_config, printer_from_request, request_pause,
    scheduled_sync_due, scheduler_start, snapshot_history, AutostartChange, PauseError,
};
use snapmaker_timelapse_syncer::models::{
    AppConfig, DirectConnectRequest, HistoryEntry, HistoryResult, PrinterConfig, SyncStatus,
    UtcTimestamp,
};

fn entry(n: usize) -> HistoryEntry {
    HistoryEntry {
        id: format!("id-{n}"),
        remote_key: format!("key-{n}"),
        printer_sn: "SN".into(),
        gcode_name: "g".into(),
        remote_path: "p".into(),
        local_path: "l".into(),
        size: n as u64,
        completed_at: UtcTimestamp {
            seconds: n as i64,
            nanos: 0,
        },
        result: HistoryResult::Downloaded,
        remote_deleted: false,
        message: String::new(),
    }
}

#[test]
fn snapshot_shows_the_newest_hundred_first() {
    let history: Vec<HistoryEntry> = (0..150).map(entry).collect();
    let shown = snapshot_history(history);
    assert_eq!(shown.len(), 100);
    assert_eq!(shown[0].id, "id-149");
    assert_eq!(shown[99].id, "id-50");
    let few = snapshot_history((0..3).map(entry).collect());
    let ids: Vec<&str> = few.iter().map(|e| e.id.as_str()).collect();
    assert_eq!(ids, vec!["id-2", "id-1", "id-0"]);
}

#[test]
fn direct_requests_become_paired_printers() {
    let printer = printer_from_request(DirectConnectRequest {
        host: " 192.168.1.9 ".into(),
        name: Some("  ".into()),
        http_port: None,
    });
    assert_eq!(printer.id, "http-192.168.1.9");
    assert_eq!(printer.name, "Snapmaker U1");
    assert_eq!(printer.host, "192.168.1.9");
    assert_eq!(printer.http_port, 7125);
    assert_eq!(printer.sn, "192.168.1.9");
    assert_eq!(printer.machine_type, "Snapmaker U1");
    assert!(printer.paired);
    let named = printer_from_request(DirectConnectRequest {
        host: "u1".into(),
        name: Some("Shop".into()),
        http_port: Some(80),
    });
    assert_eq!(named.name, "Shop");
    assert_eq!(named.http_port, 80);
}

#[test]
fn saved_settings_are_normalized() {
    let config = AppConfig {
        version: 0,
        interval_value: 0,
        destination: "  /backup  ".into(),
        ..AppConfig::default()
    };
    let saved = normalize_config(config);
    assert_eq!(saved.version, 1);
    assert_eq!(saved.interval_value, 1);
    assert_eq!(saved.destination, "/backup");
    let again = normalize_config(saved.clone());
    assert_eq!(again.destination, saved.destination);
    assert_eq!(again.interval_value, saved.interval_value);
    let big = normalize_config(AppConfig {
        interval_value: 100_000,
        destination: "   ".into(),
        ..AppConfig::default()
    });
    assert_eq!(big.interval_value, 8_760);
    assert_eq!(big.destination, "   ");
}

#[test]
fn autostart_follows_the_setting() {
    assert_eq!(autostart_change(true, false), AutostartChange::Enable);
    assert_eq!(autostart_change(false, true), AutostartChange::Disable);
    assert_eq!(autostart_change(true, true), AutostartChange::Keep);
    assert_eq!(autostart_change(false, false), AutostartChange::Keep);
}

#[test]
fn pause_needs_a_running_sync() {
    let mut status = SyncStatus::default();
    assert_eq!(request_pause(&mut status), Err(PauseError::NotRunning));
    assert_eq!(
        PauseError::NotRunning.message(),
        "no sync is currently running"
    );
    status.running = true;
    assert_eq!(request_pause(&mut status), Ok(()));
    assert_eq!(status.phase, "stopping");
}

#[test]
fn scheduler_waits_for_its_time() {
    let mut config = AppConfig {
        destination: "/b".into(),
        printer: Some(PrinterConfig::default()),
        ..AppConfig::default()
    };
    let now = UtcTimestamp {
        seconds: 100,
        nanos: 0,
    };
    let mut status = SyncStatus::default();
    assert!(scheduled_sync_due(&config, &status, now));
    scheduler_start(&mut status, &config, now);
    assert_eq!(status.phase, "idle");
    assert!(!scheduled_sync_due(&config, &status, now));
    let later = UtcTimestamp {
        seconds: 100 + 43_200,
        nanos: 0,
    };
    assert!(scheduled_sync_due(&config, &status, later));
    status.running = true;
    assert!(!scheduled_sync_due(&config, &status, later));
    status.running = false;
    config.schedule_enabled = false;
    assert!(!scheduled_sync_due(&config, &status, later));
    assert!(configured_printer(&AppConfig::default()).is_err());
}
