use snapmaker_timelapse_syncer::discovery::{
    collect_printer, preferred_address, printer_from_record, sort_by_name, ResolvedAddress,
    ServiceRecord,
};
use snapmaker_timelapse_syncer::models::DiscoveredPrinter;
use snapmaker_timelapse_syncer::storage::{add_history, log_is_expired, trim_history};
use snapmaker_timelapse_syncer::models::{HistoryEntry, HistoryResult, UtcTimestamp};

fn resolved(text: &str) -> ResolvedAddress {
    ResolvedAddress {
        is_ipv4: !text.contains(':'),
        text: text.to_string(),
    }
}

#[test]
fn ipv4_is_preferred_for_lan_connections() {
    let addresses = vec![resolved("fe80::1"), resolved("192.168.1.42")];
    assert_eq!(
        preferred_address(&addresses).map(|a| a.text),
        Some("192.168.1.42".to_string())
    );
    assert_eq!(
        preferred_address(&vec![resolved("fe80::1")]).map(|a| a.text),
        Some("fe80::1".to_string())
    );
    assert!(preferred_address(&vec![]).is_none());
}

fn record(sn: Option<&str>, device: Option<&str>) -> ServiceRecord {
    ServiceRecord {
        fullname: "U1._snapmaker._tcp.local.".into(),
        port: 7125,
        addresses: vec![resolved("192.168.1.42")],
        sn: sn.map(String::from),
        device_name: device.map(String::from),
        machine_type: None,
        link_mode: Some("lan".into()),
        region: None,
    }
}

#[test]
fn answers_become_printers() {
    let printer = printer_from_record(&record(Some(" abc1 "), None)).unwrap();
    assert_eq!(printer.id, "ABC1");
    assert_eq!(printer.sn, "ABC1");
    assert_eq!(printer.name, "Snapmaker U1 · ABC1");
    assert_eq!(printer.host, "192.168.1.42");
    assert_eq!(printer.machine_type, "Snapmaker U1");
    assert_eq!(printer.link_mode, "lan");
    assert_eq!(printer.region, "");
    let anonymous = printer_from_record(&record(None, None)).unwrap();
    assert_eq!(anonymous.id, "U1._snapmaker._tcp.local.");
    assert_eq!(anonymous.name, "Snapmaker U1");
    let named = printer_from_record(&record(Some("x"), Some("Workshop"))).unwrap();
    assert_eq!(named.name, "Workshop");
    let mut silent = record(None, None);
    silent.addresses.clear();
    assert!(printer_from_record(&silent).is_none());
}

fn printer(id: &str, name: &str) -> DiscoveredPrinter {
    DiscoveredPrinter {
        id: id.into(),
        name: name.into(),
        host: "h".into(),
        port: 1,
        sn: String::new(),
        machine_type: String::new(),
        device_name: String::new(),
        link_mode: String::new(),
        region: String::new(),
    }
}

#[test]
fn printers_are_listed_once_by_name() {
    let mut printers = Vec::new();
    collect_printer(&mut printers, printer("B", "beta"));
    collect_printer(&mut printers, printer("A", "alpha"));
    collect_printer(&mut printers, printer("B", "Zeta"));
    assert_eq!(printers.len(), 2);
    assert_eq!(printers[0].name, "Zeta");
    let sorted = sort_by_name(printers);
    let names: Vec<&str> = sorted.iter().map(|p| p.name.as_str()).collect();
    assert_eq!(names, vec!["Zeta", "alpha"]);
    let more = sort_by_name(vec![
        printer("1", "b"),
        printer("2", "ab"),
        printer("3", "a"),
        printer("4", "é"),
    ]);
    let names: Vec<&str> = more.iter().map(|p| p.name.as_str()).collect();
    assert_eq!(names, vec!["a", "ab", "b", "é"]);
}

fn entry(n: u64) -> HistoryEntry {
    HistoryEntry {
        id: n.to_string(),
        remote_key: String::new(),
        printer_sn: String::new(),
        gcode_name: String::new(),
        remote_path: String::new(),
        local_path: String::new(),
        size: n,
        completed_at: UtcTimestamp {
            seconds: 0,
            nanos: 0,
        },
        result: HistoryResult::Failed,
        remote_deleted: false,
        message: String::new(),
    }
}

#[test]
fn history_keeps_the_newest_five_hundred() {
    let mut history: Vec<HistoryEntry> = (0..600).map(entry).collect();
    trim_history(&mut history);
    assert_eq!(history.len(), 500);
    assert_eq!(history[0].size, 100);
    add_history(&mut history, entry(1000));
    assert_eq!(history.len(), 500);
    assert_eq!(history[0].size, 101);
    assert_eq!(history[499].size, 1000);
    let mut short = vec![entry(1)];
    add_history(&mut short, entry(2));
    assert_eq!(short.len(), 2);
}

#[test]
fn logs_expire_after_two_weeks() {
    assert!(!log_is_expired(1_209_600, 0));
    assert!(log_is_expired(1_209_600, 1));
    assert!(log_is_expired(1_209_601, 0));
    assert!(!log_is_expired(0, 999));
}
