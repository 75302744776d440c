use snapmaker_timelapse_syncer::candidates::{AttemptStep, DownloadAttempts};
use snapmaker_timelapse_syncer::models::{HistoryEntry, HistoryResult, UtcTimestamp};
use snapmaker_timelapse_syncer::sync_engine::{
    file_action, lies_in_folder, FileAction, FileMetadata, FreeNameSearch, LocalFileProbe,
};
use snapmaker_timelapse_syncer::urls::ParsedUrl;

fn recorded(key: &str, result: HistoryResult, local_path: &str) -> HistoryEntry {
    HistoryEntry {
        id: "h".into(),
        remote_key: key.into(),
        printer_sn: "U1".into(),
        gcode_name: "video".into(),
        remote_path: "camera/video.mp4".into(),
        local_path: local_path.into(),
        size: 3,
        completed_at: UtcTimestamp {
            seconds: 0,
            nanos: 0,
        },
        result,
        remote_deleted: false,
        message: String::new(),
    }
}

fn found(len: u64) -> Option<LocalFileProbe> {
    Some(LocalFileProbe {
        inside_destination: true,
        metadata: Some(FileMetadata { is_file: true, len }),
    })
}

#[test]
fn a_valid_earlier_copy_is_skipped() {
    let history = vec![
        recorded("k", HistoryResult::Downloaded, "/d/a.mp4"),
        recorded("k", HistoryResult::Failed, ""),
    ];
    assert_eq!(file_action(&history, "k", 3, found(3)), FileAction::KeepEarlierCopy);
    assert_eq!(file_action(&history, "k", 3, found(2)), FileAction::Download);
    assert_eq!(file_action(&history, "k", 3, None), FileAction::Download);
    assert_eq!(file_action(&history, "other", 3, found(3)), FileAction::Download);
    let failed_only = vec![recorded("k", HistoryResult::Failed, "/d/a.mp4")];
    assert_eq!(file_action(&failed_only, "k", 3, found(3)), FileAction::Download);
}

#[test]
fn containment_compares_whole_components() {
    let parts = |p: &[&str]| p.iter().map(|s| s.to_string()).collect::<Vec<_>>();
    assert!(lies_in_folder(&parts(&["/", "d", "a.mp4"]), &parts(&["/", "d"])));
    assert!(lies_in_folder(&parts(&["/", "d"]), &parts(&["/", "d"])));
    assert!(!lies_in_folder(&parts(&["/", "dd", "a.mp4"]), &parts(&["/", "d"])));
    assert!(!lies_in_folder(&parts(&["/", "d"]), &parts(&["/", "d", "e"])));
}

#[test]
fn candidates_are_tried_in_order_until_one_works() {
    let url = |h: &str| ParsedUrl {
        href: h.into(),
        scheme: "http".into(),
        host: Some("h".into()),
    };
    let candidates = vec![url("http://h/1"), url("http://h/2")];
    let mut attempts = DownloadAttempts::new();
    assert!(matches!(attempts.step(&candidates), AttemptStep::Try(0)));
    attempts.failed(&candidates, "HTTP 404".into());
    assert!(matches!(attempts.step(&candidates), AttemptStep::Try(1)));
    attempts.failed(&candidates, "timeout".into());
    match attempts.step(&candidates) {
        AttemptStep::GiveUp(message) => assert_eq!(
            message,
            "none of the download URLs returned by the U1 could be downloaded: http://h/1: HTTP 404 | http://h/2: timeout"
        ),
        AttemptStep::Try(_) => panic!("every candidate was tried"),
    }
}

#[test]
fn free_names_are_searched_from_the_first_suffix() {
    let mut search = FreeNameSearch::new("video.mp4".into());
    assert_eq!(search.candidate().as_deref(), Some("video (2).mp4"));
    search.mark_taken();
    assert_eq!(search.candidate().as_deref(), Some("video (3).mp4"));
    while search.candidate().is_some() {
        search.mark_taken();
    }
    assert_eq!(search.next, 10_000);
}
