use snapmaker_timelapse_syncer::candidates::{
    candidate_from_video_path, candidates_from_suffix, checked_local, dedup_urls,
    download_candidates, finish_candidates, CandidateError,
};
use snapmaker_timelapse_syncer::models::TimelapseInstance;
use snapmaker_timelapse_syncer::urls::ParsedUrl;

fn url(href: &str, scheme: &str, host: Option<&str>) -> ParsedUrl {
    ParsedUrl {
        href: href.into(),
        scheme: scheme.into(),
        host: host.map(String::from),
    }
}

fn base() -> ParsedUrl {
    url("http://192.168.1.55:7125/", "http", Some("192.168.1.55"))
}

fn hrefs(list: &[ParsedUrl]) -> Vec<&str> {
    list.iter().map(|u| u.href.as_str()).collect()
}

fn instance(suffix: &str, video_path: &str) -> TimelapseInstance {
    TimelapseInstance {
        video_path: video_path.into(),
        video_local_url_suffix: suffix.into(),
        ..TimelapseInstance::default()
    }
}

#[test]
fn relative_suffix_resolving_to_another_host_is_refused() {
    let item = instance("\\\\evil.example\\v.mp4", "");
    assert!(matches!(
        download_candidates("192.168.1.55", 7125, &item),
        Err(CandidateError::DifferentHost)
    ));
    let item = instance("\\\\evil.example\\v.mp4", "camera/cube.mp4");
    assert!(matches!(
        download_candidates("192.168.1.55", 7125, &item),
        Err(CandidateError::DifferentHost)
    ));
}

#[test]
fn ipv6_printers_get_bracketed_candidates() {
    let item = instance("/server/files/camera/cube.mp4", "camera/cube.mp4");
    let list = download_candidates("fe80::1", 7125, &item).unwrap();
    assert_eq!(
        hrefs(&list),
        vec![
            "http://[fe80::1]:7125/server/files/camera/cube.mp4",
            "http://[fe80::1]:8080/server/files/camera/cube.mp4",
            "http://[fe80::1]:7125/server/files/camera/cube.mp4",
        ]
    );
    // A URL handed out by the printer is compared with the configured host
    // without its brackets, and `host_str` keeps them: refused.
    let absolute = instance("http://[FE80::1]:8080/a.mp4", "");
    assert!(matches!(
        download_candidates("[fe80::1]", 7125, &absolute),
        Err(CandidateError::DifferentHost)
    ));
}

#[test]
fn candidates_follow_the_host_as_the_url_crate_writes_it() {
    let item = instance("/server/files/camera/cube.mp4", "");
    assert_eq!(
        hrefs(&download_candidates("127.1", 7125, &item).unwrap()),
        vec![
            "http://127.0.0.1:7125/server/files/camera/cube.mp4",
            "http://127.0.0.1:8080/server/files/camera/cube.mp4",
        ]
    );
    assert_eq!(
        hrefs(&download_candidates("U1.Local", 7125, &item).unwrap()),
        vec![
            "http://u1.local:7125/server/files/camera/cube.mp4",
            "http://u1.local:8080/server/files/camera/cube.mp4",
        ]
    );
}

#[test]
fn finishing_collapses_neighbours_and_checks_every_host() {
    let a = url("http://h/a", "http", Some("h"));
    let b = url("http://h/b", "http", Some("h"));
    let list = vec![a.clone(), a.clone(), b.clone(), a.clone()];
    assert_eq!(
        hrefs(&dedup_urls(list.clone())),
        vec!["http://h/a", "http://h/b", "http://h/a"]
    );
    let printer = url("http://H:1/", "http", Some("H"));
    assert_eq!(
        hrefs(&finish_candidates(list, &printer).unwrap()),
        vec!["http://h/a", "http://h/b", "http://h/a"]
    );
    let foreign = url("http://other/c", "http", Some("other"));
    assert!(matches!(
        finish_candidates(vec![a.clone(), foreign], &printer),
        Err(CandidateError::DifferentHost)
    ));
    let ftp = url("ftp://h/c", "ftp", Some("h"));
    assert!(matches!(
        finish_candidates(vec![ftp, a], &printer),
        Err(CandidateError::UnsupportedProtocol)
    ));
    assert!(matches!(
        finish_candidates(Vec::new(), &printer),
        Err(CandidateError::NoVideoSource)
    ));
}

#[test]
fn a_parsed_url_is_kept_only_on_the_printer() {
    let ok = checked_local(url("https://u1.local/v", "https", Some("u1.local")), "U1.LOCAL").unwrap();
    assert_eq!(hrefs(&ok), vec!["https://u1.local/v"]);
    assert!(matches!(
        checked_local(url("http://x/v", "http", Some("x")), "u1.local"),
        Err(CandidateError::DifferentHost)
    ));
    assert!(matches!(
        checked_local(url("file:///v", "file", None), "u1.local"),
        Err(CandidateError::UnsupportedProtocol)
    ));
}

#[test]
fn suffix_and_video_path_give_their_urls() {
    let authority: Vec<char> = "192.168.1.55".chars().collect();
    let suffix: Vec<char> = "/server/files/camera/a b.mp4".chars().collect();
    let list = candidates_from_suffix(&base(), &authority, "192.168.1.55", 7125, &suffix).unwrap();
    assert_eq!(
        hrefs(&list),
        vec![
            "http://192.168.1.55:7125/server/files/camera/a%20b.mp4",
            "http://192.168.1.55:8080/server/files/camera/a%20b.mp4",
        ]
    );
    assert!(candidates_from_suffix(&base(), &authority, "192.168.1.55", 7125, &Vec::new())
        .unwrap()
        .is_empty());
    let from_path = candidate_from_video_path(&base(), "/data/camera/sub/../x y.mp4")
        .unwrap()
        .unwrap();
    assert_eq!(
        from_path.href,
        "http://192.168.1.55:7125/server/files/camera/sub/x%20y.mp4"
    );
    assert!(candidate_from_video_path(&base(), "").is_none());
}
