use gtkdownloadbar::events::{finished_line, received_line};
use gtkdownloadbar::{
    http_config, prep_headers, select_protocol, state_file_path, ClickAction, DefaultEventsHandler,
    DownloadProgressBar, DownloadStatus, DownloadUrl, HeaderError, HeadersReport, Protocol,
    ResponseHeaders,
};

#[test]
fn range_header_only_when_resuming() {
    let h = prep_headers(Some(10), true, "agent").unwrap();
    assert_eq!(h.range.as_deref(), Some("bytes=10-"));
    assert_eq!(h.user_agent, "agent");
    let h = prep_headers(Some(10), false, "agent").unwrap();
    assert_eq!(h.range, None);
    let h = prep_headers(None, true, "").unwrap();
    assert_eq!(h.range, None);
}

#[test]
fn invalid_user_agent_is_refused() {
    assert_eq!(prep_headers(None, false, "a\u{1}b").err(), Some(HeaderError::InvalidUserAgent));
    assert_eq!(prep_headers(None, false, "a\u{7f}").err(), Some(HeaderError::InvalidUserAgent));
    assert!(prep_headers(None, false, "tab\tand ünicode").is_ok());
}

#[test]
fn protocols_by_scheme() {
    assert_eq!(select_protocol("ftp"), Ok(Protocol::Ftp));
    assert_eq!(select_protocol("http"), Ok(Protocol::Http));
    assert_eq!(select_protocol("https"), Ok(Protocol::Http));
    assert_eq!(select_protocol("file"), Err("unsupported url scheme 'file'".to_string()));
}

#[test]
fn url_parts() {
    let u = DownloadUrl::parse("HTTPS://example.com/a/b?x=1").unwrap();
    assert_eq!(u.scheme(), "https");
    assert_eq!(u.path(), "/a/b");
    assert_eq!(u.as_str(), "HTTPS://example.com/a/b?x=1");
    assert!(DownloadUrl::parse("not a url").is_err());
}

#[test]
fn progress_on_resume() {
    let mut ev = DefaultEventsHandler::new("f.bin", Some(1500), true, false);
    assert!(ev.create_prog_bar(Some(3000)).is_none());
    assert_eq!(ev.length, 3000);
    ev.on_server_supports_resume();
    let p = ev.create_prog_bar(None).unwrap();
    assert_eq!(p.bytes, 1500);
    assert_eq!(p.total, 3000);
    assert_eq!(p.timeline, "receive 1.46 KiB/ total2.93 KiB");
    ev.on_resume_download(15);
    let p = ev.create_prog_bar(Some(1500)).unwrap();
    assert_eq!(p.timeline, "receive 15 B/ total1.46 KiB");
}

#[test]
fn headers_report() {
    let headers = ResponseHeaders {
        content_disposition: None,
        content_type: Some(b"application/octet-stream".to_vec()),
        content_length: Some(b"2048".to_vec()),
    };
    let mut quiet = DefaultEventsHandler::new("f", None, false, true);
    assert!(matches!(quiet.on_headers(&headers), HeadersReport::Quiet));
    assert_eq!(quiet.length, 0);
    let mut ev = DefaultEventsHandler::new("f", None, false, false);
    match ev.on_headers(&headers) {
        HeadersReport::Shown { content_type, length } => {
            assert_eq!(content_type, "application/octet-stream");
            let rep = length.unwrap();
            assert_eq!(rep.length, Some(2048));
            assert!(rep.progress.is_none());
        }
        HeadersReport::Quiet => panic!("not quiet"),
    }
    assert_eq!(ev.length, 2048);
    let bad = ResponseHeaders { content_disposition: None, content_type: None, content_length: Some(b"12x".to_vec()) };
    match ev.on_headers(&bad) {
        HeadersReport::Shown { content_type, length } => {
            assert_eq!(content_type, "");
            assert_eq!(length.unwrap().length, None);
        }
        HeadersReport::Quiet => panic!("not quiet"),
    }
    assert_eq!(ev.length, 2048);
    let none = ResponseHeaders { content_disposition: None, content_type: None, content_length: None };
    assert!(matches!(ev.on_headers(&none), HeadersReport::Shown { length: None, .. }));
}

#[test]
fn chunk_reports() {
    let mut ev = DefaultEventsHandler::new("f", None, true, false);
    ev.create_prog_bar(Some(1024));
    let c = ev.on_concurrent_content(512, 512);
    assert_eq!(c.timeline, "receive 512 B/ total1.00 KiB");
    assert_eq!(c.state_line.as_deref(), Some("512:512\n"));
    let single = DefaultEventsHandler::new("f", None, false, false);
    assert_eq!(single.on_concurrent_content(1, 2).state_line, None);
    assert_eq!(ev.on_content(10), "receive 10 B/ total1.00 KiB");
    assert_eq!(ev.on_finish(), "Finished/ total1.00 KiB");
    assert!(ev.on_failure_status(416));
    assert!(!ev.on_failure_status(404));
    assert!(ev.on_max_retries());
    let quiet = DefaultEventsHandler::new("f", None, false, true);
    assert!(!quiet.on_failure_status(416));
    assert!(!quiet.on_max_retries());
    let mut q = DefaultEventsHandler::new("f", None, false, true);
    assert!(q.on_ftp_content_length(Some(5)).is_none());
    assert_eq!(q.length, 0);
    let mut f = DefaultEventsHandler::new("f", None, false, false);
    assert_eq!(f.on_ftp_content_length(Some(5)).unwrap().length, Some(5));
    assert_eq!(f.length, 5);
}

#[test]
fn click_cycle() {
    let u = DownloadUrl::parse("https://example.com/pkg.deb").unwrap();
    let h = ResponseHeaders { content_disposition: None, content_type: None, content_length: None };
    let mut bar = DownloadProgressBar::new(u, Some("Pkg".to_string()), &h);
    assert_eq!(bar.fname, "pkg.deb");
    assert_eq!(bar.status, DownloadStatus::Todownload);
    assert_eq!(bar.on_click(false), ClickAction::StartDownload);
    assert_eq!(bar.status, DownloadStatus::Finished);
    assert_eq!(bar.on_click(false), ClickAction::Restart);
    assert_eq!(bar.status, DownloadStatus::Todownload);
    assert_eq!(bar.on_click(true), ClickAction::AlreadyDownloaded);
    assert_eq!(bar.on_click(true), ClickAction::Install);
    assert_eq!(bar.status, DownloadStatus::Finished);
    assert_eq!(bar.file_path("/tmp/dl/"), "/tmp/dl/pkg.deb");
}

#[test]
fn config_and_paths() {
    let h = prep_headers(None, false, "").unwrap();
    let c = http_config("a.bin".to_string(), h);
    assert_eq!(c.file, "a.bin");
    assert_eq!(c.timeout, 30);
    assert_eq!(c.num_workers, 8);
    assert_eq!(c.chunk_size, 512_000);
    assert_eq!(c.max_retries, 100);
    assert!(c.concurrent && !c.resume);
    assert_eq!(state_file_path("/d/", "a.bin"), "/d/a.bin.st");
}

#[test]
fn timeline_lines() {
    assert_eq!(received_line("1 B", "2 B"), "receive 1 B/ total2 B");
    assert_eq!(finished_line("3 B"), "Finished/ total3 B");
}
