use wanna_cdn::cdn::proxy::{
    fetched_metadata, publish_checked, publish_to_local_videos, rewrite_request_header,
    rewrite_request_headers, DownloadSession, InspectingOpts, ProxyOpts, SessionAction,
    SessionEvent, SessionState,
};

fn h(name: &str, value: &str) -> (String, String) {
    (name.to_string(), value.to_string())
}

fn opts(allow_304: bool) -> ProxyOpts {
    ProxyOpts {
        host_override: Some("play.udon.dance".to_string()),
        user_agent_override: Some("WannaDanceSelfHostedCDN/1.0".to_string()),
        allow_304,
    }
}

#[test]
fn request_headers_are_rewritten() {
    let headers = vec![
        h("host", "127.0.0.1"),
        h("User-Agent", "UnityPlayer/2022"),
        h("if-none-match", "\"abc\""),
        h("If-Modified-Since", "yesterday"),
        h("Accept", "*/*"),
    ];
    assert_eq!(
        rewrite_request_headers(&headers, &opts(false)),
        vec![
            h("host", "play.udon.dance"),
            h("user-agent", "UnityPlayer/2022 WannaDanceSelfHostedCDN/1.0"),
            h("accept", "*/*"),
        ]
    );
    assert_eq!(
        rewrite_request_headers(&headers, &opts(true)),
        vec![
            h("host", "play.udon.dance"),
            h("user-agent", "UnityPlayer/2022 WannaDanceSelfHostedCDN/1.0"),
            h("if-none-match", "\"abc\""),
            h("if-modified-since", "yesterday"),
            h("accept", "*/*"),
        ]
    );
}

#[test]
fn headers_pass_unchanged_without_overrides() {
    let plain = ProxyOpts { host_override: None, user_agent_override: None, allow_304: true };
    let headers = vec![h("host", "a"), h("user-agent", "b")];
    assert_eq!(rewrite_request_headers(&headers, &plain), headers);
}

const HELLO_MD5: &str = "5d41402abc4b2a76b9719d911017c592";

fn session(expected_size: u64) -> DownloadSession {
    DownloadSession::new(InspectingOpts {
        id: 42,
        download_tmp: "./cache/50000_42-x.mp4".to_string(),
        cache_file: "./song/42/video.mp4".to_string(),
        metadata_json: "./song/42/metadata.json".to_string(),
        etag: HELLO_MD5.to_string(),
        expected_size,
    })
}

#[test]
fn publish_checks_the_md5() {
    let song = publish_to_local_videos(42, b"hello", &HELLO_MD5.to_string()).unwrap();
    assert_eq!(song.id, 42);
    assert_eq!(song.title, "42");
    assert_eq!(song.category, 114514);
    assert_eq!(song.checksum, Some(HELLO_MD5.to_string()));
    assert_eq!(song.volume_bits, 0.0f32.to_bits());
    let mismatch = publish_to_local_videos(42, b"hellp", &HELLO_MD5.to_string()).unwrap_err();
    assert_eq!(mismatch.expected, HELLO_MD5);
    assert_eq!(mismatch.got, format!("{:x}", md5::compute(b"hellp")));
    assert_eq!(fetched_metadata(7, &"e".to_string()).title, "7");
}

#[test]
fn a_download_that_matches_is_published() {
    let mut s = session(5);
    assert_eq!(s.step(SessionEvent::Start), SessionAction::Dispatch);
    assert_eq!(s.state, SessionState::Dispatched);
    assert_eq!(s.step(SessionEvent::Responded { temp_opened: true }), SessionAction::ReadChunk);
    assert_eq!(s.state, SessionState::Streaming);
    assert_eq!(s.step(SessionEvent::Chunk { len: 3 }), SessionAction::WriteChunk);
    assert_eq!(s.state, SessionState::WroteChunk);
    assert_eq!(s.step(SessionEvent::Written), SessionAction::ReadChunk);
    assert_eq!(s.state, SessionState::Streaming);
    assert_eq!(s.total_written, 3);
    assert_eq!(s.step(SessionEvent::Chunk { len: 2 }), SessionAction::WriteChunk);
    assert_eq!(s.step(SessionEvent::Written), SessionAction::Sync);
    assert_eq!(s.state, SessionState::CompleteBytes);
    assert_eq!(s.total_written, 5);
    assert_eq!(s.step(SessionEvent::Synced), SessionAction::ReadTemp);
    assert_eq!(s.state, SessionState::Fsynced);
    assert_eq!(s.step(SessionEvent::TempContents(b"hello".to_vec())), SessionAction::Publish);
    assert_eq!(s.state, SessionState::Verified);
    assert_eq!(s.metadata().checksum, Some(HELLO_MD5.to_string()));
    assert_eq!(s.step(SessionEvent::PublishDone), SessionAction::RemoveTemp);
    assert_eq!(s.state, SessionState::Published);
    assert_eq!(s.step(SessionEvent::TempRemoved { removed: false }), SessionAction::ReadChunk);
    assert_eq!(s.state, SessionState::CleanedUp);
    assert_eq!(s.step(SessionEvent::UpstreamEnded), SessionAction::Finish);
    assert_eq!(s.state, SessionState::CleanedUp);
}

#[test]
fn a_download_that_does_not_match_is_not_published() {
    let mut s = session(5);
    s.step(SessionEvent::Start);
    s.step(SessionEvent::Responded { temp_opened: true });
    s.step(SessionEvent::Chunk { len: 5 });
    assert_eq!(s.step(SessionEvent::Written), SessionAction::Sync);
    assert_eq!(s.step(SessionEvent::Synced), SessionAction::ReadTemp);
    assert_eq!(s.step(SessionEvent::TempContents(b"hellp".to_vec())), SessionAction::ReadChunk);
    assert_eq!(s.state, SessionState::ChecksumMismatch);
    assert_eq!(s.step(SessionEvent::PublishDone), SessionAction::Idle);
    assert_eq!(s.step(SessionEvent::Chunk { len: 1 }), SessionAction::PassThrough);
    assert_eq!(s.state, SessionState::ChecksumMismatch);
}

#[test]
fn an_upstream_error_ends_the_session() {
    let mut s = session(5);
    s.step(SessionEvent::Start);
    s.step(SessionEvent::Responded { temp_opened: true });
    s.step(SessionEvent::Chunk { len: 2 });
    s.step(SessionEvent::Written);
    assert_eq!(s.step(SessionEvent::UpstreamFailed), SessionAction::DiscardTemp);
    assert_eq!(s.state, SessionState::UpstreamError);
    assert_eq!(s.step(SessionEvent::TempContents(b"hello".to_vec())), SessionAction::Idle);
    assert_eq!(s.state, SessionState::UpstreamError);
    let mut short = session(5);
    short.step(SessionEvent::Start);
    short.step(SessionEvent::Responded { temp_opened: true });
    assert_eq!(short.step(SessionEvent::UpstreamEnded), SessionAction::DiscardTemp);
    assert_eq!(short.state, SessionState::UpstreamError);
    let mut refused = session(5);
    refused.step(SessionEvent::Start);
    assert_eq!(refused.step(SessionEvent::RequestFailed), SessionAction::Finish);
    assert_eq!(refused.state, SessionState::UpstreamError);
}

#[test]
fn io_errors_stop_the_copy_but_not_the_client() {
    let mut s = session(5);
    s.step(SessionEvent::Start);
    assert_eq!(s.step(SessionEvent::Responded { temp_opened: false }), SessionAction::ReadChunk);
    assert_eq!(s.state, SessionState::IoError);
    assert_eq!(s.step(SessionEvent::Chunk { len: 5 }), SessionAction::PassThrough);
    let mut w = session(5);
    w.step(SessionEvent::Start);
    w.step(SessionEvent::Responded { temp_opened: true });
    w.step(SessionEvent::Chunk { len: 5 });
    assert_eq!(w.step(SessionEvent::WriteFailed), SessionAction::ReadChunk);
    assert_eq!(w.state, SessionState::IoError);
    assert_eq!(w.total_written, 0);
    let mut y = session(5);
    y.step(SessionEvent::Start);
    y.step(SessionEvent::Responded { temp_opened: true });
    y.step(SessionEvent::Chunk { len: 5 });
    y.step(SessionEvent::Written);
    assert_eq!(y.step(SessionEvent::SyncFailed), SessionAction::ReadChunk);
    assert_eq!(y.state, SessionState::IoError);
    let mut p = session(5);
    p.step(SessionEvent::Start);
    p.step(SessionEvent::Responded { temp_opened: true });
    p.step(SessionEvent::Chunk { len: 5 });
    p.step(SessionEvent::Written);
    p.step(SessionEvent::Synced);
    assert_eq!(p.step(SessionEvent::TempUnreadable), SessionAction::ReadChunk);
    assert_eq!(p.state, SessionState::IoError);
    let mut f = session(5);
    f.step(SessionEvent::Start);
    f.step(SessionEvent::Responded { temp_opened: true });
    f.step(SessionEvent::Chunk { len: 5 });
    f.step(SessionEvent::Written);
    f.step(SessionEvent::Synced);
    f.step(SessionEvent::TempContents(b"hello".to_vec()));
    assert_eq!(f.step(SessionEvent::PublishFailed), SessionAction::ReadChunk);
    assert_eq!(f.state, SessionState::PublishFailed);
}

#[test]
fn written_bytes_never_overflow() {
    let mut s = session(u64::MAX);
    s.step(SessionEvent::Start);
    s.step(SessionEvent::Responded { temp_opened: true });
    s.step(SessionEvent::Chunk { len: u64::MAX - 1 });
    assert_eq!(s.step(SessionEvent::Written), SessionAction::ReadChunk);
    s.step(SessionEvent::Chunk { len: 7 });
    assert_eq!(s.step(SessionEvent::Written), SessionAction::Sync);
    assert_eq!(s.total_written, u64::MAX);
}

#[test]
fn publishing_goes_by_the_digest() {
    let etag = "abc".to_string();
    let song = publish_checked(9, "abc".to_string(), &etag).unwrap();
    assert_eq!(song.id, 9);
    assert_eq!(song.checksum, Some("abc".to_string()));
    let mismatch = publish_checked(9, "abd".to_string(), &etag).unwrap_err();
    assert_eq!(mismatch.expected, "abc");
    assert_eq!(mismatch.got, "abd");
}

#[test]
fn the_session_verifies_only_when_it_waits_to() {
    let mut s = session(5);
    assert_eq!(s.verify(&HELLO_MD5.to_string()), SessionAction::Idle);
    assert_eq!(s.state, SessionState::Init);
    s.step(SessionEvent::Start);
    s.step(SessionEvent::Responded { temp_opened: true });
    s.step(SessionEvent::Chunk { len: 5 });
    s.step(SessionEvent::Written);
    s.step(SessionEvent::Synced);
    assert_eq!(s.verify(&"0000".to_string()), SessionAction::ReadChunk);
    assert_eq!(s.state, SessionState::ChecksumMismatch);
    let mut t = session(5);
    t.step(SessionEvent::Start);
    t.step(SessionEvent::Responded { temp_opened: true });
    t.step(SessionEvent::Chunk { len: 5 });
    t.step(SessionEvent::Written);
    t.step(SessionEvent::Synced);
    assert_eq!(t.verify(&HELLO_MD5.to_string()), SessionAction::Publish);
    assert_eq!(t.state, SessionState::Verified);
}

#[test]
fn single_headers() {
    let o = opts(false);
    assert_eq!(
        rewrite_request_header(&"HOST".to_string(), &"x".to_string(), &o),
        Some(h("host", "play.udon.dance"))
    );
    assert_eq!(rewrite_request_header(&"If-None-Match".to_string(), &"x".to_string(), &o), None);
    assert_eq!(
        rewrite_request_header(&"X-Other".to_string(), &"v".to_string(), &o),
        Some(h("x-other", "v"))
    );
}
