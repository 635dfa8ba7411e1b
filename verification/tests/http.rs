use wanna_cdn::cdn::token::TokenError;
use wanna_cdn::cdn::{CachedVideo, CdnServiceImpl, ChecksumError, PathProbe};
use wanna_cdn::http::{
    delivery_outcome, delivery_request, file_request, origin_redirect, plan_upstream_fetch,
    play_redirect, play_request, real_ip, select_upstream, self_identify, token_request,
    videos_redirect, CustomRejection, FileRequest, Upstreams, REDIRECT_STATUS, REJECTION_STATUS,
};
use wanna_cdn::{my_git_hash, MY_VERSION_ID};

fn s(x: &str) -> Option<String> {
    Some(x.to_string())
}

#[test]
fn statuses() {
    assert_eq!(REJECTION_STATUS, 400);
    assert_eq!(REDIRECT_STATUS, 302);
}

#[test]
fn revision_names() {
    assert_eq!(my_git_hash(Some("0123456789abcdef")), "01234567");
    assert_eq!(my_git_hash(None), "0");
    assert_eq!(MY_VERSION_ID, 1);
    assert_eq!(self_identify(1, "01234567"), "WannaDanceSelfHostedCDN/1.01234567");
}

#[test]
fn client_address() {
    assert_eq!(real_ip(None, &vec!["1.1.1.1".to_string()]), None);
    assert_eq!(real_ip(s("10.0.0.1"), &vec![]), s("10.0.0.1"));
    assert_eq!(
        real_ip(s("10.0.0.1"), &vec!["1.1.1.1".to_string(), "2.2.2.2".to_string()]),
        s("1.1.1.1")
    );
}

#[test]
fn token_requests() {
    let ok = Ok((42, "1.2.3.4".to_string(), "ua".to_string()));
    assert_eq!(token_request("42.mp4", s("1.2.3.4"), s("ua")), ok);
    assert_eq!(token_request("42", s("1.2.3.4"), s("ua")), ok);
    assert_eq!(token_request("42.mp4", None, s("ua")), Err(CustomRejection::NoClientIP));
    assert_eq!(token_request("x.mp4", None, None), Err(CustomRejection::NoClientIP));
    assert_eq!(token_request("42.mp4", s("1.2.3.4"), None), Err(CustomRejection::NoUserAgent));
    for name in ["abc.mp4", "-1.mp4", "0.mp4", ".mp4", "4294967296.mp4"] {
        assert_eq!(token_request(name, s("1.2.3.4"), s("ua")), Err(CustomRejection::BadVideoId));
        assert_eq!(token_request(name, s("1.2.3.4"), None), Err(CustomRejection::BadVideoId));
    }
}

#[test]
fn play_requests() {
    assert_eq!(
        play_request(s("1021"), s("1.2.3.4"), s("ua")),
        Ok((1021, "1.2.3.4".to_string(), "ua".to_string()))
    );
    assert_eq!(play_request(None, s("1.2.3.4"), s("ua")), Err(CustomRejection::BadVideoId));
    assert_eq!(play_request(s("x"), None, None), Err(CustomRejection::BadVideoId));
    assert_eq!(play_request(s("1"), None, s("ua")), Err(CustomRejection::NoClientIP));
    assert_eq!(play_request(s("1"), s("1.2.3.4"), None), Err(CustomRejection::NoUserAgent));
}

#[test]
fn delivery_requests() {
    let ok = delivery_request("42-abc.mp4", s("1.2.3.4"), s("tok")).unwrap();
    assert_eq!(ok.id, 42);
    assert_eq!(ok.checksum, "abc");
    assert_eq!(ok.remote, "1.2.3.4");
    assert_eq!(ok.token, "tok");
    assert_eq!(
        delivery_request("42.mp4", s("1.2.3.4"), s("tok")).unwrap_err(),
        CustomRejection::AreYouTryingToHackMe
    );
    assert_eq!(
        delivery_request("42-abc-def.mp4", s("1.2.3.4"), s("tok")).unwrap_err(),
        CustomRejection::AreYouTryingToHackMe
    );
    assert_eq!(
        delivery_request("x-abc.mp4", s("1.2.3.4"), s("tok")).unwrap_err(),
        CustomRejection::BadVideoId
    );
    assert_eq!(delivery_request("42-abc.mp4", None, s("tok")).unwrap_err(), CustomRejection::NoClientIP);
    assert_eq!(delivery_request("42-abc.mp4", s("1.2.3.4"), None).unwrap_err(), CustomRejection::BadToken);
}

#[test]
fn delivery_outcomes() {
    let video = CachedVideo::VideoOverride { video_file: "./override/42.mp4".to_string() };
    assert_eq!(delivery_outcome(Ok(Some(video))), Ok("./override/42.mp4".to_string()));
    assert_eq!(delivery_outcome(Ok(None)), Err(CustomRejection::AreYouTryingToHackMe));
    assert_eq!(
        delivery_outcome(Err(TokenError::Malformed)),
        Err(CustomRejection::BadToken)
    );
}

fn service() -> CdnServiceImpl {
    CdnServiceImpl::new(
        "./song".to_string(),
        "./override".to_string(),
        "./cache".to_string(),
        3600,
        "s3cret".to_string(),
    )
}

#[test]
fn redirects() {
    let cdn = service();
    let cached = cdn.get_video_file_path(
        42,
        PathProbe { override_exists: false, metadata_exists: true, video_exists: true },
    );
    let absent = cdn.get_video_file_path(
        42,
        PathProbe { override_exists: false, metadata_exists: false, video_exists: false },
    );
    let now = 1_700_000_000;
    let ua = "UnityPlayer/2022".to_string();
    let rand = CdnServiceImpl::generate_rand_from_user_agent(&ua);
    let sign = CdnServiceImpl::generate_sign(
        "s3cret",
        42,
        &"abc".to_string(),
        &"1700000000".to_string(),
        &rand,
        &"1_2_3_4".to_string(),
    );
    let token = format!("1700000000-{}-1_2_3_4-{}", rand, sign);
    assert_eq!(
        videos_redirect(&cdn, 42, "1.2.3.4", ua.clone(), &cached, Ok("abc".to_string()), now),
        format!("/v/42-abc.mp4?auth={}&t=aya&auth_key={}", token, token)
    );
    assert_eq!(
        play_redirect(&cdn, 42, "1.2.3.4", ua.clone(), &cached, Ok("abc".to_string()), now),
        format!("/v/42-abc.mp4?auth={}&t=wd&auth_key={}", token, token)
    );
    assert!(CdnServiceImpl::verify_token(&token, "s3cret", 42, &"abc".to_string(), 3600, now + 5)
        .is_ok());
    let other =
        videos_redirect(&cdn, 42, "1.2.3.4", "curl/8".to_string(), &cached, Ok("abc".to_string()), now);
    assert_ne!(other, format!("/v/42-abc.mp4?auth={}&t=aya&auth_key={}", token, token));
    for (video, checksum) in [
        (&absent, Err(ChecksumError::NotFound)),
        (&cached, Err(ChecksumError::NoChecksum)),
        (&absent, Ok("abc".to_string())),
    ] {
        assert_eq!(
            videos_redirect(&cdn, 42, "1.2.3.4", ua.clone(), video, checksum.clone(), now),
            "https://api.udon.dance/Api/Songs/play?id=42"
        );
        assert_eq!(
            play_redirect(&cdn, 42, "1.2.3.4", ua.clone(), video, checksum, now),
            "https://api.udon.dance/Api/Songs/play?id=42"
        );
    }
    assert_eq!(origin_redirect("/Api/Songs/tags"), "https://api.udon.dance/Api/Songs/tags");
}

#[test]
fn file_requests() {
    let ok = file_request("1-660524b46664a.mp4", s("1.2.3.4"), Some(50123), s("b03f"), s("13959733"))
        .unwrap();
    assert_eq!(ok.id, 1);
    assert_eq!(ok.etag, "b03f");
    assert_eq!(ok.size, 13959733);
    assert_eq!(ok.client_port, 50123);
    let e = |r: Result<FileRequest, CustomRejection>| r.unwrap_err();
    assert_eq!(e(file_request("1-x.mp4", None, Some(1), s("e"), s("1"))), CustomRejection::NoClientIP);
    assert_eq!(
        e(file_request("1-x.mp4", s("1.2.3.4"), None, s("e"), s("1"))),
        CustomRejection::AreYouTryingToHackMe
    );
    assert_eq!(e(file_request("x-1.mp4", s("1.2.3.4"), Some(1), s("e"), s("1"))), CustomRejection::BadVideoId);
    assert_eq!(e(file_request("1.mp4", s("1.2.3.4"), Some(1), s("e"), s("1"))), CustomRejection::BadVideoId);
    assert_eq!(e(file_request("1-x.mp4", s("1.2.3.4"), Some(1), None, s("1"))), CustomRejection::BadToken);
    assert_eq!(e(file_request("1-x.mp4", s("1.2.3.4"), Some(1), s("e"), None)), CustomRejection::BadToken);
    assert_eq!(e(file_request("1-x.mp4", s("1.2.3.4"), Some(1), s("e"), s("big"))), CustomRejection::BadToken);
}

fn upstreams() -> Upstreams {
    Upstreams { domestic: "ud-nya.kiva.moe".to_string(), oversea: "ud-play.kiva.moe".to_string() }
}

#[test]
fn upstream_by_host() {
    let u = upstreams();
    let (dns, host) = select_upstream(Some("nya.xin.moe"), &u);
    assert_eq!((dns.as_str(), host.as_str()), ("ud-nya.kiva.moe", "nya.xin.moe"));
    let (dns, host) = select_upstream(Some("play.udon.dance"), &u);
    assert_eq!((dns.as_str(), host.as_str()), ("ud-play.kiva.moe", "play.udon.dance"));
    let (dns, host) = select_upstream(None, &u);
    assert_eq!((dns.as_str(), host.as_str()), ("ud-play.kiva.moe", "play.udon.dance"));
}

#[test]
fn upstream_fetch_plan() {
    let request = FileRequest { id: 42, etag: "abc".to_string(), size: 1_000_000, client_port: 50000 };
    let fetch = plan_upstream_fetch(
        Some("nya.xin.moe"),
        &upstreams(),
        "2403",
        "42-xxxx.mp4",
        request,
        ("./cache/50000_42-xxxx.mp4".to_string(), "./song/42/video.mp4".to_string(), "./song/42/metadata.json".to_string()),
        false,
        "01234567",
    );
    assert_eq!(fetch.url, "http://ud-nya.kiva.moe/files/2403/42-xxxx.mp4?e=abc&s=1000000");
    assert_eq!(fetch.proxy_opts.host_override, s("nya.xin.moe"));
    assert_eq!(fetch.proxy_opts.user_agent_override, s("WannaDanceSelfHostedCDN/1.01234567"));
    assert!(!fetch.proxy_opts.allow_304);
    assert_eq!(fetch.inspecting.id, 42);
    assert_eq!(fetch.inspecting.download_tmp, "./cache/50000_42-xxxx.mp4");
    assert_eq!(fetch.inspecting.cache_file, "./song/42/video.mp4");
    assert_eq!(fetch.inspecting.metadata_json, "./song/42/metadata.json");
    assert_eq!(fetch.inspecting.etag, "abc");
    assert_eq!(fetch.inspecting.expected_size, 1_000_000);
}
