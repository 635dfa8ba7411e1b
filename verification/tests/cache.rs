use wanna_cdn::cdn::{
    CachedVideo, CachedVideoFile, CdnFetchResult, CdnServiceImpl, ChecksumError, PathProbe,
};
use wanna_cdn::cdn::token::TokenError;
use wanna_cdn::types::Song;

fn service() -> CdnServiceImpl {
    CdnServiceImpl::new(
        "./song".to_string(),
        "./override".to_string(),
        "./cache".to_string(),
        3600,
        "s3cret".to_string(),
    )
}

fn song(checksum: Option<&str>) -> Song {
    Song {
        id: 42,
        category: 5,
        title: "t".to_string(),
        category_name: "c".to_string(),
        title_spell: "t".to_string(),
        player_index: 0,
        volume_bits: 0.36f32.to_bits(),
        start: 0,
        end: 202,
        flip: false,
        skip_random: false,
        original_url: None,
        checksum: checksum.map(|s| s.to_string()),
    }
}

fn probe(o: bool, m: bool, v: bool) -> PathProbe {
    PathProbe { override_exists: o, metadata_exists: m, video_exists: v }
}

#[test]
fn paths_of_a_song() {
    let (o, v, m) = service().song_paths(42);
    assert_eq!(o, "./override/42.mp4");
    assert_eq!(v, "./song/42/video.mp4");
    assert_eq!(m, "./song/42/metadata.json");
}

#[test]
fn override_shadows_the_canonical_entry() {
    match service().get_video_file_path(42, probe(true, true, true)) {
        CachedVideoFile::Available(CachedVideo::VideoOverride { video_file }) => {
            assert_eq!(video_file, "./override/42.mp4")
        }
        other => panic!("unexpected: {:?}", other),
    }
}

#[test]
fn canonical_entry_needs_video_and_descriptor() {
    match service().get_video_file_path(42, probe(false, true, true)) {
        CachedVideoFile::Available(CachedVideo::Video { video_file, metadata_json_file }) => {
            assert_eq!(video_file, "./song/42/video.mp4");
            assert_eq!(metadata_json_file, "./song/42/metadata.json");
        }
        other => panic!("unexpected: {:?}", other),
    }
    for p in [probe(false, true, false), probe(false, false, true), probe(false, false, false)] {
        match service().get_video_file_path(42, p) {
            CachedVideoFile::Unavailable { video_file, metadata_json_file } => {
                assert_eq!(video_file, "./song/42/video.mp4");
                assert_eq!(metadata_json_file, "./song/42/metadata.json");
            }
            other => panic!("unexpected: {:?}", other),
        }
    }
}

#[test]
fn video_file_of_both_kinds() {
    let a = CachedVideo::Video { video_file: "v".to_string(), metadata_json_file: "m".to_string() };
    let b = CachedVideo::VideoOverride { video_file: "o".to_string() };
    assert_eq!(a.video_file(), "v");
    assert_eq!(b.video_file(), "o");
}

#[test]
fn checksums() {
    let svc = service();
    let over = CachedVideo::VideoOverride { video_file: "o".to_string() };
    let video =
        CachedVideo::Video { video_file: "v".to_string(), metadata_json_file: "m".to_string() };
    assert_eq!(
        svc.get_video_file_checksum_by_cached_video(&over, Some(1700000000), None),
        Ok("override1700000000".to_string())
    );
    assert_eq!(
        svc.get_video_file_checksum_by_cached_video(&over, None, None),
        Err(ChecksumError::NoModifiedTime)
    );
    assert_eq!(
        svc.get_video_file_checksum_by_cached_video(&video, None, Some(&song(Some("abc")))),
        Ok("abc".to_string())
    );
    assert_eq!(
        svc.get_video_file_checksum_by_cached_video(&video, None, Some(&song(None))),
        Err(ChecksumError::NoChecksum)
    );
    assert_eq!(
        svc.get_video_file_checksum_by_cached_video(&video, Some(5), None),
        Err(ChecksumError::NoMetadata)
    );
    assert_eq!(
        svc.get_video_file_checksum_by_id(42, probe(false, false, false), None, None),
        Err(ChecksumError::NotFound)
    );
    assert_eq!(
        svc.get_video_file_checksum_by_id(42, probe(false, true, true), None, Some(&song(Some("abc")))),
        Ok("abc".to_string())
    );
}

#[test]
fn local_cache_status() {
    let svc = service();
    let file = "42-660524b46664a.mp4".to_string();
    let md5 = "abc".to_string();
    let s = song(Some("abc"));
    let hit = svc.serve_local_cache(42, &file, &md5, 1000, 51234, probe(false, true, true), Some(1000), Some(&s));
    assert_eq!(hit.0, "./cache/51234_42-660524b46664a.mp4");
    assert_eq!(hit.1, "./song/42/video.mp4");
    assert_eq!(hit.2, "./song/42/metadata.json");
    assert!(hit.3);
    let wrong_size = svc.serve_local_cache(42, &file, &md5, 1000, 51234, probe(false, true, true), Some(999), Some(&s));
    assert!(!wrong_size.3);
    let no_size = svc.serve_local_cache(42, &file, &md5, 1000, 51234, probe(false, true, true), None, Some(&s));
    assert!(!no_size.3);
    let wrong_sum = svc.serve_local_cache(42, &file, &"abd".to_string(), 1000, 51234, probe(false, true, true), Some(1000), Some(&s));
    assert!(!wrong_sum.3);
    let no_meta = svc.serve_local_cache(42, &file, &md5, 1000, 51234, probe(false, true, true), Some(1000), None);
    assert!(!no_meta.3);
    let absent = svc.serve_local_cache(42, &file, &md5, 1000, 51234, probe(false, false, false), None, None);
    assert_eq!(absent.1, "./song/42/video.mp4");
    assert!(!absent.3);
    let over = svc.serve_local_cache(42, &file, &md5, 1000, 51234, probe(true, false, false), None, None);
    assert_eq!(over.1, "./override/42.mp4");
    assert_eq!(over.2, "");
    assert!(over.3);
}

#[test]
fn concurrent_downloads_use_distinct_temporary_files() {
    let svc = service();
    let file = "42-x.mp4".to_string();
    let md5 = "abc".to_string();
    let a = svc.serve_local_cache(42, &file, &md5, 1, 40000, probe(false, false, false), None, None);
    let b = svc.serve_local_cache(42, &file, &md5, 1, 40001, probe(false, false, false), None, None);
    assert_ne!(a.0, b.0);
}

#[test]
fn serve_token_issues_a_verifiable_token() {
    let svc = service();
    let video = svc.get_video_file_path(42, probe(false, true, true));
    let hit = svc.serve_token(
        42,
        "203.0.113.9",
        "UnityPlayer/2022".to_string(),
        &video,
        Ok("abc".to_string()),
        1_700_000_000,
    );
    match hit {
        CdnFetchResult::Hit(token, checksum, ts, sign, sign_ts) => {
            assert_eq!(checksum, "abc");
            assert_eq!(ts, 1_700_000_000);
            assert_eq!(sign_ts, "1700000000");
            assert_eq!(token, format!("1700000000-VW5pdHlQbGF5ZXIvMjAyMg-203_0_113_9-{}", sign));
            assert!(CdnServiceImpl::verify_token(
                &token,
                "s3cret",
                42,
                &"abc".to_string(),
                3600,
                1_700_000_003
            )
            .is_ok());
        }
        CdnFetchResult::Miss => panic!("miss"),
    }
}

#[test]
fn serve_token_misses_without_video_or_checksum() {
    let svc = service();
    let absent = svc.get_video_file_path(42, probe(false, false, false));
    assert!(matches!(
        svc.serve_token(42, "1.2.3.4", "ua".to_string(), &absent, Err(ChecksumError::NotFound), 0),
        CdnFetchResult::Miss
    ));
    let video = svc.get_video_file_path(42, probe(false, true, true));
    assert!(matches!(
        svc.serve_token(42, "1.2.3.4", "ua".to_string(), &video, Err(ChecksumError::NoChecksum), 0),
        CdnFetchResult::Miss
    ));
}

#[test]
fn serve_file_checks_the_token_first() {
    let svc = service();
    let video = svc.get_video_file_path(42, probe(false, true, true));
    let token = match svc.serve_token(42, "1.2.3.4", "ua".to_string(), &video, Ok("abc".to_string()), 100) {
        CdnFetchResult::Hit(token, ..) => token,
        CdnFetchResult::Miss => panic!("miss"),
    };
    let served = svc.serve_file(42, Some(token.clone()), "abc".to_string(), video.clone(), 200).unwrap();
    assert_eq!(served.unwrap().video_file(), "./song/42/video.mp4");
    let gone = svc.get_video_file_path(42, probe(false, false, false));
    assert!(svc.serve_file(42, Some(token.clone()), "abc".to_string(), gone, 200).unwrap().is_none());
    assert!(matches!(
        svc.serve_file(42, Some(token.clone()), "abc".to_string(), video.clone(), 3701),
        Err(TokenError::Expired { .. })
    ));
    assert!(matches!(
        svc.serve_file(42, Some("junk".to_string()), "abc".to_string(), video.clone(), 200),
        Err(TokenError::Malformed)
    ));
    assert!(svc.serve_file(42, None, "abc".to_string(), video, 200).unwrap().is_some());
}
