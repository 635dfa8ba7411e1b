use wanna_cdn::cdn::token::TokenError;
use wanna_cdn::cdn::CdnServiceImpl;

#[test]
fn test_sign() {
    let sign = CdnServiceImpl::generate_sign(
        &"114514".to_string(),
        2,
        &"e624c3256b8c6d8c5ce26484ac1ee3f5".to_string(),
        &"1743405592".to_string(),
        &"0".to_string(),
        &"0".to_string(),
    );
    assert_eq!(sign, "20dcd06fa20d7b4b1ae07466a556fa52");
}

#[test]
fn test_rand() {
    let ua = "Mozilla/5.0 (Windows NT 10.0; Win64; x64) AppleWebKit/537.36 (KHTML, like Gecko) Chrome/92.0.4515.43 Safari/537.36".to_string();
    let rand = CdnServiceImpl::generate_rand_from_user_agent(&ua);
    let decode = base64_url::decode(rand.as_str()).unwrap();
    let decode_ua = String::from_utf8(decode).unwrap();
    assert_eq!(ua, decode_ua);
}

#[test]
fn rand_is_unpadded_url_safe_base64() {
    let rand = CdnServiceImpl::generate_rand_from_user_agent(&"Hello, world!".to_string());
    assert_eq!(rand, "SGVsbG8sIHdvcmxkIQ");
    let dash = CdnServiceImpl::generate_rand_from_user_agent(&">>>".to_string());
    assert_eq!(dash, "Pj4-");
}

#[test]
fn uid_replaces_dots() {
    assert_eq!(CdnServiceImpl::generate_uid_from_client_ip("192.168.1.20"), "192_168_1_20");
    assert_eq!(CdnServiceImpl::generate_uid_from_client_ip("::1"), "::1");
}

#[test]
fn token_fields_round_trip() {
    let token = CdnServiceImpl::encode_token(
        &"abcd".to_string(),
        &"1700000000".to_string(),
        &"cmFuZA".to_string(),
        &"10_0_0_1".to_string(),
    );
    assert_eq!(token, "1700000000-cmFuZA-10_0_0_1-abcd");
    let (sign, sign_ts, rand, uid) = CdnServiceImpl::decode_token(&token).unwrap();
    assert_eq!(sign, "abcd");
    assert_eq!(sign_ts, "1700000000");
    assert_eq!(rand, "cmFuZA");
    assert_eq!(uid, "10_0_0_1");
}

#[test]
fn short_token_is_malformed() {
    for token in ["", "abc", "-", "a-b", "--", "1700000000-cmFuZA-10_0_0_1"] {
        assert!(
            matches!(CdnServiceImpl::decode_token(token), Err(TokenError::Malformed)),
            "{:?}",
            token
        );
        assert!(matches!(
            CdnServiceImpl::verify_token(token, "s3cret", 42, &"abc".to_string(), 3600, 0),
            Err(TokenError::Malformed)
        ));
    }
}

#[test]
fn fields_are_cut_from_the_ends() {
    let (sign, sign_ts, rand, uid) = CdnServiceImpl::decode_token("1-Pj4--a-b-2_2-ff").unwrap();
    assert_eq!(sign, "ff");
    assert_eq!(sign_ts, "1");
    assert_eq!(rand, "Pj4--a-b");
    assert_eq!(uid, "2_2");
    let (sign, sign_ts, rand, uid) = CdnServiceImpl::decode_token("---").unwrap();
    assert_eq!((sign.as_str(), sign_ts.as_str(), rand.as_str(), uid.as_str()), ("", "", "", ""));
}

fn issue_for(user_agent: &str, remote: &str, ts: i64) -> String {
    let (_, sign_ts) = CdnServiceImpl::generate_sign_ts_now(ts);
    let rand = CdnServiceImpl::generate_rand_from_user_agent(&user_agent.to_string());
    let uid = CdnServiceImpl::generate_uid_from_client_ip(remote);
    let sign =
        CdnServiceImpl::generate_sign("s3cret", 42, &"abc".to_string(), &sign_ts, &rand, &uid);
    CdnServiceImpl::encode_token(&sign, &sign_ts, &rand, &uid)
}

#[test]
fn a_dash_in_the_user_agent_field_does_not_break_the_token() {
    let sum = "abc".to_string();
    for user_agent in [">>>", ">>>>>>", "a>>>b???c", "", "Mozilla/5.0 (X11; Linux) ~~~>>>"] {
        let token = issue_for(user_agent, "1.2.3.4", 1_700_000_000);
        assert!(
            CdnServiceImpl::verify_token(&token, "s3cret", 42, &sum, 3600, 1_700_000_000).is_ok(),
            "{:?}",
            user_agent
        );
        assert!(
            CdnServiceImpl::verify_token(&token, "s3cret", 42, &sum, 3600, 1_700_003_600).is_ok()
        );
        assert!(matches!(
            CdnServiceImpl::verify_token(&token, "s3cret", 42, &sum, 3600, 1_700_003_601),
            Err(TokenError::Expired { .. })
        ));
        assert!(matches!(
            CdnServiceImpl::verify_token(&token, "s3cret", 42, &"abd".to_string(), 3600, 1_700_000_000),
            Err(TokenError::SignatureMismatch { .. })
        ));
    }
    assert!(issue_for(">>>", "1.2.3.4", 1_700_000_000).contains("-Pj4--1_2_3_4-"));
}

#[test]
fn a_token_with_a_field_added_is_refused() {
    let sum = "abc".to_string();
    let token = issue_for("UnityPlayer/2022", "1.2.3.4", 1_700_000_000);
    assert!(CdnServiceImpl::verify_token(&token, "s3cret", 42, &sum, 3600, 1_700_000_000).is_ok());
    for extra in ["-x", "-", "-extra", "-0123456789abcdef0123456789abcdef"] {
        let longer = format!("{}{}", token, extra);
        assert!(
            matches!(
                CdnServiceImpl::verify_token(&longer, "s3cret", 42, &sum, 3600, 1_700_000_000),
                Err(TokenError::SignatureMismatch { .. })
            ),
            "{:?}",
            extra
        );
    }
    let shorter = &token[..token.len() - 1];
    assert!(CdnServiceImpl::verify_token(shorter, "s3cret", 42, &sum, 3600, 1_700_000_000).is_err());
}

fn issue(secret: &str, id: u32, checksum: &str, ts: i64) -> String {
    let (_, sign_ts) = CdnServiceImpl::generate_sign_ts_now(ts);
    let rand = CdnServiceImpl::generate_rand_from_user_agent(&"UnityPlayer/2022".to_string());
    let uid = CdnServiceImpl::generate_uid_from_client_ip("203.0.113.9");
    let sign =
        CdnServiceImpl::generate_sign(secret, id, &checksum.to_string(), &sign_ts, &rand, &uid);
    CdnServiceImpl::encode_token(&sign, &sign_ts, &rand, &uid)
}

#[test]
fn token_verifies_until_it_expires() {
    let token = issue("s3cret", 42, "abc", 1_700_000_000);
    let sum = "abc".to_string();
    assert!(CdnServiceImpl::verify_token(&token, "s3cret", 42, &sum, 3600, 1_700_000_000).is_ok());
    assert!(CdnServiceImpl::verify_token(&token, "s3cret", 42, &sum, 3600, 1_700_003_600).is_ok());
    match CdnServiceImpl::verify_token(&token, "s3cret", 42, &sum, 3600, 1_700_003_601) {
        Err(TokenError::Expired { now, provided, tolerance }) => {
            assert_eq!(now, 1_700_003_601);
            assert_eq!(provided, 1_700_000_000);
            assert_eq!(tolerance, 3600);
        }
        other => panic!("unexpected: {:?}", other),
    }
}

#[test]
fn token_is_bound_to_checksum_id_and_secret() {
    let token = issue("s3cret", 42, "abc", 1_700_000_000);
    let other = "abd".to_string();
    assert!(matches!(
        CdnServiceImpl::verify_token(&token, "s3cret", 42, &other, 3600, 1_700_000_001),
        Err(TokenError::SignatureMismatch { .. })
    ));
    let sum = "abc".to_string();
    assert!(matches!(
        CdnServiceImpl::verify_token(&token, "s3cret", 43, &sum, 3600, 1_700_000_001),
        Err(TokenError::SignatureMismatch { .. })
    ));
    assert!(matches!(
        CdnServiceImpl::verify_token(&token, "other", 42, &sum, 3600, 1_700_000_001),
        Err(TokenError::SignatureMismatch { .. })
    ));
}

#[test]
fn hexadecimal_sign_ts_is_rejected() {
    let sign_ts = "6553F100".to_string();
    let rand = "cmFuZA".to_string();
    let uid = "10_0_0_1".to_string();
    let sum = "abc".to_string();
    let sign = CdnServiceImpl::generate_sign("s3cret", 42, &sum, &sign_ts, &rand, &uid);
    let token = CdnServiceImpl::encode_token(&sign, &sign_ts, &rand, &uid);
    match CdnServiceImpl::verify_token(&token, "s3cret", 42, &sum, 3600, 1_700_000_000) {
        Err(TokenError::BadTimestamp { sign_ts }) => assert_eq!(sign_ts, "6553F100"),
        other => panic!("unexpected: {:?}", other),
    }
}

#[test]
fn sign_ts_is_decimal_seconds() {
    let (ts, sign_ts) = CdnServiceImpl::generate_sign_ts_now(1_743_405_592);
    assert_eq!(ts, 1_743_405_592);
    assert_eq!(sign_ts, "1743405592");
    assert_eq!(CdnServiceImpl::decode_sign_ts(&sign_ts), Some(1_743_405_592));
    assert_eq!(CdnServiceImpl::decode_sign_ts(&"-12".to_string()), Some(-12));
    assert_eq!(CdnServiceImpl::decode_sign_ts(&"+12".to_string()), Some(12));
    assert_eq!(CdnServiceImpl::decode_sign_ts(&"".to_string()), None);
    assert_eq!(CdnServiceImpl::decode_sign_ts(&"12a".to_string()), None);
    assert_eq!(
        CdnServiceImpl::decode_sign_ts(&"-9223372036854775808".to_string()),
        Some(i64::MIN)
    );
    assert_eq!(CdnServiceImpl::decode_sign_ts(&"9223372036854775808".to_string()), None);
}

#[test]
fn signature_is_checked_before_age() {
    let ok = CdnServiceImpl::check_signed(
        "abc".to_string(),
        "abc".to_string(),
        "100".to_string(),
        50,
        150,
    );
    assert!(ok.is_ok());
    match CdnServiceImpl::check_signed("abc".to_string(), "abd".to_string(), "x".to_string(), 50, 150)
    {
        Err(TokenError::SignatureMismatch { provided, wanted }) => {
            assert_eq!(provided, "abc");
            assert_eq!(wanted, "abd");
        }
        other => panic!("unexpected: {:?}", other),
    }
    assert!(matches!(
        CdnServiceImpl::check_signed("abc".to_string(), "abc".to_string(), "x".to_string(), 50, 150),
        Err(TokenError::BadTimestamp { .. })
    ));
    assert!(matches!(
        CdnServiceImpl::check_signed("abc".to_string(), "abc".to_string(), "100".to_string(), 50, 151),
        Err(TokenError::Expired { now: 151, provided: 100, tolerance: 50 })
    ));
    assert!(CdnServiceImpl::check_signed(
        "abc".to_string(),
        "abc".to_string(),
        i64::MIN.to_string(),
        i64::MAX,
        -2
    )
    .is_ok());
    assert!(matches!(
        CdnServiceImpl::check_signed(
            "abc".to_string(),
            "abc".to_string(),
            i64::MIN.to_string(),
            i64::MAX,
            i64::MAX
        ),
        Err(TokenError::Expired { .. })
    ));
}

#[test]
fn a_token_from_the_future_holds() {
    let token = issue("s3cret", 42, "abc", 2_000_000_000);
    let sum = "abc".to_string();
    assert!(CdnServiceImpl::verify_token(&token, "s3cret", 42, &sum, 3600, 1_700_000_000).is_ok());
}

