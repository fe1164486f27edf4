use md5::Digest;

use ncm_tui::ncm_core::api::{artist, login, search, track, user};
use ncm_tui::ncm_core::api::search::SearchType;
use ncm_tui::ncm_core::api::user::ListeningRank;
use ncm_tui::ncm_core::client::{
    after_attempt, complete_length, is_success, partial_path, plaintext_body, range_header, resume_action, retry_after, retry_delay,
    retryable_status, AfterAttempt, Attempt, NcmClient, RequestPolicy, ResumeAction,
};
use ncm_tui::ncm_core::crypto::{
    eapi_decrypt, eapi_encrypt, pad_key, python_base64_encodebytes, weapi_encrypt, CryptoError, EAPI_DELIMITER,
};
use ncm_tui::ncm_core::request::{write_object, ApiSpec, CryptoMode, Field, RequestEntropy};
use ncm_tui::ncm_core::session::{apply_cookie_header, seed_cookies, SessionConfig};
use ncm_tui::time::{Duration, Instant};

fn text_of<'a>(spec: &'a ApiSpec, name: &str) -> &'a str {
    match spec.field(name) {
        Some(Field::Text(text)) => text.as_str(),
        other => panic!("{name} is {other:?}"),
    }
}

#[test]
fn artist_requests_preserve_legacy_wire_types() {
    let album_spec = artist::albums(42, 100, 50);
    assert_eq!(album_spec.path, "/weapi/artist/albums/42");
    assert_eq!(text_of(&album_spec, "offset"), "100");

    let song_spec = artist::songs(42, 0, 1000);
    assert_eq!(text_of(&song_spec, "id"), "42");
    assert_eq!(text_of(&song_spec, "order"), "time");
}

#[test]
fn qr_requests_match_web_login_contract() {
    let key = login::qr_key();
    assert_eq!(text_of(&key, "type"), "1");
    assert_eq!(key.field("noCheckToken"), Some(&Field::Flag(true)));

    let check = login::qr_check("abc");
    assert_eq!(check.field("type"), Some(&Field::Number(1)));
    assert_eq!(text_of(&check, "key"), "abc");
}

#[test]
fn cloud_search_uses_desktop_eapi_contract() {
    let spec = search::cloud("Vocaloid", SearchType::Artist, 50, 100);
    assert_eq!(spec.path, "/eapi/cloudsearch/pc");
    assert_eq!(spec.crypto, CryptoMode::Eapi);
    assert_eq!(text_of(&spec, "type"), "100");
    assert_eq!(text_of(&spec, "offset"), "100");
}

#[test]
fn collection_requests_are_pageable() {
    let playlist_spec = user::playlists(7, 50, 50);
    assert_eq!(text_of(&playlist_spec, "uid"), "7");
    assert_eq!(text_of(&playlist_spec, "offset"), "50");

    let album_spec = user::subscribed_albums(100, 50);
    assert_eq!(album_spec.path, "/weapi/album/sublist");
    assert_eq!(text_of(&album_spec, "offset"), "100");

    let artist_spec = user::subscribed_artists(25, 50);
    assert_eq!(artist_spec.path, "/weapi/artist/sublist");
    assert_eq!(text_of(&artist_spec, "offset"), "25");
}

#[test]
fn listening_rank_selects_week_or_all_time() {
    let week = user::listening_rank(7, ListeningRank::Week);
    assert_eq!(week.path, "/weapi/v1/play/record");
    assert_eq!(text_of(&week, "uid"), "7");
    assert_eq!(text_of(&week, "type"), "1");

    let all = user::listening_rank(7, ListeningRank::All);
    assert_eq!(text_of(&all, "type"), "0");
}

#[test]
fn prepares_eapi_with_distinct_signing_and_transport_paths() {
    let client = NcmClient::new(SessionConfig::default());
    let prepared = client
        .prepare_with_entropy(
            track::audio_v1(&vec![123], "lossless", "flac"),
            RequestEntropy {
                weapi_secret: "0123456789abcdef".to_owned(),
                request_id: "23456789".to_owned(),
            },
        )
        .unwrap();
    assert_eq!(
        prepared.url,
        "https://music.163.com/eapi/song/enhance/player/url/v1"
    );
    assert_eq!(prepared.form[0].0, "params");
    assert!(prepared.form[0].1.chars().all(|c| c.is_ascii_hexdigit()));
    let plain = eapi_decrypt(&hex::decode(&prepared.form[0].1).unwrap()).unwrap();
    assert!(String::from_utf8(plain).unwrap().starts_with("/api/song/enhance/player/url/v1"));
}

#[test]
fn a_request_of_chance_is_prepared_too() {
    let client = NcmClient::new(SessionConfig::with_cookie("secret", "csrf"));
    let prepared = client.prepare(user::playlists(7, 0, 30)).unwrap();
    assert_eq!(prepared.crypto, CryptoMode::Weapi);
    assert_eq!(prepared.form.len(), 2);
    assert_eq!(prepared.form[1].1.len(), 256);
}

#[test]
fn request_policy_handles_invalid_qps_and_bounded_backoff() {
    assert_eq!(retry_delay(0, None), Duration::from_millis(250));
    assert_eq!(retry_delay(20, None), Duration::from_secs(2));
    assert_eq!(
        retry_delay(0, Some(Duration::from_secs(7))),
        Duration::from_secs(7)
    );
}

#[test]
fn requests_keep_their_distance() {
    let mut policy = RequestPolicy { minimum_interval: Duration::from_millis(500), next_request_at: Instant { nanos: 0 } };
    let now = Instant { nanos: 1_000 };
    assert_eq!(policy.wait_until(now), None);
    policy.taken(now);
    assert_eq!(policy.wait_until(now), Some(Instant { nanos: 500_001_000 }));
    assert_eq!(policy.wait_until(Instant { nanos: 500_001_000 }), None);
}

#[test]
fn only_what_may_pass_is_tried_again() {
    assert!(is_success(204));
    assert!(!is_success(301));
    assert!(retryable_status(429));
    assert!(retryable_status(503));
    assert!(!retryable_status(404));
    assert_eq!(retry_after(Some("7")), Some(Duration::from_secs(7)));
    assert_eq!(retry_after(Some("soon")), None);
    assert_eq!(retry_after(None), None);
    assert_eq!(
        after_attempt(0, 2, Attempt::Answered { status: 200, server_delay: None }),
        AfterAttempt::Accept
    );
    assert_eq!(
        after_attempt(0, 2, Attempt::Answered { status: 503, server_delay: None }),
        AfterAttempt::Retry(Duration::from_millis(250))
    );
    assert_eq!(after_attempt(0, 2, Attempt::Lost { passing: false }), AfterAttempt::Fail);
    assert_eq!(after_attempt(2, 2, Attempt::Lost { passing: true }), AfterAttempt::Fail);
}

#[test]
fn extracts_authentication_cookies_without_exposing_the_jar() {
    let mut session = SessionConfig::default();
    apply_cookie_header(
        &mut session,
        "os=pc; MUSIC_U=credential==; __csrf=token; ignored=value",
    );
    assert_eq!(session.music_u, "credential==");
    assert_eq!(session.csrf_token, "token");
}

#[test]
fn a_session_seeds_its_cookies() {
    let session = SessionConfig::with_cookie("secret", "csrf");
    let cookies = seed_cookies(&session);
    assert!(cookies.iter().any(|cookie| cookie.starts_with("MUSIC_U=secret")));
    assert!(cookies.iter().any(|cookie| cookie.starts_with("__csrf=csrf")));
    let client = NcmClient::new(session);
    let later = client.authenticated_session(Some("MUSIC_U=other"));
    assert_eq!(later.music_u, "other");
    assert_eq!(later.csrf_token, "csrf");
}

#[test]
fn chooses_safe_resume_actions() {
    assert_eq!(resume_action(206, 42, Some("bytes 42-99/100")), ResumeAction::Append);
    assert_eq!(resume_action(206, 42, Some("bytes 0-99/100")), ResumeAction::RetryWithoutRange);
    assert_eq!(resume_action(200, 42, None), ResumeAction::Restart);
    assert_eq!(resume_action(416, 100, Some("bytes */100")), ResumeAction::Complete);
    assert_eq!(resume_action(416, 42, Some("bytes */100")), ResumeAction::RetryWithoutRange);
    assert_eq!(complete_length(Some("invalid")), None);
}

#[test]
fn downloads_go_on_where_they_stopped() {
    assert_eq!(range_header(0), None);
    assert_eq!(range_header(42), Some("bytes=42-".to_owned()));
    assert_ne!(partial_path("/a/b.flac"), "/a/b.flac");
}

#[test]
fn python_base64_wraps_and_terminates_lines() {
    let encoded = python_base64_encodebytes(&[0_u8; 80]);
    let lines: Vec<_> = encoded.split_inclusive('\n').collect();
    assert_eq!(lines[0].trim_end().len(), 76);
    assert!(encoded.ends_with('\n'));
    assert_eq!(python_base64_encodebytes(b"hello"), "aGVsbG8=\n");
    assert_eq!(python_base64_encodebytes(b"hell"), "aGVsbA==\n");
    assert_eq!(python_base64_encodebytes(b"hel"), "aGVs\n");
    assert_eq!(python_base64_encodebytes(&[0xfb, 0xff, 0xfe]), "+//+\n");
    assert_eq!(python_base64_encodebytes(b""), "");
}

#[test]
fn eapi_cipher_round_trip_recovers_signed_plaintext() {
    let path = "/api/test";
    let payload = r#"{"id":"123"}"#;
    let encrypted = eapi_encrypt(path, payload).unwrap();
    let decrypted = eapi_decrypt(&hex::decode(encrypted).unwrap()).unwrap();
    let decrypted = String::from_utf8(decrypted).unwrap();
    assert!(decrypted.starts_with(&format!("{path}{EAPI_DELIMITER}{payload}")));
}

#[test]
fn eapi_signs_with_md5() {
    let encrypted = eapi_encrypt("/api/test", "{}").unwrap();
    let decrypted = String::from_utf8(eapi_decrypt(&hex::decode(encrypted).unwrap()).unwrap()).unwrap();
    let mut hasher = md5::Md5::new();
    hasher.update("nobody/api/testuse{}md5forencrypt".as_bytes());
    assert!(decrypted.ends_with(&hex::encode(hasher.finalize())));
    assert!(eapi_decrypt(&[1, 2, 3]).is_err());
}

#[test]
fn weapi_seals_the_secret() {
    assert_eq!(pad_key("abc").len(), 256);
    assert!(pad_key("abc").ends_with("0abc"));
    let form = weapi_encrypt("{}", "0123456789abcdef").unwrap();
    assert_eq!(form.params, "kxBNj/l03n7aQ/q0EdABwgd0IOp7iZK4dO+nEvRS9ik=\n");
    assert_eq!(
        form.enc_sec_key,
        "35701388baf89fed412e11269b9c76625d095ecaf17f03fa018abe19ea2d38b949debf242ee39a71ca1f6cda71b1b86a\
         45aa909ee27f7e78e267d34e732f0de948206c3340a788d0003372183e2f753c1f78b66ac23d134ac1fc9b993156520e\
         a826b8aa89a962d4491b4b8d7e08738e1da9b07aa39bf4a7ef0b1c210728cd52"
    );
    let again = weapi_encrypt("{}", "0123456789abcdef").unwrap();
    assert_eq!(form, again);
    assert_ne!(form, weapi_encrypt("{}", "fedcba9876543210").unwrap());
}

#[test]
fn seals_have_their_lengths_and_alphabets() {
    let is_hex = |text: &str| text.bytes().all(|byte| byte.is_ascii_digit() || (b'a'..=b'f').contains(&byte));
    for length in [0, 1, 15, 16, 100] {
        let payload = "x".repeat(length);
        let sealed = eapi_encrypt("/api/test", &payload).unwrap();
        let plain = 9 + 13 + length + 13 + 32;
        assert_eq!(sealed.len(), (plain / 16 + 1) * 32);
        assert!(is_hex(&sealed));
        for secret in ["0123456789abcdef", "aaaaaaaaaaaaaaaa"] {
            let form = weapi_encrypt(&payload, secret).unwrap();
            assert_eq!(form.enc_sec_key.len(), 256);
            assert!(is_hex(&form.enc_sec_key));
            assert!(form.params.ends_with('\n'));
            for line in form.params.lines() {
                assert!(line.len() <= 76);
                assert!(line.bytes().all(|byte| byte.is_ascii_alphanumeric() || b"+/=".contains(&byte)));
            }
        }
    }
}

#[test]
fn payloads_are_quoted_and_sorted() {
    let spec = ApiSpec::post("/weapi/x", CryptoMode::Weapi)
        .with("b", Field::Text("a\"b".to_owned()))
        .with("a", Field::Flag(true));
    assert_eq!(write_object(&spec.payload), r#"{"a":true,"b":"a\"b"}"#);
    let text = "\u{0}\u{8}\t\n\u{b}\u{c}\r\u{1f} /\\\u{7f}é音";
    let spec = ApiSpec::post("/weapi/x", CryptoMode::Weapi).with("a", Field::Text(text.to_owned()));
    assert_eq!(
        write_object(&spec.payload),
        "{\"a\":\"\\u0000\\b\\t\\n\\u000b\\f\\r\\u001f /\\\\\u{7f}é音\"}"
    );
}

#[test]
fn bad_keys_and_answers_are_refused() {
    assert_eq!(weapi_encrypt("{}", "short").unwrap_err(), CryptoError::InvalidKeyLength);
    assert_eq!(eapi_decrypt(&[1, 2, 3]).unwrap_err(), CryptoError::InvalidPadding);
    assert_ne!(CryptoError::InvalidKeyLength.message(), CryptoError::InvalidPadding.message());
    assert_eq!(resume_action(404, 0, None), ResumeAction::Reject);
    assert_eq!(plaintext_body(CryptoMode::Weapi, b"{}".to_vec()).unwrap(), b"{}");
    assert_eq!(plaintext_body(CryptoMode::Eapi, b"{}".to_vec()).unwrap(), b"{}");
    assert!(plaintext_body(CryptoMode::Eapi, b"no".to_vec()).is_err());
}
