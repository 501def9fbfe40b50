use aes::cipher::block_padding::Pkcs7;
use aes::cipher::{BlockEncryptMut, KeyIvInit};
use pku3b::cache::{
    bytes_cache_key, cache_file_name, is_fresh, lookup, store, value_cache_key, CacheRecord,
};
use pku3b::hls::{be_bytes, decrypt_segment, key_uri, parse_iv, segment_iv, HlsError, MediaPlaylist};
use pku3b::video::{
    segment_needs_fetch, sub_info_params, temp_file_name, with_extension, CourseVideo,
    CourseVideoMeta, ResolveError,
};

fn aes_key(uri: &str, iv: Option<&str>, fmt: Option<&str>) -> m3u8_rs::Key {
    m3u8_rs::Key {
        method: m3u8_rs::KeyMethod::AES128,
        uri: Some(uri.to_string()),
        iv: iv.map(|s| s.to_string()),
        keyformat: fmt.map(|s| s.to_string()),
        keyformatversions: None,
    }
}

fn encrypt(key: &[u8; 16], iv: &[u8; 16], plain: &[u8]) -> Vec<u8> {
    cbc::Encryptor::<aes::Aes128>::new(key.into(), iv.into()).encrypt_padded_vec_mut::<Pkcs7>(plain)
}

const KEYED: &str = "#EXTM3U
#EXT-X-TARGETDURATION:10
#EXT-X-MEDIA-SEQUENCE:7
#EXTINF:10,
s0.ts
#EXT-X-KEY:METHOD=AES-128,URI=\"a.key\",KEYFORMAT=\"X\"
#EXTINF:10,
s1.ts
#EXTINF:10,
s2.ts
#EXT-X-KEY:METHOD=AES-128,URI=\"b.key\",KEYFORMAT=\"Y\"
#EXTINF:10,
s3.ts
#EXTINF:10,
s4.ts
#EXT-X-KEY:METHOD=AES-128,URI=\"c.key\",KEYFORMAT=\"X\"
#EXTINF:10,
s5.ts
#EXT-X-ENDLIST
";

fn active_uris(pl: &MediaPlaylist) -> Vec<Option<String>> {
    let mut key = None;
    let mut out = Vec::new();
    for i in 0..pl.len_segments() {
        key = pl.refresh_key(i, key);
        out.push(key.and_then(|k| k.uri.clone()));
    }
    out
}

#[test]
fn key_persists_until_same_keyformat_supersedes() {
    let pl = MediaPlaylist::parse(KEYED.as_bytes()).unwrap();
    assert_eq!(pl.media_sequence, 7);
    assert_eq!(pl.len_segments(), 6);
    let got = active_uris(&pl);
    let a = Some("a.key".to_string());
    let c = Some("c.key".to_string());
    // A key of another keyformat does not replace the active one.
    assert_eq!(got, vec![None, a.clone(), a.clone(), a.clone(), a, c]);
}

#[test]
fn key_table_matches_sequential_refresh() {
    let pl = MediaPlaylist::parse(KEYED.as_bytes()).unwrap();
    let table: Vec<Option<String>> =
        pl.key_table().into_iter().map(|k| k.and_then(|k| k.uri.clone())).collect();
    assert_eq!(table, active_uris(&pl));
}

#[test]
fn key_of_same_format_replaces_active_key() {
    let text = KEYED.replace("KEYFORMAT=\"Y\"", "KEYFORMAT=\"X\"");
    let pl = MediaPlaylist::parse(text.as_bytes()).unwrap();
    let got = active_uris(&pl);
    let a = Some("a.key".to_string());
    let b = Some("b.key".to_string());
    let c = Some("c.key".to_string());
    assert_eq!(got, vec![None, a.clone(), a, b.clone(), b, c]);
}

#[test]
fn absent_keyformat_counts_as_identity() {
    let text = KEYED
        .replace(",KEYFORMAT=\"X\"", "")
        .replace("KEYFORMAT=\"Y\"", "KEYFORMAT=\"identity\"");
    let pl = MediaPlaylist::parse(text.as_bytes()).unwrap();
    let got = active_uris(&pl);
    let a = Some("a.key".to_string());
    let b = Some("b.key".to_string());
    let c = Some("c.key".to_string());
    assert_eq!(got, vec![None, a.clone(), a, b.clone(), b, c]);
}

#[test]
fn master_playlist_is_refused() {
    let text = "#EXTM3U
#EXT-X-STREAM-INF:BANDWIDTH=1280000
low.m3u8
";
    assert_eq!(MediaPlaylist::parse(text.as_bytes()).err(), Some(HlsError::MasterPlaylist));
}

#[test]
fn garbage_playlist_is_malformed() {
    assert_eq!(MediaPlaylist::parse(b"hello").err(), Some(HlsError::MalformedPlaylist));
}

#[test]
fn aes_segment_round_trip_with_sequence_iv() {
    let key = [7u8; 16];
    let plain = b"transport stream payload, more than one block long".to_vec();
    let pl = MediaPlaylist::parse(KEYED.as_bytes()).unwrap();
    let seq = pl.sequence_number(3);
    assert_eq!(seq, 10);
    let iv: [u8; 16] = seq.to_be_bytes();
    let ct = encrypt(&key, &iv, &plain);
    let k = aes_key("k.key", None, None);
    let out = pl.decode_segment(3, Some(&k), &key, ct.clone()).unwrap();
    assert_eq!(out, plain);
    // another index gives another IV
    let other = pl.decode_segment(4, Some(&k), &key, ct);
    assert!(other != Ok(plain));
}

#[test]
fn aes_segment_round_trip_with_explicit_iv() {
    let key = *b"0123456789abcdef";
    let iv = [0xA5u8; 16];
    let plain = b"abc".to_vec();
    let ct = encrypt(&key, &iv, &plain);
    let k = aes_key("k.key", Some("0xa5a5a5a5A5A5A5A5a5a5a5a5a5a5a5a5"), Some("identity"));
    assert_eq!(decrypt_segment(&k, 99, &key, &ct).unwrap(), plain);
}

#[test]
fn unencrypted_segment_is_unchanged() {
    let pl = MediaPlaylist::parse(KEYED.as_bytes()).unwrap();
    let data = vec![1u8, 2, 3];
    assert_eq!(pl.decode_segment(0, None, &[], data.clone()).unwrap(), data);
}

#[test]
fn decryption_errors() {
    let key = [1u8; 16];
    let mut k = aes_key("k.key", None, None);
    assert_eq!(decrypt_segment(&k, 0, &key[..15], &[0u8; 16]).err(), Some(HlsError::KeyLength));
    assert_eq!(decrypt_segment(&k, 0, &key, &[0u8; 5]).err(), Some(HlsError::DecryptFailed));
    k.iv = Some("1234".to_string());
    assert_eq!(decrypt_segment(&k, 0, &key, &[0u8; 16]).err(), Some(HlsError::InvalidIv));
    k.uri = None;
    assert_eq!(key_uri(&k).err(), Some(HlsError::MissingKeyUri));
    assert_eq!(decrypt_segment(&k, 0, &key, &[0u8; 16]).err(), Some(HlsError::MissingKeyUri));
    k.method = m3u8_rs::KeyMethod::SampleAES;
    assert_eq!(key_uri(&k).err(), Some(HlsError::UnsupportedMethod));
    assert_eq!(decrypt_segment(&k, 0, &key, &[0u8; 16]).err(), Some(HlsError::UnsupportedMethod));
}

#[test]
fn iv_parsing() {
    assert_eq!(parse_iv("0x1f"), Some(31));
    assert_eq!(parse_iv("0X1F"), Some(31));
    assert_eq!(parse_iv("0xffffffffffffffffffffffffffffffff"), Some(u128::MAX));
    assert_eq!(parse_iv("0x0000000000000000000000000000000000000001"), Some(1));
    assert_eq!(parse_iv("0x1ffffffffffffffffffffffffffffffff"), None);
    assert_eq!(parse_iv("0x"), None);
    assert_eq!(parse_iv("1f"), None);
    assert_eq!(parse_iv("0x1g"), None);
}

#[test]
fn iv_bytes_are_big_endian() {
    let mut expected = vec![0u8; 16];
    expected[15] = 1;
    expected[14] = 2;
    assert_eq!(be_bytes(0x201), expected);
    let k = aes_key("k", None, None);
    assert_eq!(segment_iv(&k, 0x201).unwrap(), expected);
    let k = aes_key("k", Some("0x0102"), None);
    let mut e2 = vec![0u8; 16];
    e2[14] = 1;
    e2[15] = 2;
    assert_eq!(segment_iv(&k, 5).unwrap(), e2);
}

fn video() -> CourseVideo {
    let meta = CourseVideoMeta::new("Lecture 1".into(), "2024-01-01".into(), "/v".into());
    CourseVideo::new(
        "Algebra".into(),
        meta,
        "https://media.example.com/live/abc/index.m3u8?t=1",
        KEYED.as_bytes().to_vec(),
    )
    .unwrap()
}

#[test]
fn segment_urls_resolve_against_playlist_url() {
    let v = video();
    assert_eq!(v.len_segments(), 6);
    assert_eq!(v.course_name(), "Algebra");
    assert_eq!(v.meta().title(), "Lecture 1");
    assert_eq!(v.m3u8_raw(), KEYED.as_bytes());
    assert_eq!(v.segment(2).uri, "s2.ts");
    assert_eq!(v.segment_url(2).unwrap(), "https://media.example.com/live/abc/s2.ts");
    assert_eq!(
        CourseVideo::segment_cache_name("https://h/s.ts"),
        "CourseVideo::download_segment_https://h/s.ts"
    );
    assert_eq!(CourseVideo::key_cache_name("k"), "CourseVideo::get_aes128_uri_k");
}

#[test]
fn video_with_bad_url_is_refused() {
    let meta = CourseVideoMeta::new("t".into(), "x".into(), "/v".into());
    let r = CourseVideo::new("c".into(), meta, "not a url", KEYED.as_bytes().to_vec());
    assert_eq!(r.err(), Some(HlsError::InvalidUrl));
}

#[test]
fn resumable_download_naming() {
    let v = video();
    assert_eq!(v.segment_file_name(1), "s1.ts");
    assert_eq!(temp_file_name("s1.ts"), "s1.tmp");
    assert_eq!(with_extension("a.b/c", "ts"), "a.b/c.ts");
    assert_eq!(with_extension("dir/.hidden", "ts"), "dir/.hidden.ts");
    assert_eq!(with_extension("x.tar.gz", "ts"), "x.tar.ts");
    // a final file means no fetch; a leftover temporary file does not
    assert!(!segment_needs_fetch(true, false));
    assert!(!segment_needs_fetch(true, true));
    assert!(segment_needs_fetch(false, true));
    assert!(segment_needs_fetch(false, false));
}

#[test]
fn authorization_parameters() {
    let p = sub_info_params("https://x.edu/player?course_id=c1&sub_id=s2&app_id=a3&auth_data=zz")
        .ok()
        .unwrap();
    assert_eq!(
        (p.course_id.as_str(), p.sub_id.as_str(), p.app_id.as_str(), p.auth_data.as_str()),
        ("c1", "s2", "a3", "zz")
    );
    let e = sub_info_params("https://x.edu/player?course_id=c1&app_id=a3");
    assert_eq!(e.err(), Some(ResolveError::MissingSubId));
    let e = sub_info_params("https://x.edu/player");
    assert_eq!(e.err(), Some(ResolveError::MissingCourseId));
    let e = sub_info_params("https://x.edu/player?course_id=1&sub_id=2");
    assert_eq!(e.err(), Some(ResolveError::MissingAppId));
    let e = sub_info_params("https://x.edu/player?course_id=1&sub_id=2&app_id=3");
    assert_eq!(e.err(), Some(ResolveError::MissingAuthData));
    let e = sub_info_params("http://[bad");
    assert_eq!(e.err(), Some(ResolveError::InvalidLocation));
}

#[test]
fn cache_hit_within_ttl() {
    let rec = store(vec![1, 2, 3], 1_000);
    assert_eq!(lookup(&Some(rec), Some(500), 1_499), Some(&[1u8, 2, 3][..]));
    let rec = store(vec![1, 2, 3], 1_000);
    assert_eq!(lookup(&Some(rec), Some(500), 1_500), None);
    assert_eq!(lookup(&None, Some(500), 1_000), None);
}

#[test]
fn cache_without_ttl_always_misses() {
    let rec = store(vec![9], 1_000);
    assert_eq!(lookup(&Some(rec), None, 1_000), None);
    assert!(!is_fresh(1_000, None, 1_000));
    // what that miss stored is then found with a ttl
    let rec = CacheRecord { payload: vec![9], modified_at: 1_000 };
    assert_eq!(lookup(&Some(rec), Some(60_000), 2_000), Some(&[9u8][..]));
}

#[test]
fn cache_file_names() {
    assert_eq!(cache_file_name(0x1f, false), "with_cache-1f");
    assert_eq!(cache_file_name(0, true), "with_cache_bytes-0");
    assert_eq!(cache_file_name(u64::MAX, true), "with_cache_bytes-ffffffffffffffff");
    let k = bytes_cache_key("CourseVideo::download_segment_x");
    assert_eq!(k, bytes_cache_key("CourseVideo::download_segment_x"));
    assert_ne!(k, bytes_cache_key("CourseVideo::download_segment_y"));
    assert_ne!(value_cache_key("n", "A"), value_cache_key("n", "B"));
    assert_eq!(cache_file_name(k, true), format!("with_cache_bytes-{:x}", k));
}
